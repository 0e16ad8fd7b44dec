//! The arena: the ambient heap that owns every shared, garbage-collected
//! cell of the runtime — string buffers, interned names, tuples, struct and
//! enum values, optionals, closures, scopes, captured-scope links, modules,
//! type descriptors, functions and chunks.
//!
//! A handle is an index into one of these stores.  Cells are only ever added,
//! never removed, so a handle stays valid for the life of the arena; the
//! actual reclamation of unreachable cells is a collector's concern and out
//! of scope here.  [`ArenaM`] is the mathematical model of the whole heap,
//! and `wf` says that every handle held anywhere inside it is in range.

use vstd::prelude::*;

use crate::engine::frame::CapturedScopeData;
use crate::fun::ChunkData;
use crate::fun::ChunkM;
use crate::fun::FunData;
use crate::ident::Ident;
use crate::modu::ModuData;
use crate::modu::ModuM;
use crate::typ;
use crate::typ::DefProtoM;
use crate::typ::EnumDefM;
use crate::typ::StructDefM;
use crate::value;
use crate::value::ClosureData;
use crate::value::EnumCellM;
use crate::value::OptionData;
use crate::value::ProtoM;
use crate::value::StructCellM;
use crate::value::TupleData;
use crate::value::Value;

verus! {

/// The heap: one growable store per kind of cell, plus a counter that mints
/// handles for external native callables (the callables themselves stay with
/// the host).
pub struct Arena {
    pub strs: Vec<Vec<u8>>,
    pub idents: Vec<Vec<u8>>,
    pub tuples: Vec<TupleData>,
    pub structs: Vec<value::StructData>,
    pub enums: Vec<value::EnumData>,
    pub opts: Vec<OptionData>,
    pub closures: Vec<ClosureData>,
    pub scopes: Vec<Vec<Value>>,
    pub captures: Vec<CapturedScopeData>,
    pub modus: Vec<ModuData>,
    pub struct_defs: Vec<typ::StructData>,
    pub enum_defs: Vec<typ::EnumData>,
    pub funs: Vec<FunData>,
    pub chunks: Vec<ChunkData>,
    pub externals: usize,
}

/// Mathematical model of the heap.
#[verifier::ext_equal]
pub ghost struct ArenaM {
    pub strs: Seq<Seq<u8>>,
    pub idents: Seq<Seq<u8>>,
    pub tuples: Seq<Seq<Value>>,
    pub structs: Seq<StructCellM>,
    pub enums: Seq<EnumCellM>,
    pub opts: Seq<OptionData>,
    pub closures: Seq<ClosureData>,
    pub scopes: Seq<Seq<Value>>,
    pub captures: Seq<CapturedScopeData>,
    pub modus: Seq<ModuM>,
    pub struct_defs: Seq<StructDefM>,
    pub enum_defs: Seq<EnumDefM>,
    pub funs: Seq<FunData>,
    pub chunks: Seq<ChunkM>,
    pub externals: usize,
}

impl View for Arena {
    type V = ArenaM;

    open spec fn view(&self) -> ArenaM {
        ArenaM {
            strs: self.strs@.map_values(|v: Vec<u8>| v@),
            idents: self.idents@.map_values(|v: Vec<u8>| v@),
            tuples: self.tuples@.map_values(|t: TupleData| t.fields@),
            structs: self.structs@.map_values(|s: value::StructData| s@),
            enums: self.enums@.map_values(|e: value::EnumData| e@),
            opts: self.opts@,
            closures: self.closures@,
            scopes: self.scopes@.map_values(|s: Vec<Value>| s@),
            captures: self.captures@,
            modus: self.modus@.map_values(|m: ModuData| m@),
            struct_defs: self.struct_defs@.map_values(|s: typ::StructData| s@),
            enum_defs: self.enum_defs@.map_values(|e: typ::EnumData| e@),
            funs: self.funs@,
            chunks: self.chunks@.map_values(|c: ChunkData| c@),
            externals: self.externals,
        }
    }
}

/// True when every value of the sequence is well formed.
pub open spec fn values_wf(vs: Seq<Value>, a: ArenaM) -> bool {
    forall|i: int| 0 <= i < vs.len() ==> (#[trigger] vs[i]).wf(a)
}

/// True when the keys of the association list are well formed and pairwise
/// distinct.
pub open spec fn keys_wf<T>(entries: Seq<(Ident, T)>, a: ArenaM) -> bool {
    &&& forall|i: int| 0 <= i < entries.len() ==> (#[trigger] entries[i]).0.wf(a)
    &&& forall|i: int, j: int|
        0 <= i < entries.len() && 0 <= j < entries.len() && i != j ==> (#[trigger] entries[i]).0 != (
        #[trigger] entries[j]).0
}

/// True when every function handle of the association list is in range.
pub open spec fn fun_entries_wf(entries: Seq<(Ident, crate::fun::Fun)>, a: ArenaM) -> bool {
    &&& keys_wf(entries, a)
    &&& forall|i: int| 0 <= i < entries.len() ==> (#[trigger] entries[i]).1.id < a.funs.len()
}

/// True when a field storage matches its declared layout: a positional
/// storage of exactly the declared arity, or a keyed storage whose keys are
/// the declared keys in declared order.
pub open spec fn layout_match(p: ProtoM, d: DefProtoM) -> bool {
    match (p, d) {
        (ProtoM::Tuple(fs), DefProtoM::Tuple(n)) => fs.len() == n as int,
        (ProtoM::Keyed(fs), DefProtoM::Keyed(keys)) => {
            &&& fs.len() == keys.len()
            &&& forall|i: int| 0 <= i < fs.len() ==> (#[trigger] fs[i]).0 == keys[i]
        },
        _ => false,
    }
}

/// True when every value (and key) of a field storage is well formed.
pub open spec fn proto_values_wf(p: ProtoM, a: ArenaM) -> bool {
    match p {
        ProtoM::Tuple(fs) => values_wf(fs, a),
        ProtoM::Keyed(fs) => {
            forall|i: int|
                0 <= i < fs.len() ==> (#[trigger] fs[i]).0.wf(a) && (#[trigger] fs[i]).1.wf(a)
        },
    }
}

/// True when a declared layout is well formed: keyed layouts name distinct,
/// well-formed keys.
pub open spec fn def_proto_wf(d: DefProtoM, a: ArenaM) -> bool {
    match d {
        DefProtoM::Tuple(_) => true,
        DefProtoM::Keyed(keys) => {
            &&& forall|i: int| 0 <= i < keys.len() ==> (#[trigger] keys[i]).wf(a)
            &&& forall|i: int, j: int|
                0 <= i < keys.len() && 0 <= j < keys.len() && i != j ==> keys[i] != keys[j]
        },
    }
}

/// True when a struct-value cell is well formed: its descriptor handle is in
/// range, its storage matches the declared layout, and its contents are well
/// formed.
pub open spec fn struct_cell_wf(s: StructCellM, a: ArenaM) -> bool {
    &&& s.typ.id < a.struct_defs.len()
    &&& layout_match(s.proto, a.struct_defs[s.typ.id as int].proto)
    &&& proto_values_wf(s.proto, a)
}

/// True when an enum-value cell is well formed: descriptor and variant in
/// range, storage matching the variant's layout, contents well formed.
pub open spec fn enum_cell_wf(e: EnumCellM, a: ArenaM) -> bool {
    &&& e.typ.id < a.enum_defs.len()
    &&& (e.variant as int) < a.enum_defs[e.typ.id as int].variants.len()
    &&& layout_match(e.proto, a.enum_defs[e.typ.id as int].variants[e.variant as int].proto)
    &&& proto_values_wf(e.proto, a)
}

/// True when an optional cell's content is well formed.
pub open spec fn opt_cell_wf(o: OptionData, a: ArenaM) -> bool {
    match o {
        OptionData::Present(v) => v.wf(a),
        OptionData::Absent => true,
    }
}

/// True when a closure cell's handles are in range.
pub open spec fn closure_cell_wf(c: ClosureData, a: ArenaM) -> bool {
    &&& c.fun.id < a.funs.len()
    &&& c.captured_scope.id < a.captures.len()
}

/// True when a captured-scope link is well formed: its scope is in range,
/// its captured length fits that scope, and its parent link is in range.
pub open spec fn capture_wf(c: CapturedScopeData, a: ArenaM) -> bool {
    &&& c.scope.id < a.scopes.len()
    &&& c.captured_scope_len <= a.scopes[c.scope.id as int].len()
    &&& match c.parent_scope {
        Some(p) => p.id < a.captures.len(),
        None => true,
    }
}

/// True when a module cell is well formed: the name and parent are valid and
/// each of the three tables has distinct, valid keys and in-range payloads.
pub open spec fn modu_cell_wf(m: ModuM, a: ArenaM) -> bool {
    &&& m.ident.wf(a)
    &&& match m.parent_modu {
        Some(p) => p.id < a.modus.len(),
        None => true,
    }
    &&& keys_wf(m.child_modus, a)
    &&& forall|i: int| 0 <= i < m.child_modus.len() ==> (#[trigger] m.child_modus[i]).1.id < a.modus.len()
    &&& keys_wf(m.typs, a)
    &&& forall|i: int|
        0 <= i < m.typs.len() ==> match (#[trigger] m.typs[i]).1 {
            typ::Typ::Struct(s) => s.id < a.struct_defs.len(),
            typ::Typ::Enum(e) => e.id < a.enum_defs.len(),
        }
    &&& fun_entries_wf(m.funs, a)
}

/// True when a struct descriptor is well formed.
pub open spec fn struct_def_wf(d: StructDefM, a: ArenaM) -> bool {
    &&& d.ident.wf(a)
    &&& def_proto_wf(d.proto, a)
    &&& fun_entries_wf(d.funs, a)
}

/// True when an enum descriptor is well formed.
pub open spec fn enum_def_wf(d: EnumDefM, a: ArenaM) -> bool {
    &&& d.ident.wf(a)
    &&& forall|i: int|
        0 <= i < d.variants.len() ==> (#[trigger] d.variants[i]).ident.wf(a) && def_proto_wf(
            d.variants[i].proto,
            a,
        )
    &&& fun_entries_wf(d.funs, a)
}

/// True when a function cell's handles are in range.
pub open spec fn fun_cell_wf(f: FunData, a: ArenaM) -> bool {
    &&& f.modu.id < a.modus.len()
    &&& f.ident.wf(a)
    &&& match f.proto {
        crate::fun::FunProto::Chunk(c) => c.id < a.chunks.len(),
        crate::fun::FunProto::External(e) => e.id < a.externals,
    }
}

/// True when every instruction of a chunk is well formed.
pub open spec fn chunk_cell_wf(c: ChunkM, a: ArenaM) -> bool {
    forall|i: int| 0 <= i < c.instrs.len() ==> (#[trigger] c.instrs[i]).wf(a)
}

impl ArenaM {
    /// The heap's invariant: every cell of every store is well formed, and
    /// the intern table holds each name at most once.
    pub open spec fn wf(self) -> bool {
        &&& forall|i: int, j: int|
            0 <= i < self.idents.len() && 0 <= j < self.idents.len() && i != j
                ==> self.idents[i] != self.idents[j]
        &&& forall|i: int| 0 <= i < self.tuples.len() ==> values_wf(#[trigger] self.tuples[i], self)
        &&& forall|i: int| 0 <= i < self.structs.len() ==> struct_cell_wf(#[trigger] self.structs[i], self)
        &&& forall|i: int| 0 <= i < self.enums.len() ==> enum_cell_wf(#[trigger] self.enums[i], self)
        &&& forall|i: int| 0 <= i < self.opts.len() ==> opt_cell_wf(#[trigger] self.opts[i], self)
        &&& forall|i: int|
            0 <= i < self.closures.len() ==> closure_cell_wf(#[trigger] self.closures[i], self)
        &&& forall|i: int| 0 <= i < self.scopes.len() ==> values_wf(#[trigger] self.scopes[i], self)
        &&& forall|i: int| 0 <= i < self.captures.len() ==> capture_wf(#[trigger] self.captures[i], self)
        &&& forall|i: int| 0 <= i < self.modus.len() ==> modu_cell_wf(#[trigger] self.modus[i], self)
        &&& forall|i: int|
            0 <= i < self.struct_defs.len() ==> struct_def_wf(#[trigger] self.struct_defs[i], self)
        &&& forall|i: int|
            0 <= i < self.enum_defs.len() ==> enum_def_wf(#[trigger] self.enum_defs[i], self)
        &&& forall|i: int| 0 <= i < self.funs.len() ==> fun_cell_wf(#[trigger] self.funs[i], self)
        &&& forall|i: int| 0 <= i < self.chunks.len() ==> chunk_cell_wf(#[trigger] self.chunks[i], self)
    }

    /// True when `self` and `other` agree on everything but the intern
    /// table.
    pub open spec fn same_except_idents(self, other: ArenaM) -> bool {
        self == ArenaM { idents: self.idents, ..other }
    }

    /// True when `self` is the heap `a1` grown by zero or more cells:
    /// nothing a handle could already address has changed shape.  Immutable
    /// stores keep their cells; mutable cells (tuples, scopes, struct and
    /// enum storages, module and descriptor tables) keep their layout.
    pub open spec fn extends(self, a1: ArenaM) -> bool {
        &&& a1.strs.len() <= self.strs.len()
        &&& a1.idents.len() <= self.idents.len()
        &&& forall|i: int| 0 <= i < a1.idents.len() ==> self.idents[i] == a1.idents[i]
        &&& a1.tuples.len() <= self.tuples.len()
        &&& forall|i: int| 0 <= i < a1.tuples.len() ==> self.tuples[i].len() == a1.tuples[i].len()
        &&& a1.structs.len() <= self.structs.len()
        &&& forall|i: int|
            0 <= i < a1.structs.len() ==> (#[trigger] self.structs[i]).typ == a1.structs[i].typ
                && proto_shape_eq(self.structs[i].proto, a1.structs[i].proto)
        &&& a1.enums.len() <= self.enums.len()
        &&& forall|i: int|
            0 <= i < a1.enums.len() ==> (#[trigger] self.enums[i]).typ == a1.enums[i].typ && (
            #[trigger] self.enums[i]).variant == a1.enums[i].variant && proto_shape_eq(
                self.enums[i].proto,
                a1.enums[i].proto,
            )
        &&& a1.opts.len() <= self.opts.len()
        &&& a1.closures.len() <= self.closures.len()
        &&& forall|i: int| 0 <= i < a1.closures.len() ==> self.closures[i] == a1.closures[i]
        &&& a1.scopes.len() <= self.scopes.len()
        &&& forall|i: int| 0 <= i < a1.scopes.len() ==> self.scopes[i].len() == a1.scopes[i].len()
        &&& a1.captures.len() <= self.captures.len()
        &&& forall|i: int| 0 <= i < a1.captures.len() ==> self.captures[i] == a1.captures[i]
        &&& a1.modus.len() <= self.modus.len()
        &&& a1.struct_defs.len() <= self.struct_defs.len()
        &&& forall|i: int|
            0 <= i < a1.struct_defs.len() ==> (#[trigger] self.struct_defs[i]).proto
                == a1.struct_defs[i].proto
        &&& a1.enum_defs.len() <= self.enum_defs.len()
        &&& forall|i: int|
            0 <= i < a1.enum_defs.len() ==> (#[trigger] self.enum_defs[i]).variants
                == a1.enum_defs[i].variants
        &&& a1.funs.len() <= self.funs.len()
        &&& forall|i: int| 0 <= i < a1.funs.len() ==> self.funs[i] == a1.funs[i]
        &&& a1.chunks.len() <= self.chunks.len()
        &&& forall|i: int| 0 <= i < a1.chunks.len() ==> self.chunks[i] == a1.chunks[i]
        &&& a1.externals <= self.externals
    }
}

/// True when two field storages have the same shape: same kind, same length,
/// and for keyed storages the same keys in the same order.
pub open spec fn proto_shape_eq(p2: ProtoM, p1: ProtoM) -> bool {
    match (p2, p1) {
        (ProtoM::Tuple(f2), ProtoM::Tuple(f1)) => f2.len() == f1.len(),
        (ProtoM::Keyed(f2), ProtoM::Keyed(f1)) => {
            &&& f2.len() == f1.len()
            &&& forall|i: int| 0 <= i < f2.len() ==> (#[trigger] f2[i]).0 == f1[i].0
        },
        _ => false,
    }
}

impl ArenaM {
    /// True when `self` is `a1` with zero or more cells appended and nothing
    /// else touched: every store of `a1` is a content prefix of the matching
    /// store of `self`.
    pub open spec fn alloc_prefix(self, a1: ArenaM) -> bool {
        &&& a1.strs.len() <= self.strs.len()
        &&& forall|i: int| 0 <= i < a1.strs.len() ==> self.strs[i] == a1.strs[i]
        &&& a1.idents.len() <= self.idents.len()
        &&& forall|i: int| 0 <= i < a1.idents.len() ==> self.idents[i] == a1.idents[i]
        &&& a1.tuples.len() <= self.tuples.len()
        &&& forall|i: int| 0 <= i < a1.tuples.len() ==> self.tuples[i] == a1.tuples[i]
        &&& a1.structs.len() <= self.structs.len()
        &&& forall|i: int| 0 <= i < a1.structs.len() ==> self.structs[i] == a1.structs[i]
        &&& a1.enums.len() <= self.enums.len()
        &&& forall|i: int| 0 <= i < a1.enums.len() ==> self.enums[i] == a1.enums[i]
        &&& a1.opts.len() <= self.opts.len()
        &&& forall|i: int| 0 <= i < a1.opts.len() ==> self.opts[i] == a1.opts[i]
        &&& a1.closures.len() <= self.closures.len()
        &&& forall|i: int| 0 <= i < a1.closures.len() ==> self.closures[i] == a1.closures[i]
        &&& a1.scopes.len() <= self.scopes.len()
        &&& forall|i: int| 0 <= i < a1.scopes.len() ==> self.scopes[i] == a1.scopes[i]
        &&& a1.captures.len() <= self.captures.len()
        &&& forall|i: int| 0 <= i < a1.captures.len() ==> self.captures[i] == a1.captures[i]
        &&& a1.modus.len() <= self.modus.len()
        &&& forall|i: int| 0 <= i < a1.modus.len() ==> self.modus[i] == a1.modus[i]
        &&& a1.struct_defs.len() <= self.struct_defs.len()
        &&& forall|i: int| 0 <= i < a1.struct_defs.len() ==> self.struct_defs[i] == a1.struct_defs[i]
        &&& a1.enum_defs.len() <= self.enum_defs.len()
        &&& forall|i: int| 0 <= i < a1.enum_defs.len() ==> self.enum_defs[i] == a1.enum_defs[i]
        &&& a1.funs.len() <= self.funs.len()
        &&& forall|i: int| 0 <= i < a1.funs.len() ==> self.funs[i] == a1.funs[i]
        &&& a1.chunks.len() <= self.chunks.len()
        &&& forall|i: int| 0 <= i < a1.chunks.len() ==> self.chunks[i] == a1.chunks[i]
        &&& a1.externals <= self.externals
    }
}

/// Appending cells is one way of growing the heap.
pub proof fn lemma_alloc_prefix_extends(a2: ArenaM, a1: ArenaM)
    requires
        a2.alloc_prefix(a1),
    ensures
        a2.extends(a1),
{
    assert forall|i: int| 0 <= i < a1.structs.len() implies (#[trigger] a2.structs[i]).typ
        == a1.structs[i].typ && proto_shape_eq(a2.structs[i].proto, a1.structs[i].proto) by {
        assert(a2.structs[i] == a1.structs[i]);
    }
    assert forall|i: int| 0 <= i < a1.enums.len() implies (#[trigger] a2.enums[i]).typ
        == a1.enums[i].typ && (#[trigger] a2.enums[i]).variant == a1.enums[i].variant
        && proto_shape_eq(a2.enums[i].proto, a1.enums[i].proto) by {
        assert(a2.enums[i] == a1.enums[i]);
    }
}

/// Appending well-formed cells to a well-formed heap leaves it well formed.
pub proof fn lemma_wf_alloc(a1: ArenaM, a2: ArenaM)
    requires
        a1.wf(),
        a2.alloc_prefix(a1),
        forall|i: int, j: int|
            a1.idents.len() <= i < a2.idents.len() && 0 <= j < i ==> a2.idents[j] != a2.idents[i],
        forall|i: int|
            a1.tuples.len() <= i < a2.tuples.len() ==> values_wf(#[trigger] a2.tuples[i], a2),
        forall|i: int|
            a1.structs.len() <= i < a2.structs.len() ==> struct_cell_wf(#[trigger] a2.structs[i], a2),
        forall|i: int|
            a1.enums.len() <= i < a2.enums.len() ==> enum_cell_wf(#[trigger] a2.enums[i], a2),
        forall|i: int| a1.opts.len() <= i < a2.opts.len() ==> opt_cell_wf(#[trigger] a2.opts[i], a2),
        forall|i: int|
            a1.closures.len() <= i < a2.closures.len() ==> closure_cell_wf(
                #[trigger] a2.closures[i],
                a2,
            ),
        forall|i: int|
            a1.scopes.len() <= i < a2.scopes.len() ==> values_wf(#[trigger] a2.scopes[i], a2),
        forall|i: int|
            a1.captures.len() <= i < a2.captures.len() ==> capture_wf(#[trigger] a2.captures[i], a2),
        forall|i: int|
            a1.modus.len() <= i < a2.modus.len() ==> modu_cell_wf(#[trigger] a2.modus[i], a2),
        forall|i: int|
            a1.struct_defs.len() <= i < a2.struct_defs.len() ==> struct_def_wf(
                #[trigger] a2.struct_defs[i],
                a2,
            ),
        forall|i: int|
            a1.enum_defs.len() <= i < a2.enum_defs.len() ==> enum_def_wf(
                #[trigger] a2.enum_defs[i],
                a2,
            ),
        forall|i: int| a1.funs.len() <= i < a2.funs.len() ==> fun_cell_wf(#[trigger] a2.funs[i], a2),
        forall|i: int|
            a1.chunks.len() <= i < a2.chunks.len() ==> chunk_cell_wf(#[trigger] a2.chunks[i], a2),
    ensures
        a2.wf(),
{
    lemma_alloc_prefix_extends(a2, a1);
    assert forall|i: int, j: int|
        0 <= i < a2.idents.len() && 0 <= j < a2.idents.len() && i != j implies a2.idents[i]
        != a2.idents[j] by {
        if i < a1.idents.len() && j < a1.idents.len() {
        } else if j < i {
        } else {
        }
    }
    assert forall|i: int| 0 <= i < a2.tuples.len() implies values_wf(
        #[trigger] a2.tuples[i],
        a2,
    ) by {
        if i < a1.tuples.len() {
            assert(values_wf(a1.tuples[i], a1));
            assert forall|k: int| 0 <= k < a2.tuples[i].len() implies (
            #[trigger] a2.tuples[i][k]).wf(a2) by {
                assert(a1.tuples[i][k].wf(a1));
            }
        }
    }
    assert forall|i: int| 0 <= i < a2.structs.len() implies struct_cell_wf(
        #[trigger] a2.structs[i],
        a2,
    ) by {
        if i < a1.structs.len() {
            assert(struct_cell_wf(a1.structs[i], a1));
            assert(a2.struct_defs[a1.structs[i].typ.id as int].proto == a1.struct_defs[a1.structs[i].typ.id as int].proto);
            lemma_proto_values_wf_extends(a1.structs[i].proto, a1, a2);
        }
    }
    assert forall|i: int| 0 <= i < a2.enums.len() implies enum_cell_wf(
        #[trigger] a2.enums[i],
        a2,
    ) by {
        if i < a1.enums.len() {
            assert(enum_cell_wf(a1.enums[i], a1));
            assert(a2.enum_defs[a1.enums[i].typ.id as int].variants == a1.enum_defs[a1.enums[i].typ.id as int].variants);
            lemma_proto_values_wf_extends(a1.enums[i].proto, a1, a2);
        }
    }
    assert forall|i: int| 0 <= i < a2.opts.len() implies opt_cell_wf(#[trigger] a2.opts[i], a2) by {
        if i < a1.opts.len() {
            assert(opt_cell_wf(a1.opts[i], a1));
        }
    }
    assert forall|i: int| 0 <= i < a2.scopes.len() implies values_wf(
        #[trigger] a2.scopes[i],
        a2,
    ) by {
        if i < a1.scopes.len() {
            assert(values_wf(a1.scopes[i], a1));
            assert forall|k: int| 0 <= k < a2.scopes[i].len() implies (
            #[trigger] a2.scopes[i][k]).wf(a2) by {
                assert(a1.scopes[i][k].wf(a1));
            }
        }
    }
    assert forall|i: int| 0 <= i < a2.captures.len() implies capture_wf(
        #[trigger] a2.captures[i],
        a2,
    ) by {
        if i < a1.captures.len() {
            assert(capture_wf(a1.captures[i], a1));
            assert(a2.scopes[a1.captures[i].scope.id as int].len() == a1.scopes[a1.captures[i].scope.id as int].len());
        }
    }
    assert forall|i: int| 0 <= i < a2.modus.len() implies modu_cell_wf(
        #[trigger] a2.modus[i],
        a2,
    ) by {
        if i < a1.modus.len() {
            assert(modu_cell_wf(a1.modus[i], a1));
        }
    }
    assert forall|i: int| 0 <= i < a2.struct_defs.len() implies struct_def_wf(
        #[trigger] a2.struct_defs[i],
        a2,
    ) by {
        if i < a1.struct_defs.len() {
            assert(struct_def_wf(a1.struct_defs[i], a1));
        }
    }
    assert forall|i: int| 0 <= i < a2.enum_defs.len() implies enum_def_wf(
        #[trigger] a2.enum_defs[i],
        a2,
    ) by {
        if i < a1.enum_defs.len() {
            assert(enum_def_wf(a1.enum_defs[i], a1));
        }
    }
    assert forall|i: int| 0 <= i < a2.chunks.len() implies chunk_cell_wf(
        #[trigger] a2.chunks[i],
        a2,
    ) by {
        if i < a1.chunks.len() {
            assert(chunk_cell_wf(a1.chunks[i], a1));
            assert forall|k: int| 0 <= k < a2.chunks[i].instrs.len() implies (
            #[trigger] a2.chunks[i].instrs[k]).wf(a2) by {
                assert(a1.chunks[i].instrs[k].wf(a1));
            }
        }
    }
}

/// Growing the heap keeps the contents of a field storage well formed.
pub proof fn lemma_proto_values_wf_extends(p: ProtoM, a1: ArenaM, a2: ArenaM)
    requires
        proto_values_wf(p, a1),
        a2.extends(a1),
    ensures
        proto_values_wf(p, a2),
{
}

/// Writing a well-formed value into one slot of one scope keeps the heap
/// well formed; nothing else changes.
pub proof fn lemma_wf_scope_set(a1: ArenaM, a2: ArenaM, sid: int, var: int, v: Value)
    requires
        a1.wf(),
        0 <= sid < a1.scopes.len(),
        0 <= var < a1.scopes[sid].len(),
        v.wf(a1),
        a2 == (ArenaM { scopes: a1.scopes.update(sid, a1.scopes[sid].update(var, v)), ..a1 }),
    ensures
        a2.wf(),
        a2.extends(a1),
{
    assert forall|i: int| 0 <= i < a2.scopes.len() implies values_wf(
        #[trigger] a2.scopes[i],
        a2,
    ) by {
        assert(values_wf(a1.scopes[i], a1));
        assert forall|k: int| 0 <= k < a2.scopes[i].len() implies (#[trigger] a2.scopes[i][k]).wf(
            a2,
        ) by {
            if i == sid && k == var {
            } else {
                assert(a2.scopes[i][k] == a1.scopes[i][k]);
                assert(a1.scopes[i][k].wf(a1));
            }
        }
    }
    assert forall|i: int| 0 <= i < a2.captures.len() implies capture_wf(
        #[trigger] a2.captures[i],
        a2,
    ) by {
        assert(capture_wf(a1.captures[i], a1));
        assert(a2.scopes[a1.captures[i].scope.id as int].len() == a1.scopes[a1.captures[i].scope.id as int].len());
    }
    assert forall|i: int| 0 <= i < a2.structs.len() implies struct_cell_wf(
        #[trigger] a2.structs[i],
        a2,
    ) by {
        assert(struct_cell_wf(a1.structs[i], a1));
    }
    assert forall|i: int| 0 <= i < a2.enums.len() implies enum_cell_wf(
        #[trigger] a2.enums[i],
        a2,
    ) by {
        assert(enum_cell_wf(a1.enums[i], a1));
    }
}

/// Replacing one module cell with a well-formed one keeps the heap well
/// formed; nothing else changes.
pub proof fn lemma_wf_modu_update(a1: ArenaM, a2: ArenaM, mid: int, m2: ModuM)
    requires
        a1.wf(),
        0 <= mid < a1.modus.len(),
        a2 == (ArenaM { modus: a1.modus.update(mid, m2), ..a1 }),
        modu_cell_wf(m2, a2),
    ensures
        a2.wf(),
        a2.extends(a1),
{
    assert forall|i: int| 0 <= i < a2.structs.len() implies struct_cell_wf(
        #[trigger] a2.structs[i],
        a2,
    ) by {
        assert(struct_cell_wf(a1.structs[i], a1));
    }
    assert forall|i: int| 0 <= i < a2.enums.len() implies enum_cell_wf(
        #[trigger] a2.enums[i],
        a2,
    ) by {
        assert(enum_cell_wf(a1.enums[i], a1));
    }
    assert forall|i: int| 0 <= i < a2.modus.len() implies modu_cell_wf(
        #[trigger] a2.modus[i],
        a2,
    ) by {
        if i != mid {
            assert(a2.modus[i] == a1.modus[i]);
            assert(modu_cell_wf(a1.modus[i], a1));
        }
    }
}



/// Replacing one struct-value cell with a well-formed one of the same
/// descriptor and layout shape keeps the heap well formed.
pub proof fn lemma_wf_struct_cell_update(a1: ArenaM, a2: ArenaM, sid: int, c2: StructCellM)
    requires
        a1.wf(),
        0 <= sid < a1.structs.len(),
        c2.typ == a1.structs[sid].typ,
        proto_shape_eq(c2.proto, a1.structs[sid].proto),
        a2 == (ArenaM { structs: a1.structs.update(sid, c2), ..a1 }),
        proto_values_wf(c2.proto, a2),
    ensures
        a2.wf(),
        a2.extends(a1),
{
    assert forall|i: int| 0 <= i < a2.structs.len() implies struct_cell_wf(
        #[trigger] a2.structs[i],
        a2,
    ) by {
        assert(struct_cell_wf(a1.structs[i], a1));
        if i == sid {
            assert(layout_match(c2.proto, a2.struct_defs[c2.typ.id as int].proto)) by {
                match (c2.proto, a1.structs[sid].proto, a2.struct_defs[c2.typ.id as int].proto) {
                    (ProtoM::Keyed(f2), ProtoM::Keyed(f1), DefProtoM::Keyed(keys)) => {
                        assert(forall|j: int| 0 <= j < f2.len() ==> (#[trigger] f2[j]).0 == f1[j].0
                            && f1[j].0 == keys[j]);
                    },
                    _ => {},
                }
            }
        }
    }
    assert forall|i: int| 0 <= i < a2.enums.len() implies enum_cell_wf(
        #[trigger] a2.enums[i],
        a2,
    ) by {
        assert(enum_cell_wf(a1.enums[i], a1));
    }
}

/// Replacing one enum-value cell with a well-formed one of the same
/// descriptor, variant and layout shape keeps the heap well formed.
pub proof fn lemma_wf_enum_cell_update(a1: ArenaM, a2: ArenaM, eid: int, c2: EnumCellM)
    requires
        a1.wf(),
        0 <= eid < a1.enums.len(),
        c2.typ == a1.enums[eid].typ,
        c2.variant == a1.enums[eid].variant,
        proto_shape_eq(c2.proto, a1.enums[eid].proto),
        a2 == (ArenaM { enums: a1.enums.update(eid, c2), ..a1 }),
        proto_values_wf(c2.proto, a2),
    ensures
        a2.wf(),
        a2.extends(a1),
{
    assert forall|i: int| 0 <= i < a2.structs.len() implies struct_cell_wf(
        #[trigger] a2.structs[i],
        a2,
    ) by {
        assert(struct_cell_wf(a1.structs[i], a1));
    }
    assert forall|i: int| 0 <= i < a2.enums.len() implies enum_cell_wf(
        #[trigger] a2.enums[i],
        a2,
    ) by {
        assert(enum_cell_wf(a1.enums[i], a1));
        if i == eid {
            let dproto = a2.enum_defs[c2.typ.id as int].variants[c2.variant as int].proto;
            assert(layout_match(c2.proto, dproto)) by {
                match (c2.proto, a1.enums[eid].proto, dproto) {
                    (ProtoM::Keyed(f2), ProtoM::Keyed(f1), DefProtoM::Keyed(keys)) => {
                        assert(forall|j: int| 0 <= j < f2.len() ==> (#[trigger] f2[j]).0 == f1[j].0
                            && f1[j].0 == keys[j]);
                    },
                    _ => {},
                }
            }
        }
    }
}

/// Replacing one tuple cell with equally many well-formed values keeps the
/// heap well formed.
pub proof fn lemma_wf_tuple_update(a1: ArenaM, a2: ArenaM, tid: int, fs2: Seq<Value>)
    requires
        a1.wf(),
        0 <= tid < a1.tuples.len(),
        fs2.len() == a1.tuples[tid].len(),
        values_wf(fs2, a2),
        a2 == (ArenaM { tuples: a1.tuples.update(tid, fs2), ..a1 }),
    ensures
        a2.wf(),
        a2.extends(a1),
{
    assert forall|i: int| 0 <= i < a2.tuples.len() implies values_wf(
        #[trigger] a2.tuples[i],
        a2,
    ) by {
        if i != tid {
            assert(values_wf(a1.tuples[i], a1));
        }
    }
    assert forall|i: int| 0 <= i < a2.structs.len() implies struct_cell_wf(
        #[trigger] a2.structs[i],
        a2,
    ) by {
        assert(struct_cell_wf(a1.structs[i], a1));
    }
    assert forall|i: int| 0 <= i < a2.enums.len() implies enum_cell_wf(
        #[trigger] a2.enums[i],
        a2,
    ) by {
        assert(enum_cell_wf(a1.enums[i], a1));
    }
}

/// Growing the heap keeps a well-formed value well formed.
pub proof fn lemma_value_wf_extends(v: Value, a1: ArenaM, a2: ArenaM)
    requires
        v.wf(a1),
        a2.extends(a1),
    ensures
        v.wf(a2),
{
}



/// `extends` is transitive.
pub proof fn lemma_extends_trans(a3: ArenaM, a2: ArenaM, a1: ArenaM)
    requires
        a3.extends(a2),
        a2.extends(a1),
    ensures
        a3.extends(a1),
{
}

impl Arena {
    /// The heap's invariant, on the executable type.
    pub open spec fn wf(&self) -> bool {
        self@.wf()
    }

    /// A fresh, empty heap.
    pub fn new() -> (r: Arena)
        ensures
            r.wf(),
            r@.strs.len() == 0,
            r@.idents.len() == 0,
            r@.tuples.len() == 0,
            r@.structs.len() == 0,
            r@.enums.len() == 0,
            r@.opts.len() == 0,
            r@.closures.len() == 0,
            r@.scopes.len() == 0,
            r@.captures.len() == 0,
            r@.modus.len() == 0,
            r@.struct_defs.len() == 0,
            r@.enum_defs.len() == 0,
            r@.funs.len() == 0,
            r@.chunks.len() == 0,
            r@.externals == 0,
    {
        Arena {
            strs: Vec::new(),
            idents: Vec::new(),
            tuples: Vec::new(),
            structs: Vec::new(),
            enums: Vec::new(),
            opts: Vec::new(),
            closures: Vec::new(),
            scopes: Vec::new(),
            captures: Vec::new(),
            modus: Vec::new(),
            struct_defs: Vec::new(),
            enum_defs: Vec::new(),
            funs: Vec::new(),
            chunks: Vec::new(),
            externals: 0,
        }
    }

    /// Interns `name`: the slot of the existing equal entry, or of a fresh
    /// one.  Equal names always yield equal slots because the table never
    /// holds a name twice.
    #[verifier::loop_isolation(false)]
    pub fn intern(&mut self, name: Vec<u8>) -> (i: usize)
        requires
            old(self).wf(),
        ensures
            final(self).wf(),
            final(self)@.same_except_idents(old(self)@),
            final(self)@.extends(old(self)@),
            i < final(self)@.idents.len(),
            final(self)@.idents[i as int] == name@,
            forall|j: int| 0 <= j < old(self)@.idents.len() ==> final(self)@.idents[j] == old(self)@.idents[j],
    {
        let n = self.idents.len();
        let mut k: usize = 0;
        while k < n
            invariant
                n == self.idents.len(),
                k <= n,
                forall|j: int| 0 <= j < k ==> self@.idents[j] != name@,
            decreases n - k,
        {
            let hit = {
                let existing = &self.idents[k];
                bytes_eq(existing, &name)
            };
            if hit {
                proof {
                    assert(self@.idents[k as int] == name@);
                }
                return k;
            }
            k += 1;
        }
        let ghost old_view = self@;
        self.idents.push(name);
        proof {
            assert(self@ =~~= ArenaM { idents: old_view.idents.push(name@), ..old_view });
            assert forall|i: int, j: int|
                0 <= i < self@.idents.len() && 0 <= j < self@.idents.len() && i
                    != j implies self@.idents[i] != self@.idents[j] by {
                if i < old_view.idents.len() && j < old_view.idents.len() {
                    assert(old_view.wf());
                }
            }
        }
        n
    }
}

/// Byte-vector equality, elementwise.
fn bytes_eq(a: &Vec<u8>, b: &Vec<u8>) -> (r: bool)
    ensures
        r <==> a@ == b@,
{
    if a.len() != b.len() {
        return false;
    }
    let n = a.len();
    let mut k: usize = 0;
    while k < n
        invariant
            n == a.len() == b.len(),
            k <= n,
            forall|j: int| 0 <= j < k ==> a@[j] == b@[j],
        decreases n - k,
    {
        if a[k] != b[k] {
            return false;
        }
        k += 1;
    }
    proof {
        assert(a@ =~= b@);
    }
    true
}

} // verus!
