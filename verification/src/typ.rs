//! Type descriptors: the compile-time shapes of user-defined types, shared by
//! every value that instantiates them.

use vstd::prelude::*;

use crate::arena::Arena;
use crate::arena::ArenaM;
use crate::error::Error;
use crate::fun::Fun;
use crate::ident::Ident;

verus! {

/// A type descriptor, either a struct or an enum shape.
#[derive(Clone, Copy, Debug, PartialEq, Eq, Structural)]
pub enum Typ {
    Struct(Struct),
    Enum(Enum),
}

/// Handle of a shared struct descriptor.
#[derive(Clone, Copy, Debug, PartialEq, Eq, Structural)]
pub struct Struct {
    pub id: usize,
}

/// Handle of a shared enum descriptor.
#[derive(Clone, Copy, Debug, PartialEq, Eq, Structural)]
pub struct Enum {
    pub id: usize,
}

/// Contents of a struct descriptor: its name, layout, and method table.
pub struct StructData {
    pub ident: Ident,
    pub proto: StructProto,
    pub funs: Vec<(Ident, Fun)>,
}

/// Contents of an enum descriptor: its name, the ordered variants, and the
/// method table.
pub struct EnumData {
    pub ident: Ident,
    pub variants: Vec<EnumVariant>,
    pub funs: Vec<(Ident, Fun)>,
}

/// One enum variant: its name and layout.
pub struct EnumVariant {
    pub ident: Ident,
    pub proto: StructProto,
}

/// A declared layout: a tuple of so many positional fields, or a fixed key
/// set.
pub enum StructProto {
    Tuple(u8),
    Keyed(MapData),
}

/// The fixed key set of a map layout.
pub struct MapData {
    pub fields: Vec<Ident>,
}

/// Mathematical model of a declared layout.
#[verifier::ext_equal]
pub ghost enum DefProtoM {
    Tuple(u8),
    Keyed(Seq<Ident>),
}

/// Mathematical model of a struct descriptor.
#[verifier::ext_equal]
pub ghost struct StructDefM {
    pub ident: Ident,
    pub proto: DefProtoM,
    pub funs: Seq<(Ident, Fun)>,
}

/// Mathematical model of one enum variant.
#[verifier::ext_equal]
pub ghost struct EnumVariantM {
    pub ident: Ident,
    pub proto: DefProtoM,
}

/// Mathematical model of an enum descriptor.
#[verifier::ext_equal]
pub ghost struct EnumDefM {
    pub ident: Ident,
    pub variants: Seq<EnumVariantM>,
    pub funs: Seq<(Ident, Fun)>,
}

impl View for StructProto {
    type V = DefProtoM;

    open spec fn view(&self) -> DefProtoM {
        match self {
            StructProto::Tuple(n) => DefProtoM::Tuple(*n),
            StructProto::Keyed(m) => DefProtoM::Keyed(m.fields@),
        }
    }
}

impl View for StructData {
    type V = StructDefM;

    open spec fn view(&self) -> StructDefM {
        StructDefM { ident: self.ident, proto: self.proto@, funs: self.funs@ }
    }
}

impl View for EnumVariant {
    type V = EnumVariantM;

    open spec fn view(&self) -> EnumVariantM {
        EnumVariantM { ident: self.ident, proto: self.proto@ }
    }
}

impl View for EnumData {
    type V = EnumDefM;

    open spec fn view(&self) -> EnumDefM {
        EnumDefM {
            ident: self.ident,
            variants: self.variants@.map_values(|v: EnumVariant| v@),
            funs: self.funs@,
        }
    }
}

impl MapData {
    /// The declared key set, in declared order.
    pub fn fields(&self) -> (r: &Vec<Ident>)
        ensures
            r@ == self@,
    {
        &self.fields
    }
}

impl Struct {
    /// A fresh struct descriptor named `ident` with the given layout; a
    /// keyed layout names each key once.
    pub fn new(arena: &mut Arena, ident: Ident, proto: StructProto) -> (r: Struct)
        requires
            old(arena).wf(),
            ident.wf(old(arena)@),
            crate::arena::def_proto_wf(proto@, old(arena)@),
        ensures
            final(arena).wf(),
            final(arena)@.extends(old(arena)@),
            final(arena)@ == (ArenaM {
                struct_defs: old(arena)@.struct_defs.push(
                    StructDefM { ident, proto: proto@, funs: Seq::empty() },
                ),
                ..old(arena)@
            }),
            r.id == old(arena)@.struct_defs.len(),
    {
        let ghost a1 = arena@;
        let ghost proto_view = proto@;
        let id = arena.struct_defs.len();
        arena.struct_defs.push(StructData { ident, proto, funs: Vec::new() });
        proof {
            assert(arena@ =~~= (ArenaM {
                struct_defs: a1.struct_defs.push(
                    StructDefM { ident, proto: proto_view, funs: Seq::empty() },
                ),
                ..a1
            }));
            crate::arena::lemma_wf_alloc(a1, arena@);
        }
        Struct { id }
    }

    /// The descriptor's declared layout.
    pub fn proto<'a>(&self, arena: &'a Arena) -> (r: &'a StructProto)
        requires
            self.id < arena@.struct_defs.len(),
        ensures
            r@ == arena@.struct_defs[self.id as int].proto,
    {
        &arena.struct_defs[self.id].proto
    }
}

impl Enum {
    /// A fresh enum descriptor named `ident` with the given ordered
    /// variants; each keyed variant layout names each key once.
    pub fn new(arena: &mut Arena, ident: Ident, variants: Vec<EnumVariant>) -> (r: Enum)
        requires
            old(arena).wf(),
            ident.wf(old(arena)@),
            forall|i: int|
                0 <= i < variants@.len() ==> (#[trigger] variants@[i]).ident.wf(old(arena)@)
                    && crate::arena::def_proto_wf(variants@[i].proto@, old(arena)@),
        ensures
            final(arena).wf(),
            final(arena)@.extends(old(arena)@),
            final(arena)@ == (ArenaM {
                enum_defs: old(arena)@.enum_defs.push(
                    EnumDefM {
                        ident,
                        variants: variants@.map_values(|v: EnumVariant| v@),
                        funs: Seq::empty(),
                    },
                ),
                ..old(arena)@
            }),
            r.id == old(arena)@.enum_defs.len(),
    {
        let ghost a1 = arena@;
        let ghost variants_view = variants@;
        let id = arena.enum_defs.len();
        arena.enum_defs.push(EnumData { ident, variants, funs: Vec::new() });
        proof {
            let cell = EnumDefM {
                ident,
                variants: variants_view.map_values(|v: EnumVariant| v@),
                funs: Seq::empty(),
            };
            assert(arena@ =~~= (ArenaM { enum_defs: a1.enum_defs.push(cell), ..a1 }));
            assert(crate::arena::enum_def_wf(cell, arena@)) by {
                assert forall|i: int| 0 <= i < cell.variants.len() implies (
                #[trigger] cell.variants[i]).ident.wf(arena@) && crate::arena::def_proto_wf(
                    cell.variants[i].proto,
                    arena@,
                ) by {
                    assert(cell.variants[i] == variants_view[i]@);
                }
            }
            crate::arena::lemma_wf_alloc(a1, arena@);
        }
        Enum { id }
    }
}

impl StructData {
    /// Inserts `fun` into the descriptor's method table under `ident`,
    /// replacing any prior entry.
    pub fn define_fun(&mut self, ident: Ident, fun: Fun)
        requires
            crate::modu::keys_unique(old(self).funs@),
        ensures
            final(self).ident == old(self).ident,
            final(self).proto@ == old(self).proto@,
            crate::modu::keys_unique(final(self).funs@),
            forall|k2: Ident| #[trigger]
                crate::modu::assoc_get(final(self).funs@, k2) == if k2 == ident {
                    Some(fun)
                } else {
                    crate::modu::assoc_get(old(self).funs@, k2)
                },
            forall|i: int|
                0 <= i < final(self).funs@.len() ==> #[trigger] final(self).funs@[i] == (ident, fun)
                    || (i < old(self).funs@.len() && final(self).funs@[i] == old(self).funs@[i]),
    {
        crate::modu::assoc_put(&mut self.funs, ident, fun);
    }

    /// The method under `ident`, or `FunctionNotFound` when the table has no
    /// such entry.
    pub fn fun(&self, ident: Ident) -> (r: Result<Fun, Error>)
        ensures
            r == match crate::modu::assoc_get(self.funs@, ident) {
                Some(f) => Ok::<Fun, Error>(f),
                None => Err::<Fun, Error>(Error::FunctionNotFound { ident }),
            },
    {
        match crate::modu::assoc_find(&self.funs, ident) {
            Some(fun) => Ok(fun),
            None => Err(Error::FunctionNotFound { ident }),
        }
    }
}

impl EnumData {
    /// Inserts `fun` into the descriptor's method table under `ident`,
    /// replacing any prior entry.
    pub fn define_fun(&mut self, ident: Ident, fun: Fun)
        requires
            crate::modu::keys_unique(old(self).funs@),
        ensures
            final(self).ident == old(self).ident,
            final(self).variants@.map_values(|v: EnumVariant| v@) == old(self).variants@.map_values(|v: EnumVariant| v@),
            crate::modu::keys_unique(final(self).funs@),
            forall|k2: Ident| #[trigger]
                crate::modu::assoc_get(final(self).funs@, k2) == if k2 == ident {
                    Some(fun)
                } else {
                    crate::modu::assoc_get(old(self).funs@, k2)
                },
            forall|i: int|
                0 <= i < final(self).funs@.len() ==> #[trigger] final(self).funs@[i] == (ident, fun)
                    || (i < old(self).funs@.len() && final(self).funs@[i] == old(self).funs@[i]),
    {
        crate::modu::assoc_put(&mut self.funs, ident, fun);
    }

    /// The method under `ident`, or `FunctionNotFound` when the table has no
    /// such entry.
    pub fn fun(&self, ident: Ident) -> (r: Result<Fun, Error>)
        ensures
            r == match crate::modu::assoc_get(self.funs@, ident) {
                Some(f) => Ok::<Fun, Error>(f),
                None => Err::<Fun, Error>(Error::FunctionNotFound { ident }),
            },
    {
        match crate::modu::assoc_find(&self.funs, ident) {
            Some(fun) => Ok(fun),
            None => Err(Error::FunctionNotFound { ident }),
        }
    }
}

impl View for MapData {
    type V = Seq<Ident>;

    open spec fn view(&self) -> Seq<Ident> {
        self.fields@
    }
}

} // verus!
