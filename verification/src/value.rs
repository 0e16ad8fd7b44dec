//! The runtime value model: primitives plus heap-backed compound values.
//!
//! Compound values are arena cells addressed by copyable handles; equality on
//! them is identity equality (two distinct allocations are unequal even with
//! equal contents), while primitives compare by value.  A float is carried as
//! the raw bit pattern of an IEEE-754 double, so float equality here is
//! bit-pattern identity; the arithmetic on those bits is the driver's job
//! (see `engine::machine`).

use vstd::prelude::*;

use crate::arena::Arena;
use crate::arena::ArenaM;
use crate::engine::frame::CapturedScope;
use crate::error::Error;
use crate::error::TypeKind;
use crate::fun::Fun;
use crate::ident::Ident;
use crate::modu::assoc_get;
use crate::typ;

verus! {

/// A runtime datum: the data user programs manipulate.
#[derive(Clone, Copy, Debug, PartialEq, Eq, Structural)]
pub enum Value {
    Boolean(bool),
    Integer(i64),
    /// The bit pattern of an IEEE-754 double.
    Float(u64),
    Str(Str),
    Tuple(Tuple),
    Struct(Struct),
    Enum(Enum),
    Opt(Opt),
    Closure(Closure),
}

/// Handle of a shared string buffer.
#[derive(Clone, Copy, Debug, PartialEq, Eq, Structural)]
pub struct Str {
    pub id: usize,
}

/// Handle of a shared tuple cell.
#[derive(Clone, Copy, Debug, PartialEq, Eq, Structural)]
pub struct Tuple {
    pub id: usize,
}

/// Handle of a shared struct-value cell.
#[derive(Clone, Copy, Debug, PartialEq, Eq, Structural)]
pub struct Struct {
    pub id: usize,
}

/// Handle of a shared enum-value cell.
#[derive(Clone, Copy, Debug, PartialEq, Eq, Structural)]
pub struct Enum {
    pub id: usize,
}

/// Handle of a shared optional-value cell.
#[derive(Clone, Copy, Debug, PartialEq, Eq, Structural)]
pub struct Opt {
    pub id: usize,
}

/// Handle of a shared closure cell.
#[derive(Clone, Copy, Debug, PartialEq, Eq, Structural)]
pub struct Closure {
    pub id: usize,
}

/// Contents of a tuple cell: a fixed-length vector of values.
pub struct TupleData {
    pub fields: Vec<Value>,
}

/// Contents of a struct-value cell: the descriptor it instantiates and the
/// field storage in the descriptor's layout.
pub struct StructData {
    pub typ: typ::Struct,
    pub proto: StructProto,
}

/// Contents of an enum-value cell: the descriptor, the variant index, and the
/// field storage of that variant.
pub struct EnumData {
    pub typ: typ::Enum,
    pub variant: u8,
    pub proto: StructProto,
}

/// Field storage of a struct or enum value: positional or keyed.
pub enum StructProto {
    Tuple(TupleData),
    Keyed(MapData),
}

/// Keyed field storage; the keys equal the declared key set, in declared
/// order.
pub struct MapData {
    pub fields: Vec<(Ident, Value)>,
}

/// Contents of an optional-value cell: the some/none states.
pub enum OptionData {
    Present(Value),
    Absent,
}

/// Contents of a closure cell: a function paired with the captured-scope
/// chain its body may address.
#[derive(Clone, Copy, Debug, PartialEq, Eq, Structural)]
pub struct ClosureData {
    pub fun: Fun,
    pub captured_scope: CapturedScope,
}

/// Mathematical model of a field storage.
#[verifier::ext_equal]
pub ghost enum ProtoM {
    Tuple(Seq<Value>),
    Keyed(Seq<(Ident, Value)>),
}

/// Mathematical model of a struct-value cell.
#[verifier::ext_equal]
pub ghost struct StructCellM {
    pub typ: typ::Struct,
    pub proto: ProtoM,
}

/// Mathematical model of an enum-value cell.
#[verifier::ext_equal]
pub ghost struct EnumCellM {
    pub typ: typ::Enum,
    pub variant: u8,
    pub proto: ProtoM,
}

impl View for StructProto {
    type V = ProtoM;

    open spec fn view(&self) -> ProtoM {
        match self {
            StructProto::Tuple(t) => ProtoM::Tuple(t.fields@),
            StructProto::Keyed(m) => ProtoM::Keyed(m.fields@),
        }
    }
}

impl View for StructData {
    type V = StructCellM;

    open spec fn view(&self) -> StructCellM {
        StructCellM { typ: self.typ, proto: self.proto@ }
    }
}

impl View for EnumData {
    type V = EnumCellM;

    open spec fn view(&self) -> EnumCellM {
        EnumCellM { typ: self.typ, variant: self.variant, proto: self.proto@ }
    }
}

/// The first declared key that the provided fields leave unfilled, in
/// declared order.
pub open spec fn first_missing(keys: Seq<Ident>, provided: Seq<(Ident, Value)>) -> Option<Ident>
    decreases keys.len(),
{
    if keys.len() == 0 {
        None
    } else if assoc_get(provided, keys[0]) is None {
        Some(keys[0])
    } else {
        first_missing(keys.subrange(1, keys.len() as int), provided)
    }
}

/// The first provided key that the layout does not declare, in provided
/// order.
pub open spec fn first_extra(provided: Seq<(Ident, Value)>, keys: Seq<Ident>) -> Option<Ident>
    decreases provided.len(),
{
    if provided.len() == 0 {
        None
    } else if !keys.contains(provided[0].0) {
        Some(provided[0].0)
    } else {
        first_extra(provided.subrange(1, provided.len() as int), keys)
    }
}

/// The keyed storage a successful construction builds: the declared keys in
/// declared order, each with its provided value.
pub open spec fn keyed_storage(keys: Seq<Ident>, provided: Seq<(Ident, Value)>) -> Seq<
    (Ident, Value),
> {
    Seq::new(
        keys.len(),
        |i: int|
            (
                keys[i],
                match assoc_get(provided, keys[i]) {
                    Some(v) => v,
                    None => Value::Boolean(false),
                },
            ),
    )
}

/// When no declared key is missing, every declared key has a provided value.
pub proof fn lemma_first_missing_none(keys: Seq<Ident>, provided: Seq<(Ident, Value)>)
    requires
        first_missing(keys, provided) is None,
    ensures
        forall|i: int| 0 <= i < keys.len() ==> assoc_get(provided, #[trigger] keys[i]) is Some,
    decreases keys.len(),
{
    if keys.len() > 0 {
        lemma_first_missing_none(keys.subrange(1, keys.len() as int), provided);
        assert forall|i: int| 0 <= i < keys.len() implies assoc_get(
            provided,
            #[trigger] keys[i],
        ) is Some by {
            if i > 0 {
                assert(keys.subrange(1, keys.len() as int)[i - 1] == keys[i]);
            }
        }
    }
}

/// True when the identifier is in `keys`.
fn ident_in(keys: &Vec<Ident>, key: Ident) -> (r: bool)
    ensures
        r == keys@.contains(key),
{
    let n = keys.len();
    let mut k: usize = 0;
    while k < n
        invariant
            k <= n,
            n == keys@.len(),
            forall|j: int| 0 <= j < k ==> keys@[j] != key,
        decreases n - k,
    {
        if keys[k] == key {
            return true;
        }
        k += 1;
    }
    false
}

impl TupleData {
    /// Writes `value` into positional field `field`; `InvalidField` past the
    /// end, with nothing changed.
    pub fn set_field(&mut self, field: u8, value: Value) -> (r: Result<(), Error>)
        ensures
            if (field as int) < old(self).fields@.len() {
                r == Ok::<(), Error>(()) && final(self).fields@ == old(self).fields@.update(
                    field as int,
                    value,
                )
            } else {
                r == Err::<(), Error>(Error::InvalidField { ident: Ident::Number(field) }) && final(self).fields@ == old(self).fields@
            },
    {
        if (field as usize) < self.fields.len() {
            self.fields.set(field as usize, value);
            Ok(())
        } else {
            Err(Error::InvalidField { ident: Ident::Number(field) })
        }
    }

    /// Reads positional field `field`; `InvalidField` past the end.
    pub fn field(&self, field: u8) -> (r: Result<Value, Error>)
        ensures
            r == if (field as int) < self.fields@.len() {
                Ok::<Value, Error>(self.fields@[field as int])
            } else {
                Err::<Value, Error>(Error::InvalidField { ident: Ident::Number(field) })
            },
    {
        if (field as usize) < self.fields.len() {
            Ok(self.fields[field as usize])
        } else {
            Err(Error::InvalidField { ident: Ident::Number(field) })
        }
    }
}

impl MapData {
    /// Writes `value` under the declared key `field`; `InvalidField` for a
    /// key outside the declared layout — keys are never added.
    pub fn set_field(&mut self, field: Ident, value: Value) -> (r: Result<(), Error>)
        requires
            crate::modu::keys_unique(old(self).fields@),
        ensures
            match assoc_get(old(self).fields@, field) {
                Some(_) => {
                    &&& r == Ok::<(), Error>(())
                    &&& final(self).fields@.len() == old(self).fields@.len()
                    &&& forall|j: int|
                        0 <= j < final(self).fields@.len() ==> (#[trigger] final(self).fields@[j]).0 == old(self).fields@[j].0
                    &&& forall|k2: Ident| #[trigger]
                        assoc_get(final(self).fields@, k2) == if k2 == field {
                            Some(value)
                        } else {
                            assoc_get(old(self).fields@, k2)
                        }
                    &&& forall|j: int|
                        0 <= j < final(self).fields@.len() ==> #[trigger] final(self).fields@[j]
                            == (field, value) || final(self).fields@[j] == old(self).fields@[j]
                },
                None => r == Err::<(), Error>(Error::InvalidField { ident: field }) && final(self).fields@ == old(self).fields@,
            },
    {
        match crate::modu::assoc_index(&self.fields, field) {
            Some(i) => {
                proof {
                    crate::modu::lemma_assoc_get_at(self.fields@, i as int, field);
                    crate::modu::lemma_assoc_get_update(self.fields@, i as int, field, value);
                }
                self.fields.set(i, (field, value));
                Ok(())
            },
            None => {
                proof {
                    crate::modu::lemma_assoc_get_missing(self.fields@, field);
                }
                Err(Error::InvalidField { ident: field })
            },
        }
    }

    /// Reads the value under the declared key `field`; `InvalidField` for a
    /// key outside the declared layout.
    pub fn field(&self, field: Ident) -> (r: Result<Value, Error>)
        ensures
            r == match assoc_get(self.fields@, field) {
                Some(v) => Ok::<Value, Error>(v),
                None => Err::<Value, Error>(Error::InvalidField { ident: field }),
            },
    {
        match crate::modu::assoc_find(&self.fields, field) {
            Some(v) => Ok(v),
            None => Err(Error::InvalidField { ident: field }),
        }
    }
}

impl StructProto {
    /// Positional storage for a tuple layout of arity `num_fields`:
    /// `MissingField` when too few fields are provided, `InvalidField` when
    /// too many.
    pub fn new_tuple(num_fields: u8, fields: Vec<Value>) -> (r: Result<StructProto, Error>)
        ensures
            if fields@.len() < num_fields as int {
                r == Err::<StructProto, Error>(
                    Error::MissingField { ident: Ident::Number(fields@.len() as u8) },
                )
            } else if fields@.len() > num_fields as int {
                r == Err::<StructProto, Error>(
                    Error::InvalidField { ident: Ident::Number(num_fields) },
                )
            } else {
                r matches Ok(p) && p@ == ProtoM::Tuple(fields@)
            },
    {
        let len = fields.len();
        if len < num_fields as usize {
            Err(Error::MissingField { ident: Ident::Number(#[verifier::truncate] (len as u8)) })
        } else if len > num_fields as usize {
            Err(Error::InvalidField { ident: Ident::Number(num_fields) })
        } else {
            Ok(StructProto::Tuple(TupleData { fields }))
        }
    }

    /// Keyed storage for a map layout: `MissingField` names the first
    /// declared key not provided, then `InvalidField` names the first
    /// provided key not declared; otherwise the storage holds the declared
    /// keys in declared order with their provided values.
    #[verifier::loop_isolation(false)]
    pub fn new_map(map_data: &crate::typ::MapData, fields: Vec<(Ident, Value)>) -> (r: Result<
        StructProto,
        Error,
    >)
        requires
            crate::modu::keys_unique(fields@),
        ensures
            match first_missing(map_data@, fields@) {
                Some(k) => r == Err::<StructProto, Error>(Error::MissingField { ident: k }),
                None => match first_extra(fields@, map_data@) {
                    Some(k) => r == Err::<StructProto, Error>(Error::InvalidField { ident: k }),
                    None => r matches Ok(p) && p@ == ProtoM::Keyed(
                        keyed_storage(map_data@, fields@),
                    ),
                },
            },
    {
        let keys = &map_data.fields;
        let kn = keys.len();
        let mut k: usize = 0;
        proof {
            assert(map_data@.subrange(0, kn as int) =~= map_data@);
        }
        while k < kn
            invariant
                k <= kn,
                kn == keys@.len(),
                first_missing(map_data@, fields@) == first_missing(
                    keys@.subrange(k as int, kn as int),
                    fields@,
                ),
            decreases kn - k,
        {
            let key = keys[k];
            proof {
                assert(keys@.subrange(k as int, kn as int)[0] == key);
                assert(keys@.subrange(k as int, kn as int).subrange(
                    1,
                    (kn - k) as int,
                ) =~= keys@.subrange(k as int + 1, kn as int));
            }
            match crate::modu::assoc_index(&fields, key) {
                Some(i) => {
                    proof {
                        crate::modu::lemma_assoc_get_at(fields@, i as int, key);
                    }
                },
                None => {
                    proof {
                        crate::modu::lemma_assoc_get_missing(fields@, key);
                    }
                    return Err(Error::MissingField { ident: key });
                },
            }
            k += 1;
        }
        proof {
            assert(keys@.subrange(kn as int, kn as int) =~= Seq::<Ident>::empty());
            assert(first_missing(map_data@, fields@) is None);
        }
        let provided_len = fields.len();
        let mut j: usize = 0;
        proof {
            assert(fields@.subrange(0, provided_len as int) =~= fields@);
        }
        while j < provided_len
            invariant
                j <= provided_len,
                provided_len == fields@.len(),
                first_extra(fields@, map_data@) == first_extra(
                    fields@.subrange(j as int, provided_len as int),
                    map_data@,
                ),
            decreases provided_len - j,
        {
            let entry = fields[j];
            proof {
                assert(fields@.subrange(j as int, provided_len as int)[0] == entry);
                assert(fields@.subrange(j as int, provided_len as int).subrange(
                    1,
                    (provided_len - j) as int,
                ) =~= fields@.subrange(j as int + 1, provided_len as int));
            }
            if !ident_in(keys, entry.0) {
                return Err(Error::InvalidField { ident: entry.0 });
            }
            j += 1;
        }
        proof {
            assert(fields@.subrange(provided_len as int, provided_len as int) =~= Seq::<(Ident, Value)>::empty());
            assert(first_extra(fields@, map_data@) is None);
            lemma_first_missing_none(map_data@, fields@);
        }
        let mut storage: Vec<(Ident, Value)> = Vec::new();
        let mut k2: usize = 0;
        while k2 < kn
            invariant
                k2 <= kn,
                kn == keys@.len(),
                storage@.len() == k2,
                forall|i: int|
                    0 <= i < k2 ==> #[trigger] storage@[i] == keyed_storage(map_data@, fields@)[i],
                first_missing(map_data@, fields@) is None,
                crate::modu::keys_unique(fields@),
            decreases kn - k2,
        {
            let key = keys[k2];
            proof {
                lemma_first_missing_none(map_data@, fields@);
                assert(assoc_get(fields@, keys@[k2 as int]) is Some);
            }
            let v = match crate::modu::assoc_find(&fields, key) {
                Some(v) => v,
                None => {
                    proof {
                        assert(false);
                    }
                    Value::Boolean(false)
                },
            };
            storage.push((key, v));
            k2 += 1;
        }
        proof {
            assert(storage@ =~= keyed_storage(map_data@, fields@));
        }
        Ok(StructProto::Keyed(MapData { fields: storage }))
    }

    /// Writes positional field `field`; `InvalidField` past the end,
    /// `InvalidKind` on a keyed storage, with nothing changed.
    pub fn set_tuple_field(&mut self, field: u8, value: Value) -> (r: Result<(), Error>)
        ensures
            match old(self)@ {
                ProtoM::Tuple(fs) => if (field as int) < fs.len() {
                    r == Ok::<(), Error>(()) && final(self)@ == ProtoM::Tuple(
                        fs.update(field as int, value),
                    )
                } else {
                    r == Err::<(), Error>(Error::InvalidField { ident: Ident::Number(field) })
                        && final(self)@ == old(self)@
                },
                ProtoM::Keyed(_) => r == Err::<(), Error>(
                    Error::InvalidKind { expected: TypeKind::Tuple, received: TypeKind::Keyed },
                ) && final(self)@ == old(self)@,
            },
    {
        match self {
            StructProto::Tuple(tuple_data) => tuple_data.set_field(field, value),
            StructProto::Keyed(_) => Err(
                Error::InvalidKind { expected: TypeKind::Tuple, received: TypeKind::Keyed },
            ),
        }
    }

    /// Writes the value under the declared key `field`; `InvalidField` for
    /// an undeclared key, `InvalidKind` on a positional storage, with
    /// nothing changed.
    pub fn set_map_field(&mut self, field: Ident, value: Value) -> (r: Result<(), Error>)
        requires
            old(self)@ matches ProtoM::Keyed(fs) ==> crate::modu::keys_unique(fs),
        ensures
            match old(self)@ {
                ProtoM::Tuple(_) => r == Err::<(), Error>(
                    Error::InvalidKind { expected: TypeKind::Keyed, received: TypeKind::Tuple },
                ) && final(self)@ == old(self)@,
                ProtoM::Keyed(fs) => match assoc_get(fs, field) {
                    Some(_) => {
                        &&& r == Ok::<(), Error>(())
                        &&& final(self)@ matches ProtoM::Keyed(fs2) && fs2.len() == fs.len() && (
                        forall|j: int| 0 <= j < fs2.len() ==> (#[trigger] fs2[j]).0 == fs[j].0) && (
                        forall|k2: Ident| #[trigger]
                            assoc_get(fs2, k2) == if k2 == field {
                                Some(value)
                            } else {
                                assoc_get(fs, k2)
                            }) && (forall|j: int|
                            0 <= j < fs2.len() ==> #[trigger] fs2[j] == (field, value) || fs2[j]
                                == fs[j])
                    },
                    None => r == Err::<(), Error>(Error::InvalidField { ident: field }) && final(self)@ == old(self)@,
                },
            },
    {
        match self {
            StructProto::Tuple(_) => Err(
                Error::InvalidKind { expected: TypeKind::Keyed, received: TypeKind::Tuple },
            ),
            StructProto::Keyed(map_data) => map_data.set_field(field, value),
        }
    }

    /// Reads positional field `field`; `InvalidField` past the end,
    /// `InvalidKind` on a keyed storage.
    pub fn tuple_field(&self, field: u8) -> (r: Result<Value, Error>)
        ensures
            r == match self@ {
                ProtoM::Tuple(fs) => if (field as int) < fs.len() {
                    Ok::<Value, Error>(fs[field as int])
                } else {
                    Err::<Value, Error>(Error::InvalidField { ident: Ident::Number(field) })
                },
                ProtoM::Keyed(_) => Err::<Value, Error>(
                    Error::InvalidKind { expected: TypeKind::Tuple, received: TypeKind::Keyed },
                ),
            },
    {
        match self {
            StructProto::Tuple(tuple_data) => tuple_data.field(field),
            StructProto::Keyed(_) => Err(
                Error::InvalidKind { expected: TypeKind::Tuple, received: TypeKind::Keyed },
            ),
        }
    }

    /// Reads the value under the declared key `field`; `InvalidField` for an
    /// undeclared key, `InvalidKind` on a positional storage.
    pub fn map_field(&self, field: Ident) -> (r: Result<Value, Error>)
        ensures
            r == match self@ {
                ProtoM::Tuple(_) => Err::<Value, Error>(
                    Error::InvalidKind { expected: TypeKind::Keyed, received: TypeKind::Tuple },
                ),
                ProtoM::Keyed(fs) => match assoc_get(fs, field) {
                    Some(v) => Ok::<Value, Error>(v),
                    None => Err::<Value, Error>(Error::InvalidField { ident: field }),
                },
            },
    {
        match self {
            StructProto::Tuple(_) => Err(
                Error::InvalidKind { expected: TypeKind::Keyed, received: TypeKind::Tuple },
            ),
            StructProto::Keyed(map_data) => map_data.field(field),
        }
    }
}

impl Value {
    /// True when every handle in the value addresses a valid arena cell.
    pub open spec fn wf(self, a: ArenaM) -> bool {
        match self {
            Value::Boolean(_) => true,
            Value::Integer(_) => true,
            Value::Float(_) => true,
            Value::Str(s) => s.id < a.strs.len(),
            Value::Tuple(t) => t.id < a.tuples.len(),
            Value::Struct(s) => s.id < a.structs.len(),
            Value::Enum(e) => e.id < a.enums.len(),
            Value::Opt(o) => o.id < a.opts.len(),
            Value::Closure(c) => c.id < a.closures.len(),
        }
    }

    /// The canonical "empty" value: a fresh optional cell in the none state.
    pub fn empty(arena: &mut Arena) -> (r: Value)
        requires
            old(arena).wf(),
        ensures
            final(arena).wf(),
            final(arena)@.extends(old(arena)@),
            final(arena)@ == (ArenaM {
                opts: old(arena)@.opts.push(OptionData::Absent),
                ..old(arena)@
            }),
            r == Value::Opt(Opt { id: old(arena)@.opts.len() as usize }),
    {
        Value::Opt(Opt::new_none(arena))
    }
}

impl Opt {
    /// A fresh optional cell in the none state.
    pub fn new_none(arena: &mut Arena) -> (r: Opt)
        requires
            old(arena).wf(),
        ensures
            final(arena).wf(),
            final(arena)@.extends(old(arena)@),
            final(arena)@ == (ArenaM {
                opts: old(arena)@.opts.push(OptionData::Absent),
                ..old(arena)@
            }),
            r.id == old(arena)@.opts.len(),
    {
        let ghost a1 = arena@;
        let id = arena.opts.len();
        arena.opts.push(OptionData::Absent);
        proof {
            assert(arena@ =~~= (ArenaM { opts: a1.opts.push(OptionData::Absent), ..a1 }));
            crate::arena::lemma_wf_alloc(a1, arena@);
        }
        Opt { id }
    }
}

impl Closure {
    /// A fresh closure cell pairing `fun` with the captured chain it may
    /// address.
    pub fn new(arena: &mut Arena, fun: Fun, captured_scope: CapturedScope) -> (r: Closure)
        requires
            old(arena).wf(),
            fun.id < old(arena)@.funs.len(),
            captured_scope.id < old(arena)@.captures.len(),
        ensures
            final(arena).wf(),
            final(arena)@.extends(old(arena)@),
            final(arena)@ == (ArenaM {
                closures: old(arena)@.closures.push(ClosureData { fun, captured_scope }),
                ..old(arena)@
            }),
            r.id == old(arena)@.closures.len(),
    {
        let ghost a1 = arena@;
        let id = arena.closures.len();
        arena.closures.push(ClosureData { fun, captured_scope });
        proof {
            assert(arena@ =~~= (ArenaM {
                closures: a1.closures.push(ClosureData { fun, captured_scope }),
                ..a1
            }));
            crate::arena::lemma_wf_alloc(a1, arena@);
        }
        Closure { id }
    }

    /// The captured-scope chain the closure carries.
    pub fn captured_scope(&self, arena: &Arena) -> (r: CapturedScope)
        requires
            arena.wf(),
            self.id < arena@.closures.len(),
        ensures
            r == arena@.closures[self.id as int].captured_scope,
            r.id < arena@.captures.len(),
    {
        proof {
            assert(crate::arena::closure_cell_wf(arena@.closures[self.id as int], arena@));
        }
        arena.closures[self.id].captured_scope
    }
}

impl Tuple {
    /// A fresh tuple cell over `fields`; the length is fixed thereafter.
    pub fn new(arena: &mut Arena, fields: Vec<Value>) -> (r: Tuple)
        requires
            old(arena).wf(),
            forall|i: int| 0 <= i < fields@.len() ==> (#[trigger] fields@[i]).wf(old(arena)@),
        ensures
            final(arena).wf(),
            final(arena)@.extends(old(arena)@),
            final(arena)@ == (ArenaM {
                tuples: old(arena)@.tuples.push(fields@),
                ..old(arena)@
            }),
            r.id == old(arena)@.tuples.len(),
    {
        let ghost a1 = arena@;
        let ghost fields_view = fields@;
        let id = arena.tuples.len();
        arena.tuples.push(TupleData { fields });
        proof {
            assert(arena@ =~~= (ArenaM { tuples: a1.tuples.push(fields_view), ..a1 }));
            crate::arena::lemma_wf_alloc(a1, arena@);
        }
        Tuple { id }
    }

    /// Writes `value` into positional field `field`; `InvalidField` past the
    /// end, with nothing changed.  The tuple never changes length.
    pub fn set_field(&self, arena: &mut Arena, field: u8, value: Value) -> (r: Result<(), Error>)
        requires
            old(arena).wf(),
            self.id < old(arena)@.tuples.len(),
            value.wf(old(arena)@),
        ensures
            final(arena).wf(),
            final(arena)@.extends(old(arena)@),
            ({
                let fs = old(arena)@.tuples[self.id as int];
                if (field as int) < fs.len() {
                    r == Ok::<(), Error>(()) && final(arena)@ == (ArenaM {
                        tuples: old(arena)@.tuples.update(
                            self.id as int,
                            fs.update(field as int, value),
                        ),
                        ..old(arena)@
                    })
                } else {
                    r == Err::<(), Error>(Error::InvalidField { ident: Ident::Number(field) })
                        && final(arena)@ == old(arena)@
                }
            }),
    {
        let ghost a1 = arena@;
        let cell = &mut arena.tuples[self.id];
        let r = cell.set_field(field, value);
        proof {
            let fs1 = a1.tuples[self.id as int];
            if (field as int) < fs1.len() {
                let a2 = arena@;
                assert(a2 =~~= (ArenaM {
                    tuples: a1.tuples.update(self.id as int, fs1.update(field as int, value)),
                    ..a1
                }));
                assert(crate::arena::values_wf(fs1, a1));
                assert forall|i: int|
                    0 <= i < fs1.update(field as int, value).len() implies (#[trigger] fs1.update(
                    field as int,
                    value,
                )[i]).wf(a2) by {
                    if i != field as int {
                        assert(fs1[i].wf(a1));
                    }
                }
                crate::arena::lemma_wf_tuple_update(
                    a1,
                    a2,
                    self.id as int,
                    fs1.update(field as int, value),
                );
            } else {
                assert(arena@ =~~= a1);
            }
        }
        r
    }

    /// Reads positional field `field`; `InvalidField` past the end.
    pub fn field(&self, arena: &Arena, field: u8) -> (r: Result<Value, Error>)
        requires
            arena.wf(),
            self.id < arena@.tuples.len(),
        ensures
            r == ({
                let fs = arena@.tuples[self.id as int];
                if (field as int) < fs.len() {
                    Ok::<Value, Error>(fs[field as int])
                } else {
                    Err::<Value, Error>(Error::InvalidField { ident: Ident::Number(field) })
                }
            }),
            r matches Ok(v) ==> v.wf(arena@),
    {
        proof {
            assert(crate::arena::values_wf(arena@.tuples[self.id as int], arena@));
        }
        arena.tuples[self.id].field(field)
    }
}

impl Struct {
    /// A fresh struct value of the tuple-layout descriptor `typ`:
    /// `MissingField` when fewer fields are provided than declared,
    /// `InvalidField` when more, `InvalidKind` on a map-layout descriptor.
    pub fn new_tuple(arena: &mut Arena, typ: typ::Struct, fields: Vec<Value>) -> (r: Result<
        Struct,
        Error,
    >)
        requires
            old(arena).wf(),
            typ.id < old(arena)@.struct_defs.len(),
            forall|i: int| 0 <= i < fields@.len() ==> (#[trigger] fields@[i]).wf(old(arena)@),
        ensures
            final(arena).wf(),
            final(arena)@.extends(old(arena)@),
            match old(arena)@.struct_defs[typ.id as int].proto {
                crate::typ::DefProtoM::Tuple(n) => if fields@.len() < n as int {
                    r == Err::<Struct, Error>(
                        Error::MissingField { ident: Ident::Number(fields@.len() as u8) },
                    ) && final(arena)@ == old(arena)@
                } else if fields@.len() > n as int {
                    r == Err::<Struct, Error>(Error::InvalidField { ident: Ident::Number(n) })
                        && final(arena)@ == old(arena)@
                } else {
                    r == Ok::<Struct, Error>(Struct { id: old(arena)@.structs.len() as usize })
                        && final(arena)@ == (ArenaM {
                        structs: old(arena)@.structs.push(
                            StructCellM { typ, proto: ProtoM::Tuple(fields@) },
                        ),
                        ..old(arena)@
                    })
                },
                crate::typ::DefProtoM::Keyed(_) => r == Err::<Struct, Error>(
                    Error::InvalidKind { expected: TypeKind::Tuple, received: TypeKind::Keyed },
                ) && final(arena)@ == old(arena)@,
            },
    {
        proof {
            assert(crate::arena::struct_def_wf(arena@.struct_defs[typ.id as int], arena@));
        }
        let num_fields = match &arena.struct_defs[typ.id].proto {
            typ::StructProto::Tuple(n) => *n,
            typ::StructProto::Keyed(_) => {
                return Err(
                    Error::InvalidKind { expected: TypeKind::Tuple, received: TypeKind::Keyed },
                );
            },
        };
        let ghost fields_view = fields@;
        match StructProto::new_tuple(num_fields, fields) {
            Err(e) => Err(e),
            Ok(proto) => {
                let ghost a1 = arena@;
                let id = arena.structs.len();
                arena.structs.push(StructData { typ, proto });
                proof {
                    let a2 = arena@;
                    assert(a2 =~~= (ArenaM {
                        structs: a1.structs.push(
                            StructCellM { typ, proto: ProtoM::Tuple(fields_view) },
                        ),
                        ..a1
                    }));
                    crate::arena::lemma_wf_alloc(a1, a2);
                }
                Ok(Struct { id })
            },
        }
    }

    /// A fresh struct value of the map-layout descriptor `typ`:
    /// `MissingField` for a declared key not provided, `InvalidField` for a
    /// provided key not declared, `InvalidKind` on a tuple-layout
    /// descriptor.  The provided fields must name each key at most once.
    pub fn new_map(arena: &mut Arena, typ: typ::Struct, fields: Vec<(Ident, Value)>) -> (r: Result<
        Struct,
        Error,
    >)
        requires
            old(arena).wf(),
            typ.id < old(arena)@.struct_defs.len(),
            crate::modu::keys_unique(fields@),
            forall|i: int| 0 <= i < fields@.len() ==> (#[trigger] fields@[i]).1.wf(old(arena)@),
        ensures
            final(arena).wf(),
            final(arena)@.extends(old(arena)@),
            match old(arena)@.struct_defs[typ.id as int].proto {
                crate::typ::DefProtoM::Tuple(_) => r == Err::<Struct, Error>(
                    Error::InvalidKind { expected: TypeKind::Keyed, received: TypeKind::Tuple },
                ) && final(arena)@ == old(arena)@,
                crate::typ::DefProtoM::Keyed(keys) => match first_missing(keys, fields@) {
                    Some(k) => r == Err::<Struct, Error>(Error::MissingField { ident: k }) && final(arena)@ == old(arena)@,
                    None => match first_extra(fields@, keys) {
                        Some(k) => r == Err::<Struct, Error>(Error::InvalidField { ident: k })
                            && final(arena)@ == old(arena)@,
                        None => r == Ok::<Struct, Error>(
                            Struct { id: old(arena)@.structs.len() as usize },
                        ) && final(arena)@ == (ArenaM {
                            structs: old(arena)@.structs.push(
                                StructCellM {
                                    typ,
                                    proto: ProtoM::Keyed(keyed_storage(keys, fields@)),
                                },
                            ),
                            ..old(arena)@
                        }),
                    },
                },
            },
    {
        proof {
            assert(crate::arena::struct_def_wf(arena@.struct_defs[typ.id as int], arena@));
        }
        let ghost fields_view = fields@;
        let proto_result = match &arena.struct_defs[typ.id].proto {
            typ::StructProto::Tuple(_) => {
                return Err(
                    Error::InvalidKind { expected: TypeKind::Keyed, received: TypeKind::Tuple },
                );
            },
            typ::StructProto::Keyed(map_data) => StructProto::new_map(map_data, fields),
        };
        match proto_result {
            Err(e) => Err(e),
            Ok(proto) => {
                let ghost a1 = arena@;
                let ghost keys = (match a1.struct_defs[typ.id as int].proto {
                    crate::typ::DefProtoM::Keyed(keys) => keys,
                    _ => Seq::empty(),
                });
                let id = arena.structs.len();
                arena.structs.push(StructData { typ, proto });
                proof {
                    let a2 = arena@;
                    assert(a2 =~~= (ArenaM {
                        structs: a1.structs.push(
                            StructCellM { typ, proto: ProtoM::Keyed(keyed_storage(keys, fields_view)) },
                        ),
                        ..a1
                    }));
                    assert forall|i: int|
                        0 <= i < keyed_storage(keys, fields_view).len() implies (
                    #[trigger] keyed_storage(keys, fields_view)[i]).0.wf(a2) && keyed_storage(
                        keys,
                        fields_view,
                    )[i].1.wf(a2) by {
                        crate::modu::lemma_assoc_get_in(fields_view, keys[i]);
                        assert(crate::arena::def_proto_wf(
                            crate::typ::DefProtoM::Keyed(keys),
                            a1,
                        ));
                    }
                    crate::arena::lemma_wf_alloc(a1, a2);
                }
                Ok(Struct { id })
            },
        }
    }

    /// Writes positional field `field` of the struct's storage; the errors
    /// are those of the storage operation, with nothing changed.
    pub fn set_tuple_field(&self, arena: &mut Arena, field: u8, value: Value) -> (r: Result<
        (),
        Error,
    >)
        requires
            old(arena).wf(),
            self.id < old(arena)@.structs.len(),
            value.wf(old(arena)@),
        ensures
            final(arena).wf(),
            final(arena)@.extends(old(arena)@),
            ({
                let cell = old(arena)@.structs[self.id as int];
                match cell.proto {
                    ProtoM::Tuple(fs) => if (field as int) < fs.len() {
                        r == Ok::<(), Error>(()) && final(arena)@ == (ArenaM {
                            structs: old(arena)@.structs.update(
                                self.id as int,
                                StructCellM {
                                    typ: cell.typ,
                                    proto: ProtoM::Tuple(fs.update(field as int, value)),
                                },
                            ),
                            ..old(arena)@
                        })
                    } else {
                        r == Err::<(), Error>(Error::InvalidField { ident: Ident::Number(field) })
                            && final(arena)@ == old(arena)@
                    },
                    ProtoM::Keyed(_) => r == Err::<(), Error>(
                        Error::InvalidKind { expected: TypeKind::Tuple, received: TypeKind::Keyed },
                    ) && final(arena)@ == old(arena)@,
                }
            }),
    {
        let ghost a1 = arena@;
        let cell = &mut arena.structs[self.id];
        let ghost c1 = cell@;
        let r = cell.proto.set_tuple_field(field, value);
        proof {
            let a2 = arena@;
            let c2 = a2.structs[self.id as int];
            if r is Ok {
                assert(a2 =~~= (ArenaM { structs: a1.structs.update(self.id as int, c2), ..a1 }));
                assert(crate::arena::struct_cell_wf(c1, a1));
                assert(crate::arena::proto_values_wf(c2.proto, a2)) by {
                    match (c1.proto, c2.proto) {
                        (ProtoM::Tuple(f1), ProtoM::Tuple(f2)) => {
                            assert forall|i: int| 0 <= i < f2.len() implies (#[trigger] f2[i]).wf(
                                a2,
                            ) by {
                                if i != field as int {
                                    assert(f1[i].wf(a1));
                                }
                            }
                        },
                        _ => {},
                    }
                }
                crate::arena::lemma_wf_struct_cell_update(a1, a2, self.id as int, c2);
            } else {
                assert(a2 =~~= a1);
            }
        }
        r
    }

    /// Writes the value under the declared key `field` of the struct's
    /// storage; the errors are those of the storage operation, with nothing
    /// changed.  Keys are never added.
    pub fn set_map_field(&self, arena: &mut Arena, field: Ident, value: Value) -> (r: Result<
        (),
        Error,
    >)
        requires
            old(arena).wf(),
            self.id < old(arena)@.structs.len(),
            value.wf(old(arena)@),
        ensures
            final(arena).wf(),
            final(arena)@.extends(old(arena)@),
            ({
                let cell = old(arena)@.structs[self.id as int];
                match cell.proto {
                    ProtoM::Tuple(_) => r == Err::<(), Error>(
                        Error::InvalidKind { expected: TypeKind::Keyed, received: TypeKind::Tuple },
                    ) && final(arena)@ == old(arena)@,
                    ProtoM::Keyed(fs) => match assoc_get(fs, field) {
                        Some(_) => {
                            &&& r == Ok::<(), Error>(())
                            &&& final(arena)@.structs[self.id as int].typ == cell.typ
                            &&& final(arena)@.structs[self.id as int].proto matches ProtoM::Keyed(
                                fs2,
                            ) && fs2.len() == fs.len() && (forall|j: int|
                                0 <= j < fs2.len() ==> (#[trigger] fs2[j]).0 == fs[j].0) && (forall|
                                k2: Ident,
                            | #[trigger]
                                assoc_get(fs2, k2) == if k2 == field {
                                    Some(value)
                                } else {
                                    assoc_get(fs, k2)
                                })
                            &&& final(arena)@ == (ArenaM {
                                structs: old(arena)@.structs.update(
                                    self.id as int,
                                    final(arena)@.structs[self.id as int],
                                ),
                                ..old(arena)@
                            })
                        },
                        None => r == Err::<(), Error>(Error::InvalidField { ident: field })
                            && final(arena)@ == old(arena)@,
                    },
                }
            }),
    {
        let ghost a1 = arena@;
        proof {
            assert(crate::arena::struct_cell_wf(a1.structs[self.id as int], a1));
            assert(crate::arena::struct_def_wf(
                a1.struct_defs[a1.structs[self.id as int].typ.id as int],
                a1,
            ));
            match (
                a1.structs[self.id as int].proto,
                a1.struct_defs[a1.structs[self.id as int].typ.id as int].proto,
            ) {
                (ProtoM::Keyed(fs), crate::typ::DefProtoM::Keyed(keys)) => {
                    assert(crate::modu::keys_unique(fs)) by {
                        assert(forall|i: int| 0 <= i < fs.len() ==> (#[trigger] fs[i]).0 == keys[i]);
                    }
                },
                _ => {},
            }
        }
        let cell = &mut arena.structs[self.id];
        let ghost c1 = cell@;
        let r = cell.proto.set_map_field(field, value);
        proof {
            let a2 = arena@;
            let c2 = a2.structs[self.id as int];
            if r is Ok {
                assert(a2 =~~= (ArenaM { structs: a1.structs.update(self.id as int, c2), ..a1 }));
                assert(crate::arena::proto_values_wf(c2.proto, a2)) by {
                    match (c1.proto, c2.proto) {
                        (ProtoM::Keyed(f1), ProtoM::Keyed(f2)) => {
                            assert forall|i: int| 0 <= i < f2.len() implies (#[trigger] f2[i]).0.wf(
                                a2,
                            ) && f2[i].1.wf(a2) by {
                                if f2[i] == (field, value) {
                                    assert(f1[i].0.wf(a1));
                                    assert(f2[i].0 == f1[i].0);
                                } else {
                                    assert(f1[i].0.wf(a1) && f1[i].1.wf(a1));
                                }
                            }
                        },
                        _ => {},
                    }
                }
                crate::arena::lemma_wf_struct_cell_update(a1, a2, self.id as int, c2);
            } else {
                assert(a2 =~~= a1);
            }
        }
        r
    }

    /// Reads positional field `field` of the struct's storage.
    pub fn tuple_field(&self, arena: &Arena, field: u8) -> (r: Result<Value, Error>)
        requires
            arena.wf(),
            self.id < arena@.structs.len(),
        ensures
            r == ({
                let cell = arena@.structs[self.id as int];
                match cell.proto {
                    ProtoM::Tuple(fs) => if (field as int) < fs.len() {
                        Ok::<Value, Error>(fs[field as int])
                    } else {
                        Err::<Value, Error>(Error::InvalidField { ident: Ident::Number(field) })
                    },
                    ProtoM::Keyed(_) => Err::<Value, Error>(
                        Error::InvalidKind { expected: TypeKind::Tuple, received: TypeKind::Keyed },
                    ),
                }
            }),
            r matches Ok(v) ==> v.wf(arena@),
    {
        proof {
            assert(crate::arena::struct_cell_wf(arena@.structs[self.id as int], arena@));
        }
        arena.structs[self.id].proto.tuple_field(field)
    }

    /// Reads the value under the declared key `field` of the struct's
    /// storage.
    pub fn map_field(&self, arena: &Arena, field: Ident) -> (r: Result<Value, Error>)
        requires
            arena.wf(),
            self.id < arena@.structs.len(),
        ensures
            r == ({
                let cell = arena@.structs[self.id as int];
                match cell.proto {
                    ProtoM::Tuple(_) => Err::<Value, Error>(
                        Error::InvalidKind { expected: TypeKind::Keyed, received: TypeKind::Tuple },
                    ),
                    ProtoM::Keyed(fs) => match assoc_get(fs, field) {
                        Some(v) => Ok::<Value, Error>(v),
                        None => Err::<Value, Error>(Error::InvalidField { ident: field }),
                    },
                }
            }),
            r matches Ok(v) ==> v.wf(arena@),
    {
        proof {
            assert(crate::arena::struct_cell_wf(arena@.structs[self.id as int], arena@));
            match arena@.structs[self.id as int].proto {
                ProtoM::Keyed(fs) => {
                    crate::modu::lemma_assoc_get_in(fs, field);
                },
                _ => {},
            }
        }
        arena.structs[self.id].proto.map_field(field)
    }
}

impl Enum {
    /// A fresh enum value in variant `variant` of the descriptor `typ`,
    /// whose layout at that variant is a tuple: the errors are those of
    /// tuple-layout struct construction.
    pub fn new_tuple(arena: &mut Arena, typ: typ::Enum, variant: u8, fields: Vec<Value>) -> (r:
        Result<Enum, Error>)
        requires
            old(arena).wf(),
            typ.id < old(arena)@.enum_defs.len(),
            (variant as int) < old(arena)@.enum_defs[typ.id as int].variants.len(),
            forall|i: int| 0 <= i < fields@.len() ==> (#[trigger] fields@[i]).wf(old(arena)@),
        ensures
            final(arena).wf(),
            final(arena)@.extends(old(arena)@),
            match old(arena)@.enum_defs[typ.id as int].variants[variant as int].proto {
                crate::typ::DefProtoM::Tuple(n) => if fields@.len() < n as int {
                    r == Err::<Enum, Error>(
                        Error::MissingField { ident: Ident::Number(fields@.len() as u8) },
                    ) && final(arena)@ == old(arena)@
                } else if fields@.len() > n as int {
                    r == Err::<Enum, Error>(Error::InvalidField { ident: Ident::Number(n) })
                        && final(arena)@ == old(arena)@
                } else {
                    r == Ok::<Enum, Error>(Enum { id: old(arena)@.enums.len() as usize }) && final(arena)@ == (ArenaM {
                        enums: old(arena)@.enums.push(
                            EnumCellM { typ, variant, proto: ProtoM::Tuple(fields@) },
                        ),
                        ..old(arena)@
                    })
                },
                crate::typ::DefProtoM::Keyed(_) => r == Err::<Enum, Error>(
                    Error::InvalidKind { expected: TypeKind::Tuple, received: TypeKind::Keyed },
                ) && final(arena)@ == old(arena)@,
            },
    {
        proof {
            assert(crate::arena::enum_def_wf(arena@.enum_defs[typ.id as int], arena@));
        }
        let num_fields = match &arena.enum_defs[typ.id].variants[variant as usize].proto {
            typ::StructProto::Tuple(n) => *n,
            typ::StructProto::Keyed(_) => {
                return Err(
                    Error::InvalidKind { expected: TypeKind::Tuple, received: TypeKind::Keyed },
                );
            },
        };
        let ghost fields_view = fields@;
        match StructProto::new_tuple(num_fields, fields) {
            Err(e) => Err(e),
            Ok(proto) => {
                let ghost a1 = arena@;
                let id = arena.enums.len();
                arena.enums.push(EnumData { typ, variant, proto });
                proof {
                    let a2 = arena@;
                    assert(a2 =~~= (ArenaM {
                        enums: a1.enums.push(
                            EnumCellM { typ, variant, proto: ProtoM::Tuple(fields_view) },
                        ),
                        ..a1
                    }));
                    crate::arena::lemma_wf_alloc(a1, a2);
                }
                Ok(Enum { id })
            },
        }
    }

    /// A fresh enum value in variant `variant` of the descriptor `typ`,
    /// whose layout at that variant is keyed: the errors are those of
    /// map-layout struct construction.
    pub fn new_map(arena: &mut Arena, typ: typ::Enum, variant: u8, fields: Vec<(Ident, Value)>) -> (r:
        Result<Enum, Error>)
        requires
            old(arena).wf(),
            typ.id < old(arena)@.enum_defs.len(),
            (variant as int) < old(arena)@.enum_defs[typ.id as int].variants.len(),
            crate::modu::keys_unique(fields@),
            forall|i: int| 0 <= i < fields@.len() ==> (#[trigger] fields@[i]).1.wf(old(arena)@),
        ensures
            final(arena).wf(),
            final(arena)@.extends(old(arena)@),
            match old(arena)@.enum_defs[typ.id as int].variants[variant as int].proto {
                crate::typ::DefProtoM::Tuple(_) => r == Err::<Enum, Error>(
                    Error::InvalidKind { expected: TypeKind::Keyed, received: TypeKind::Tuple },
                ) && final(arena)@ == old(arena)@,
                crate::typ::DefProtoM::Keyed(keys) => match first_missing(keys, fields@) {
                    Some(k) => r == Err::<Enum, Error>(Error::MissingField { ident: k }) && final(arena)@ == old(arena)@,
                    None => match first_extra(fields@, keys) {
                        Some(k) => r == Err::<Enum, Error>(Error::InvalidField { ident: k })
                            && final(arena)@ == old(arena)@,
                        None => r == Ok::<Enum, Error>(
                            Enum { id: old(arena)@.enums.len() as usize },
                        ) && final(arena)@ == (ArenaM {
                            enums: old(arena)@.enums.push(
                                EnumCellM {
                                    typ,
                                    variant,
                                    proto: ProtoM::Keyed(keyed_storage(keys, fields@)),
                                },
                            ),
                            ..old(arena)@
                        }),
                    },
                },
            },
    {
        proof {
            assert(crate::arena::enum_def_wf(arena@.enum_defs[typ.id as int], arena@));
        }
        let ghost fields_view = fields@;
        let proto_result = match &arena.enum_defs[typ.id].variants[variant as usize].proto {
            typ::StructProto::Tuple(_) => {
                return Err(
                    Error::InvalidKind { expected: TypeKind::Keyed, received: TypeKind::Tuple },
                );
            },
            typ::StructProto::Keyed(map_data) => StructProto::new_map(map_data, fields),
        };
        match proto_result {
            Err(e) => Err(e),
            Ok(proto) => {
                let ghost a1 = arena@;
                let ghost keys = (match a1.enum_defs[typ.id as int].variants[variant as int].proto {
                    crate::typ::DefProtoM::Keyed(keys) => keys,
                    _ => Seq::empty(),
                });
                let id = arena.enums.len();
                arena.enums.push(EnumData { typ, variant, proto });
                proof {
                    let a2 = arena@;
                    assert(a2 =~~= (ArenaM {
                        enums: a1.enums.push(
                            EnumCellM {
                                typ,
                                variant,
                                proto: ProtoM::Keyed(keyed_storage(keys, fields_view)),
                            },
                        ),
                        ..a1
                    }));
                    assert forall|i: int|
                        0 <= i < keyed_storage(keys, fields_view).len() implies (
                    #[trigger] keyed_storage(keys, fields_view)[i]).0.wf(a2) && keyed_storage(
                        keys,
                        fields_view,
                    )[i].1.wf(a2) by {
                        crate::modu::lemma_assoc_get_in(fields_view, keys[i]);
                        assert(crate::arena::def_proto_wf(crate::typ::DefProtoM::Keyed(keys), a1));
                    }
                    crate::arena::lemma_wf_alloc(a1, a2);
                }
                Ok(Enum { id })
            },
        }
    }

    /// Writes positional field `field` of the enum value's storage; the
    /// errors are those of the storage operation, with nothing changed.
    pub fn set_tuple_field(&self, arena: &mut Arena, field: u8, value: Value) -> (r: Result<
        (),
        Error,
    >)
        requires
            old(arena).wf(),
            self.id < old(arena)@.enums.len(),
            value.wf(old(arena)@),
        ensures
            final(arena).wf(),
            final(arena)@.extends(old(arena)@),
            ({
                let cell = old(arena)@.enums[self.id as int];
                match cell.proto {
                    ProtoM::Tuple(fs) => if (field as int) < fs.len() {
                        r == Ok::<(), Error>(()) && final(arena)@ == (ArenaM {
                            enums: old(arena)@.enums.update(
                                self.id as int,
                                EnumCellM {
                                    typ: cell.typ,
                                    variant: cell.variant,
                                    proto: ProtoM::Tuple(fs.update(field as int, value)),
                                },
                            ),
                            ..old(arena)@
                        })
                    } else {
                        r == Err::<(), Error>(Error::InvalidField { ident: Ident::Number(field) })
                            && final(arena)@ == old(arena)@
                    },
                    ProtoM::Keyed(_) => r == Err::<(), Error>(
                        Error::InvalidKind { expected: TypeKind::Tuple, received: TypeKind::Keyed },
                    ) && final(arena)@ == old(arena)@,
                }
            }),
    {
        let ghost a1 = arena@;
        let cell = &mut arena.enums[self.id];
        let ghost c1 = cell@;
        let r = cell.proto.set_tuple_field(field, value);
        proof {
            let a2 = arena@;
            let c2 = a2.enums[self.id as int];
            if r is Ok {
                assert(a2 =~~= (ArenaM { enums: a1.enums.update(self.id as int, c2), ..a1 }));
                assert(crate::arena::enum_cell_wf(c1, a1));
                assert(crate::arena::proto_values_wf(c2.proto, a2)) by {
                    match (c1.proto, c2.proto) {
                        (ProtoM::Tuple(f1), ProtoM::Tuple(f2)) => {
                            assert forall|i: int| 0 <= i < f2.len() implies (#[trigger] f2[i]).wf(
                                a2,
                            ) by {
                                if i != field as int {
                                    assert(f1[i].wf(a1));
                                }
                            }
                        },
                        _ => {},
                    }
                }
                crate::arena::lemma_wf_enum_cell_update(a1, a2, self.id as int, c2);
            } else {
                assert(a2 =~~= a1);
            }
        }
        r
    }

    /// Writes the value under the declared key `field` of the enum value's
    /// storage; the errors are those of the storage operation, with nothing
    /// changed.  Keys are never added.
    pub fn set_map_field(&self, arena: &mut Arena, field: Ident, value: Value) -> (r: Result<
        (),
        Error,
    >)
        requires
            old(arena).wf(),
            self.id < old(arena)@.enums.len(),
            value.wf(old(arena)@),
        ensures
            final(arena).wf(),
            final(arena)@.extends(old(arena)@),
            ({
                let cell = old(arena)@.enums[self.id as int];
                match cell.proto {
                    ProtoM::Tuple(_) => r == Err::<(), Error>(
                        Error::InvalidKind { expected: TypeKind::Keyed, received: TypeKind::Tuple },
                    ) && final(arena)@ == old(arena)@,
                    ProtoM::Keyed(fs) => match assoc_get(fs, field) {
                        Some(_) => {
                            &&& r == Ok::<(), Error>(())
                            &&& final(arena)@.enums[self.id as int].typ == cell.typ
                            &&& final(arena)@.enums[self.id as int].variant == cell.variant
                            &&& final(arena)@.enums[self.id as int].proto matches ProtoM::Keyed(fs2)
                                && fs2.len() == fs.len() && (forall|j: int|
                                0 <= j < fs2.len() ==> (#[trigger] fs2[j]).0 == fs[j].0) && (forall|
                                k2: Ident,
                            | #[trigger]
                                assoc_get(fs2, k2) == if k2 == field {
                                    Some(value)
                                } else {
                                    assoc_get(fs, k2)
                                })
                            &&& final(arena)@ == (ArenaM {
                                enums: old(arena)@.enums.update(
                                    self.id as int,
                                    final(arena)@.enums[self.id as int],
                                ),
                                ..old(arena)@
                            })
                        },
                        None => r == Err::<(), Error>(Error::InvalidField { ident: field })
                            && final(arena)@ == old(arena)@,
                    },
                }
            }),
    {
        let ghost a1 = arena@;
        proof {
            assert(crate::arena::enum_cell_wf(a1.enums[self.id as int], a1));
            let cell = a1.enums[self.id as int];
            assert(crate::arena::enum_def_wf(a1.enum_defs[cell.typ.id as int], a1));
            match (
                cell.proto,
                a1.enum_defs[cell.typ.id as int].variants[cell.variant as int].proto,
            ) {
                (ProtoM::Keyed(fs), crate::typ::DefProtoM::Keyed(keys)) => {
                    assert(crate::modu::keys_unique(fs)) by {
                        assert(forall|i: int| 0 <= i < fs.len() ==> (#[trigger] fs[i]).0 == keys[i]);
                    }
                },
                _ => {},
            }
        }
        let cell = &mut arena.enums[self.id];
        let ghost c1 = cell@;
        let r = cell.proto.set_map_field(field, value);
        proof {
            let a2 = arena@;
            let c2 = a2.enums[self.id as int];
            if r is Ok {
                assert(a2 =~~= (ArenaM { enums: a1.enums.update(self.id as int, c2), ..a1 }));
                assert(crate::arena::proto_values_wf(c2.proto, a2)) by {
                    match (c1.proto, c2.proto) {
                        (ProtoM::Keyed(f1), ProtoM::Keyed(f2)) => {
                            assert forall|i: int| 0 <= i < f2.len() implies (#[trigger] f2[i]).0.wf(
                                a2,
                            ) && f2[i].1.wf(a2) by {
                                if f2[i] == (field, value) {
                                    assert(f1[i].0.wf(a1));
                                    assert(f2[i].0 == f1[i].0);
                                } else {
                                    assert(f1[i].0.wf(a1) && f1[i].1.wf(a1));
                                }
                            }
                        },
                        _ => {},
                    }
                }
                crate::arena::lemma_wf_enum_cell_update(a1, a2, self.id as int, c2);
            } else {
                assert(a2 =~~= a1);
            }
        }
        r
    }

    /// Reads positional field `field` of the enum value's storage.
    pub fn tuple_field(&self, arena: &Arena, field: u8) -> (r: Result<Value, Error>)
        requires
            arena.wf(),
            self.id < arena@.enums.len(),
        ensures
            r == ({
                let cell = arena@.enums[self.id as int];
                match cell.proto {
                    ProtoM::Tuple(fs) => if (field as int) < fs.len() {
                        Ok::<Value, Error>(fs[field as int])
                    } else {
                        Err::<Value, Error>(Error::InvalidField { ident: Ident::Number(field) })
                    },
                    ProtoM::Keyed(_) => Err::<Value, Error>(
                        Error::InvalidKind { expected: TypeKind::Tuple, received: TypeKind::Keyed },
                    ),
                }
            }),
            r matches Ok(v) ==> v.wf(arena@),
    {
        proof {
            assert(crate::arena::enum_cell_wf(arena@.enums[self.id as int], arena@));
        }
        arena.enums[self.id].proto.tuple_field(field)
    }

    /// Reads the value under the declared key `field` of the enum value's
    /// storage.
    pub fn map_field(&self, arena: &Arena, field: Ident) -> (r: Result<Value, Error>)
        requires
            arena.wf(),
            self.id < arena@.enums.len(),
        ensures
            r == ({
                let cell = arena@.enums[self.id as int];
                match cell.proto {
                    ProtoM::Tuple(_) => Err::<Value, Error>(
                        Error::InvalidKind { expected: TypeKind::Keyed, received: TypeKind::Tuple },
                    ),
                    ProtoM::Keyed(fs) => match assoc_get(fs, field) {
                        Some(v) => Ok::<Value, Error>(v),
                        None => Err::<Value, Error>(Error::InvalidField { ident: field }),
                    },
                }
            }),
            r matches Ok(v) ==> v.wf(arena@),
    {
        proof {
            assert(crate::arena::enum_cell_wf(arena@.enums[self.id as int], arena@));
            match arena@.enums[self.id as int].proto {
                ProtoM::Keyed(fs) => {
                    crate::modu::lemma_assoc_get_in(fs, field);
                },
                _ => {},
            }
        }
        arena.enums[self.id].proto.map_field(field)
    }
}

} // verus!
