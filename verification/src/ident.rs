//! Identifiers: hashable, orderable names used as keys for type fields,
//! module members and method tables.

use vstd::prelude::*;

use crate::arena::Arena;
use crate::arena::ArenaM;

verus! {

/// A name, either an interned string (addressed by its slot in the arena's
/// intern table) or a small integer index.  Interning makes equality of
/// string names coincide with equality of the handles.
#[derive(Clone, Copy, Debug, PartialEq, Eq, Hash, Structural)]
pub enum Ident {
    Text(usize),
    Number(u8),
}

impl Ident {
    /// True when the identifier addresses a valid cell of the arena.
    pub open spec fn wf(self, a: ArenaM) -> bool {
        match self {
            Ident::Text(i) => i < a.idents.len(),
            Ident::Number(_) => true,
        }
    }

    /// The interned string identifier for `name`: equal names always yield
    /// equal identifiers.
    pub fn new_string(arena: &mut Arena, name: Vec<u8>) -> (r: Ident)
        requires
            old(arena).wf(),
        ensures
            final(arena).wf(),
            final(arena)@.same_except_idents(old(arena)@),
            r matches Ident::Text(i) && i < final(arena)@.idents.len() && final(arena)@.idents[i as int]
                == name@,
            forall|j: int|
                0 <= j < old(arena)@.idents.len() ==> final(arena)@.idents[j] == old(arena)@.idents[j],
            final(arena)@.idents.len() >= old(arena)@.idents.len(),
    {
        let i = arena.intern(name);
        Ident::Text(i)
    }

    /// The small-integer identifier for `number`.
    pub fn new_number(number: u8) -> (r: Ident)
        ensures
            r == Ident::Number(number),
    {
        Ident::Number(number)
    }
}

} // verus!
