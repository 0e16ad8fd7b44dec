//! Errors raised by the value and module layer: lookup misses, construction
//! faults and layout mismatches.

use vstd::prelude::*;

use crate::ident::Ident;

verus! {

/// A value- or module-layer fault.  Every operation that can fail reports
/// exactly which of these it raises and on which inputs.
#[derive(Clone, Copy, Debug, PartialEq, Eq, Structural)]
pub enum Error {
    /// A module function lookup missed.
    FunctionNotFound { ident: Ident },
    /// A construction left a declared field unfilled, or indexed past the
    /// provided fields.
    MissingField { ident: Ident },
    /// A field was provided or addressed that the layout does not declare.
    InvalidField { ident: Ident },
    /// Tuple-shaped access met a map layout, or the other way round.
    InvalidKind { expected: TypeKind, received: TypeKind },
}

/// The two layout shapes, named in layout-mismatch errors.
#[derive(Clone, Copy, Debug, PartialEq, Eq, Structural)]
pub enum TypeKind {
    Tuple,
    Keyed,
}

impl TypeKind {
    /// The layout shape's lower-case name.
    pub fn name(&self) -> (r: &'static str)
        ensures
            *self is Tuple ==> r@ == "tuple"@,
            *self is Keyed ==> r@ == "map"@,
    {
        match self {
            TypeKind::Tuple => "tuple",
            TypeKind::Keyed => "map",
        }
    }
}

} // verus!
