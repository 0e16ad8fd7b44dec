//! Errors raised by the execution engine.  Any of them aborts the running
//! call: the machine unwinds its frames and the error surfaces to the host.

use vstd::prelude::*;

use crate::ident::Ident;

verus! {

/// An engine-level fault.
#[derive(Clone, Copy, Debug, PartialEq, Eq, Structural)]
pub enum Error {
    /// A method-slot invocation met a function that is not method-flagged.
    MethodNotFound { ident: Ident },
    /// A call named an arity other than the function's declared one.
    WrongArity { expected: u8, received: u8 },
    /// A pop met an empty operand stack.
    EmptyOperandStack,
    /// An instruction consumed an operand of the wrong variant.
    InvalidOperandKind { expected: OperandKind, received: OperandKind },
    /// A captured-scope walk stepped past the top of the chain.
    InvalidParent,
    /// A local or captured slot index was out of range.
    InvalidVar { var: usize },
    /// An arithmetic opcode met unsupported operands: a non-numeric value,
    /// or an integer division with divisor zero.
    TypeMismatch,
}

/// The operand variants, named in operand-kind errors.
#[derive(Clone, Copy, Debug, PartialEq, Eq, Structural)]
pub enum OperandKind {
    Modu,
    Fun,
    Method,
    Value,
}

impl OperandKind {
    /// The operand kind's lower-case name.
    pub fn name(&self) -> (r: &'static str)
        ensures
            *self is Modu ==> r@ == "module"@,
            *self is Fun ==> r@ == "function"@,
            *self is Method ==> r@ == "method"@,
            *self is Value ==> r@ == "value"@,
    {
        match self {
            OperandKind::Modu => "module",
            OperandKind::Fun => "function",
            OperandKind::Method => "method",
            OperandKind::Value => "value",
        }
    }
}

} // verus!
