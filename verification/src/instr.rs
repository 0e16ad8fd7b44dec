//! The bytecode instruction set.  Every instruction is self-contained: its
//! operands are inline, there is no constant pool.

use vstd::prelude::*;

use crate::arena::ArenaM;
use crate::fun::Fun;
use crate::modu::Modu;
use crate::value::Value;

verus! {

/// One bytecode instruction.
#[derive(Clone, Copy, Debug, PartialEq, Eq, Structural)]
pub enum Instr {
    /// Push a value onto the operand stack.
    PushValue { value: Value },
    /// Push a module reference onto the operand stack.
    PushMod { modu: Modu },
    /// Push a function reference onto the operand stack.
    PushFn { fun: Fun },
    /// Discard the top value; fail on an empty stack.
    Pop,
    /// Push the value held in the local slot `var`.
    PushVar { var: usize },
    /// Pop a value and store it into the local slot `var`.
    PopVar { var: usize },
    /// Pop right, pop left, push the sum.
    Add,
    /// Pop right, pop left, push the difference.
    Subtract,
    /// Pop right, pop left, push the product.
    Multiply,
    /// Pop right, pop left, push the quotient.
    Divide,
    /// Call the staged function on `arity` staged arguments.
    Call { arity: u8 },
}

impl Instr {
    /// True when every handle in the instruction addresses a valid arena
    /// cell.
    pub open spec fn wf(self, a: ArenaM) -> bool {
        match self {
            Instr::PushValue { value } => value.wf(a),
            Instr::PushMod { modu } => modu.id < a.modus.len(),
            Instr::PushFn { fun } => fun.id < a.funs.len(),
            _ => true,
        }
    }
}

} // verus!
