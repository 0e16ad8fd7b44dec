//! Fibers: one logical thread of control, grouping an operand stack with a
//! frame stack.  The core never multiplexes fibers; running several of them
//! is a host-side decision.

use vstd::prelude::*;

use crate::engine::machine::Machine;

verus! {

/// A single thread of control: one machine, that is one operand stack plus
/// one frame stack.
pub struct Fiber {
    pub machine: Machine,
}

impl Fiber {
    /// A fresh fiber with empty stacks.
    pub fn new() -> (r: Fiber)
        ensures
            r.machine.operand_stack@.len() == 0,
            r.machine.frame_stack@.len() == 0,
    {
        Fiber { machine: Machine::new() }
    }
}

} // verus!
