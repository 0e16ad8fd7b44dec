//! The execution engine: operand stack, frames, scopes and the dispatch
//! machine, plus the engine-level error taxonomy.

use vstd::prelude::*;

use crate::arena::Arena;

pub mod error;
pub mod fiber;
pub mod frame;
pub mod machine;
pub mod sem;

verus! {

/// The engine: the heap together with everything the host needs to run
/// machines against it.
pub struct Engine {
    pub arena: Arena,
}

impl Engine {
    /// An engine over the given heap.
    pub fn new(arena: Arena) -> (r: Engine)
        ensures
            r.arena == arena,
    {
        Engine { arena }
    }
}

} // verus!
