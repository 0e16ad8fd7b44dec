//! The chunk builder: allocates local slots, collects instructions, and
//! seals them into an immutable chunk.

use vstd::prelude::*;

use crate::arena::ArenaM;
use crate::arena::Arena;
use crate::fun::Chunk;
use crate::fun::ChunkM;
use crate::instr::Instr;

verus! {

/// Accumulates the local-slot count and the instruction vector of one chunk
/// under construction.
pub struct ChunkBuilder {
    pub local_scope_len: usize,
    pub instrs: Vec<Instr>,
}

impl ChunkBuilder {
    /// A builder for an empty chunk.
    pub fn new() -> (r: ChunkBuilder)
        ensures
            r.local_scope_len == 0,
            r.instrs@ == Seq::<Instr>::empty(),
    {
        ChunkBuilder { local_scope_len: 0, instrs: Vec::new() }
    }

    /// Allocates the next local slot and returns its index.
    pub fn next_var(&mut self) -> (r: usize)
        requires
            old(self).local_scope_len < usize::MAX,
        ensures
            r == old(self).local_scope_len,
            final(self).local_scope_len == old(self).local_scope_len + 1,
            final(self).instrs@ == old(self).instrs@,
    {
        let local_scope_len = self.local_scope_len;
        self.local_scope_len += 1;
        local_scope_len
    }

    /// Appends one instruction.
    pub fn instr(&mut self, instr: Instr)
        ensures
            final(self).instrs@ == old(self).instrs@.push(instr),
            final(self).local_scope_len == old(self).local_scope_len,
    {
        self.instrs.push(instr);
    }

    /// Seals the builder into an immutable chunk cell.
    pub fn build(self, arena: &mut Arena) -> (r: Chunk)
        requires
            old(arena).wf(),
            forall|i: int| 0 <= i < self.instrs@.len() ==> (#[trigger] self.instrs@[i]).wf(
                old(arena)@,
            ),
        ensures
            final(arena).wf(),
            final(arena)@.extends(old(arena)@),
            final(arena)@ == (ArenaM {
                chunks: old(arena)@.chunks.push(
                    ChunkM { local_scope_len: self.local_scope_len, instrs: self.instrs@ },
                ),
                ..old(arena)@
            }),
            r.id == old(arena)@.chunks.len(),
    {
        Chunk::new(arena, self.local_scope_len, self.instrs)
    }
}

} // verus!
