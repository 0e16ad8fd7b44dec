//! Function objects and compiled chunks.
//!
//! A function carries its owning module, a name, an arity, a method flag and
//! a prototype: either a compiled chunk or an external native callable.  The
//! external callable itself lives with the host; the core only mints a handle
//! for it and reports through the machine when the host must run it.

use vstd::prelude::*;

use crate::arena::Arena;
use crate::arena::ArenaM;
use crate::ident::Ident;
use crate::instr::Instr;
use crate::modu::Modu;

verus! {

/// Handle of a shared function object.
#[derive(Clone, Copy, Debug, PartialEq, Eq, Structural)]
pub struct Fun {
    pub id: usize,
}

/// Contents of a function cell.
#[derive(Clone, Copy, Debug, PartialEq, Eq, Structural)]
pub struct FunData {
    pub modu: Modu,
    pub ident: Ident,
    pub arity: u8,
    pub is_method: bool,
    pub proto: FunProto,
}

/// What a function runs: a compiled chunk, or an external native callable.
#[derive(Clone, Copy, Debug, PartialEq, Eq, Structural)]
pub enum FunProto {
    Chunk(Chunk),
    External(External),
}

/// Handle of a shared compiled chunk.
#[derive(Clone, Copy, Debug, PartialEq, Eq, Structural)]
pub struct Chunk {
    pub id: usize,
}

/// Contents of a chunk cell: the local-slot count and the immutable
/// instruction vector.
pub struct ChunkData {
    pub local_scope_len: usize,
    pub instrs: Vec<Instr>,
}

/// Handle for an external native callable registered with the host.
#[derive(Clone, Copy, Debug, PartialEq, Eq, Structural)]
pub struct External {
    pub id: usize,
}

/// Mathematical model of a chunk cell.
#[verifier::ext_equal]
pub ghost struct ChunkM {
    pub local_scope_len: usize,
    pub instrs: Seq<Instr>,
}

impl View for ChunkData {
    type V = ChunkM;

    open spec fn view(&self) -> ChunkM {
        ChunkM { local_scope_len: self.local_scope_len, instrs: self.instrs@ }
    }
}

impl Chunk {
    /// A fresh chunk cell from a local-slot count and an instruction vector.
    pub fn new(arena: &mut Arena, local_scope_len: usize, instrs: Vec<Instr>) -> (r: Chunk)
        requires
            old(arena).wf(),
            forall|i: int| 0 <= i < instrs@.len() ==> (#[trigger] instrs@[i]).wf(old(arena)@),
        ensures
            final(arena).wf(),
            final(arena)@.extends(old(arena)@),
            final(arena)@ == (ArenaM {
                chunks: old(arena)@.chunks.push(ChunkM { local_scope_len, instrs: instrs@ }),
                ..old(arena)@
            }),
            r.id == old(arena)@.chunks.len(),
    {
        let ghost a1 = arena@;
        let id = arena.chunks.len();
        let ghost instrs_view = instrs@;
        arena.chunks.push(ChunkData { local_scope_len, instrs });
        proof {
            let a2 = arena@;
            assert(a2 =~~= (ArenaM {
                chunks: a1.chunks.push(ChunkM { local_scope_len, instrs: instrs_view }),
                ..a1
            }));
            crate::arena::lemma_wf_alloc(a1, a2);
        }
        Chunk { id }
    }

    /// The number of local slots the chunk requires.
    pub fn local_scope_len(&self, arena: &Arena) -> (r: usize)
        requires
            self.id < arena@.chunks.len(),
        ensures
            r == arena@.chunks[self.id as int].local_scope_len,
    {
        arena.chunks[self.id].local_scope_len
    }

    /// The instruction at `index`, or `None` past the end of the stream.
    pub fn instr(&self, arena: &Arena, index: usize) -> (r: Option<Instr>)
        requires
            self.id < arena@.chunks.len(),
        ensures
            r == if index < arena@.chunks[self.id as int].instrs.len() {
                Some(arena@.chunks[self.id as int].instrs[index as int])
            } else {
                None::<Instr>
            },
    {
        let chunk = &arena.chunks[self.id];
        if index < chunk.instrs.len() {
            Some(chunk.instrs[index])
        } else {
            None
        }
    }
}

impl External {
    /// Mints a handle for a native callable the host registers under it.
    /// The callable itself never enters the core: when the machine meets a
    /// call to this handle it reports the handle and the arguments back to
    /// the host, which runs the callable and resumes the machine with its
    /// result.
    pub fn new(arena: &mut Arena) -> (r: External)
        requires
            old(arena).wf(),
            old(arena)@.externals < usize::MAX,
        ensures
            final(arena).wf(),
            final(arena)@.extends(old(arena)@),
            final(arena)@ == (ArenaM { externals: (old(arena)@.externals + 1) as usize, ..old(arena)@ }),
            r.id == old(arena)@.externals,
    {
        let ghost a1 = arena@;
        let id = arena.externals;
        arena.externals += 1;
        proof {
            let a2 = arena@;
            assert(a2 =~~= (ArenaM { externals: (a1.externals + 1) as usize, ..a1 }));
            crate::arena::lemma_wf_alloc(a1, a2);
        }
        External { id }
    }
}

impl Fun {
    /// A fresh function cell over a chunk prototype, owned by a fresh
    /// module, named by the zero index and not method-flagged.
    pub fn new_chunk(arena: &mut Arena, arity: u8, chunk: Chunk) -> (r: Fun)
        requires
            old(arena).wf(),
            chunk.id < old(arena)@.chunks.len(),
        ensures
            final(arena).wf(),
            final(arena)@.extends(old(arena)@),
            r.id == old(arena)@.funs.len(),
            final(arena)@.funs == old(arena)@.funs.push(
                FunData {
                    modu: Modu { id: old(arena)@.modus.len() as usize },
                    ident: Ident::Number(0),
                    arity,
                    is_method: false,
                    proto: FunProto::Chunk(chunk),
                },
            ),
            final(arena)@ == (ArenaM {
                modus: final(arena)@.modus,
                funs: final(arena)@.funs,
                ..old(arena)@
            }),
            final(arena)@.modus.len() == old(arena)@.modus.len() + 1,
    {
        let modu = Modu::new(arena, Ident::new_number(0));
        Self::with_proto(arena, modu, arity, FunProto::Chunk(chunk))
    }

    /// A fresh function cell over an external prototype, owned by a fresh
    /// module, named by the zero index and not method-flagged.
    pub fn new_external(arena: &mut Arena, arity: u8, external: External) -> (r: Fun)
        requires
            old(arena).wf(),
            external.id < old(arena)@.externals,
        ensures
            final(arena).wf(),
            final(arena)@.extends(old(arena)@),
            r.id == old(arena)@.funs.len(),
            final(arena)@.funs == old(arena)@.funs.push(
                FunData {
                    modu: Modu { id: old(arena)@.modus.len() as usize },
                    ident: Ident::Number(0),
                    arity,
                    is_method: false,
                    proto: FunProto::External(external),
                },
            ),
            final(arena)@ == (ArenaM {
                modus: final(arena)@.modus,
                funs: final(arena)@.funs,
                ..old(arena)@
            }),
            final(arena)@.modus.len() == old(arena)@.modus.len() + 1,
    {
        let modu = Modu::new(arena, Ident::new_number(0));
        Self::with_proto(arena, modu, arity, FunProto::External(external))
    }

    /// A fresh function cell with the given owner and prototype.
    fn with_proto(arena: &mut Arena, modu: Modu, arity: u8, proto: FunProto) -> (r: Fun)
        requires
            old(arena).wf(),
            modu.id < old(arena)@.modus.len(),
            match proto {
                FunProto::Chunk(c) => c.id < old(arena)@.chunks.len(),
                FunProto::External(e) => e.id < old(arena)@.externals,
            },
        ensures
            final(arena).wf(),
            final(arena)@.extends(old(arena)@),
            final(arena)@ == (ArenaM {
                funs: old(arena)@.funs.push(
                    FunData { modu, ident: Ident::Number(0), arity, is_method: false, proto },
                ),
                ..old(arena)@
            }),
            r.id == old(arena)@.funs.len(),
    {
        let ghost a1 = arena@;
        let id = arena.funs.len();
        let data = FunData { modu, ident: Ident::Number(0), arity, is_method: false, proto };
        arena.funs.push(data);
        proof {
            let a2 = arena@;
            assert(a2 =~~= (ArenaM { funs: a1.funs.push(data), ..a1 }));
            crate::arena::lemma_wf_alloc(a1, a2);
        }
        Fun { id }
    }

    /// The function's identifier.
    pub fn ident(&self, arena: &Arena) -> (r: Ident)
        requires
            self.id < arena@.funs.len(),
        ensures
            r == arena@.funs[self.id as int].ident,
    {
        arena.funs[self.id].ident
    }

    /// The function's declared arity.
    pub fn arity(&self, arena: &Arena) -> (r: u8)
        requires
            self.id < arena@.funs.len(),
        ensures
            r == arena@.funs[self.id as int].arity,
    {
        arena.funs[self.id].arity
    }

    /// Whether the function may be dispatched as a method.
    pub fn is_method(&self, arena: &Arena) -> (r: bool)
        requires
            self.id < arena@.funs.len(),
        ensures
            r == arena@.funs[self.id as int].is_method,
    {
        arena.funs[self.id].is_method
    }

    /// The function's prototype.
    pub fn proto(&self, arena: &Arena) -> (r: FunProto)
        requires
            self.id < arena@.funs.len(),
        ensures
            r == arena@.funs[self.id as int].proto,
    {
        arena.funs[self.id].proto
    }
}

} // verus!
