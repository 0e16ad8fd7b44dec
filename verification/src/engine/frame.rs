//! Activation records and variable scopes.
//!
//! A scope is a fixed-length, heap-shared vector of values: a frame owns one
//! for its chunk's locals, and a closure created inside the frame may capture
//! it and outlive the frame.  A captured scope links one scope with the
//! number of its slots the enclosing levels may name, and with the next
//! enclosing level, forming a chain that closure bodies address as
//! `(parents, var)`.

use vstd::prelude::*;

use crate::arena::capture_wf;
use crate::arena::lemma_wf_alloc;
use crate::arena::lemma_wf_scope_set;
use crate::arena::Arena;
use crate::arena::ArenaM;
use crate::engine::error::Error;
use crate::fun::Chunk;
use crate::instr::Instr;
use crate::value::Value;

verus! {

/// Handle of a shared scope: a fixed-length mutable vector of values.
#[derive(Clone, Copy, Debug, PartialEq, Eq, Structural)]
pub struct Scope {
    pub id: usize,
}

/// Handle of a shared captured-scope link.
#[derive(Clone, Copy, Debug, PartialEq, Eq, Structural)]
pub struct CapturedScope {
    pub id: usize,
}

/// Contents of a captured-scope link: one scope, how many of its slots the
/// enclosing closures may name, and the next enclosing level.
#[derive(Clone, Copy, Debug, PartialEq, Eq, Structural)]
pub struct CapturedScopeData {
    pub parent_scope: Option<CapturedScope>,
    pub captured_scope_len: usize,
    pub scope: Scope,
}

/// An activation record for one in-progress chunk call.
#[derive(Clone, Copy, Debug, PartialEq, Eq, Structural)]
pub struct Frame {
    pub cur_instr_index: usize,
    pub chunk: Chunk,
    pub local_scope: Scope,
    pub captured_scope: Option<CapturedScope>,
    /// The lowest operand-stack height seen while this frame has run: the
    /// machine lowers it after every step.  When the frame's instruction
    /// stream is exhausted with the stack no taller than this mark, the
    /// chunk left zero residual values, and the call's result is the
    /// canonical empty value.  The call protocol starts it at the stack
    /// height the callee sees on entry.
    pub low_water: usize,
}

impl Scope {
    /// A fresh scope of `vars_len` slots.  Unset slots read as
    /// `Boolean(false)`: the placeholder this runtime uses for "no value
    /// written yet".
    pub fn new(arena: &mut Arena, vars_len: usize) -> (r: Scope)
        requires
            old(arena).wf(),
        ensures
            final(arena).wf(),
            final(arena)@.extends(old(arena)@),
            final(arena)@ == (ArenaM {
                scopes: old(arena)@.scopes.push(
                    Seq::new(vars_len as nat, |i: int| Value::Boolean(false)),
                ),
                ..old(arena)@
            }),
            r.id == old(arena)@.scopes.len(),
    {
        let ghost a1 = arena@;
        let mut slots: Vec<Value> = Vec::new();
        let mut k: usize = 0;
        while k < vars_len
            invariant
                k <= vars_len,
                slots@ =~= Seq::new(k as nat, |i: int| Value::Boolean(false)),
            decreases vars_len - k,
        {
            slots.push(Value::Boolean(false));
            k += 1;
        }
        let id = arena.scopes.len();
        arena.scopes.push(slots);
        proof {
            let a2 = arena@;
            assert(a2 =~~= (ArenaM {
                scopes: a1.scopes.push(Seq::new(vars_len as nat, |i: int| Value::Boolean(false))),
                ..a1
            }));
            lemma_wf_alloc(a1, a2);
        }
        Scope { id }
    }

    /// Writes `value` into slot `var`; `InvalidVar` past the end, with
    /// nothing changed.
    pub fn set(&self, arena: &mut Arena, var: usize, value: Value) -> (r: Result<(), Error>)
        requires
            old(arena).wf(),
            self.id < old(arena)@.scopes.len(),
            value.wf(old(arena)@),
        ensures
            final(arena).wf(),
            final(arena)@.extends(old(arena)@),
            if var < old(arena)@.scopes[self.id as int].len() {
                r == Ok::<(), Error>(()) && final(arena)@ == (ArenaM {
                    scopes: old(arena)@.scopes.update(
                        self.id as int,
                        old(arena)@.scopes[self.id as int].update(var as int, value),
                    ),
                    ..old(arena)@
                })
            } else {
                r == Err::<(), Error>(Error::InvalidVar { var }) && final(arena)@ == old(arena)@
            },
    {
        let ghost a1 = arena@;
        let row = &mut arena.scopes[self.id];
        if var < row.len() {
            row.set(var, value);
            proof {
                let a2 = arena@;
                assert(a2 =~~= (ArenaM {
                    scopes: a1.scopes.update(
                        self.id as int,
                        a1.scopes[self.id as int].update(var as int, value),
                    ),
                    ..a1
                }));
                lemma_wf_scope_set(a1, a2, self.id as int, var as int, value);
            }
            Ok(())
        } else {
            proof {
                assert(arena@ =~~= a1);
            }
            Err(Error::InvalidVar { var })
        }
    }

    /// Reads slot `var`; `InvalidVar` past the end.
    pub fn get(&self, arena: &Arena, var: usize) -> (r: Result<Value, Error>)
        requires
            arena.wf(),
            self.id < arena@.scopes.len(),
        ensures
            r == if var < arena@.scopes[self.id as int].len() {
                Ok::<Value, Error>(arena@.scopes[self.id as int][var as int])
            } else {
                Err::<Value, Error>(Error::InvalidVar { var })
            },
            r matches Ok(v) ==> v.wf(arena@),
    {
        let row = &arena.scopes[self.id];
        if var < row.len() {
            Ok(row[var])
        } else {
            Err(Error::InvalidVar { var })
        }
    }
}

/// The level `parents` links up the chain from `c`, if the chain is that
/// deep.
pub open spec fn resolve(a: ArenaM, c: CapturedScope, parents: nat) -> Option<CapturedScope>
    decreases parents,
{
    if parents == 0 {
        Some(c)
    } else {
        match a.captures[c.id as int].parent_scope {
            Some(p) => resolve(a, p, (parents - 1) as nat),
            None => None,
        }
    }
}

impl CapturedScope {
    /// A fresh link capturing `scope` up to `captured_scope_len` slots, over
    /// the enclosing chain `parent_scope`.
    pub fn new(
        arena: &mut Arena,
        scope: Scope,
        captured_scope_len: usize,
        parent_scope: Option<CapturedScope>,
    ) -> (r: CapturedScope)
        requires
            old(arena).wf(),
            scope.id < old(arena)@.scopes.len(),
            captured_scope_len <= old(arena)@.scopes[scope.id as int].len(),
            parent_scope matches Some(p) ==> p.id < old(arena)@.captures.len(),
        ensures
            final(arena).wf(),
            final(arena)@.extends(old(arena)@),
            final(arena)@ == (ArenaM {
                captures: old(arena)@.captures.push(
                    CapturedScopeData { parent_scope, captured_scope_len, scope },
                ),
                ..old(arena)@
            }),
            r.id == old(arena)@.captures.len(),
    {
        let ghost a1 = arena@;
        let id = arena.captures.len();
        arena.captures.push(CapturedScopeData { parent_scope, captured_scope_len, scope });
        proof {
            let a2 = arena@;
            assert(a2 =~~= (ArenaM {
                captures: a1.captures.push(
                    CapturedScopeData { parent_scope, captured_scope_len, scope },
                ),
                ..a1
            }));
            lemma_wf_alloc(a1, a2);
        }
        CapturedScope { id }
    }

    /// Walks `parents` links up the chain, then writes `value` into slot
    /// `var` of the scope there.  `InvalidParent` when the chain is too
    /// shallow, `InvalidVar` when `var` exceeds the captured length at that
    /// level; on an error nothing changes.
    pub fn set(&self, arena: &mut Arena, parents: usize, var: usize, value: Value) -> (r: Result<
        (),
        Error,
    >)
        requires
            old(arena).wf(),
            self.id < old(arena)@.captures.len(),
            value.wf(old(arena)@),
        ensures
            final(arena).wf(),
            final(arena)@.extends(old(arena)@),
            match resolve(old(arena)@, *self, parents as nat) {
                None => r == Err::<(), Error>(Error::InvalidParent) && final(arena)@ == old(arena)@,
                Some(level) => {
                    let cell = old(arena)@.captures[level.id as int];
                    if var < cell.captured_scope_len {
                        r == Ok::<(), Error>(()) && final(arena)@ == (ArenaM {
                            scopes: old(arena)@.scopes.update(
                                cell.scope.id as int,
                                old(arena)@.scopes[cell.scope.id as int].update(var as int, value),
                            ),
                            ..old(arena)@
                        })
                    } else {
                        r == Err::<(), Error>(Error::InvalidVar { var }) && final(arena)@ == old(arena)@
                    }
                },
            },
    {
        let level = match self.walk(arena, parents) {
            Ok(level) => level,
            Err(e) => {
                return Err(e);
            },
        };
        let cell = arena.captures[level.id];
        if var < cell.captured_scope_len {
            proof {
                assert(capture_wf(arena@.captures[level.id as int], arena@));
            }
            let r = cell.scope.set(arena, var, value);
            proof {
                assert(r == Ok::<(), Error>(()));
            }
            r
        } else {
            Err(Error::InvalidVar { var })
        }
    }

    /// Walks `parents` links up the chain, then reads slot `var` of the
    /// scope there; the errors are as for `set`.
    pub fn get(&self, arena: &Arena, parents: usize, var: usize) -> (r: Result<Value, Error>)
        requires
            arena.wf(),
            self.id < arena@.captures.len(),
        ensures
            r == match resolve(arena@, *self, parents as nat) {
                None => Err::<Value, Error>(Error::InvalidParent),
                Some(level) => {
                    let cell = arena@.captures[level.id as int];
                    if var < cell.captured_scope_len {
                        Ok::<Value, Error>(arena@.scopes[cell.scope.id as int][var as int])
                    } else {
                        Err::<Value, Error>(Error::InvalidVar { var })
                    }
                },
            },
            r matches Ok(v) ==> v.wf(arena@),
    {
        let level = match self.walk(arena, parents) {
            Ok(level) => level,
            Err(e) => {
                return Err(e);
            },
        };
        let cell = arena.captures[level.id];
        if var < cell.captured_scope_len {
            proof {
                assert(capture_wf(arena@.captures[level.id as int], arena@));
            }
            let r = cell.scope.get(arena, var);
            proof {
                assert(r matches Ok(_));
            }
            r
        } else {
            Err(Error::InvalidVar { var })
        }
    }

    /// The iterative walk `parents` links up the chain; `InvalidParent` when
    /// it steps past the top.
    fn walk(&self, arena: &Arena, parents: usize) -> (r: Result<CapturedScope, Error>)
        requires
            arena.wf(),
            self.id < arena@.captures.len(),
        ensures
            r == match resolve(arena@, *self, parents as nat) {
                Some(level) => Ok::<CapturedScope, Error>(level),
                None => Err::<CapturedScope, Error>(Error::InvalidParent),
            },
            r matches Ok(level) ==> level.id < arena@.captures.len(),
    {
        let mut cur: CapturedScope = *self;
        let mut k: usize = 0;
        while k < parents
            invariant
                arena.wf(),
                k <= parents,
                cur.id < arena@.captures.len(),
                resolve(arena@, *self, parents as nat) == resolve(
                    arena@,
                    cur,
                    (parents - k) as nat,
                ),
            decreases parents - k,
        {
            let cell = arena.captures[cur.id];
            proof {
                assert(capture_wf(arena@.captures[cur.id as int], arena@));
            }
            match cell.parent_scope {
                Some(p) => {
                    cur = p;
                },
                None => {
                    return Err(Error::InvalidParent);
                },
            }
            k += 1;
        }
        Ok(cur)
    }
}

/// Captured-scope addressing, for a two-level chain `c0 -> c1`: zero parent
/// links resolve to the innermost level and one link to the enclosing one,
/// so `get`/`set` with `(parents = 0, var)` reach `c0`'s scope for
/// `var < L0` and with `(parents = 1, var)` reach `c1`'s scope for
/// `var < L1`, raise `InvalidVar` for `var` at or past the captured length
/// of the level, and raise `InvalidParent` for every deeper `parents`.
pub proof fn lemma_captured_scope_addressing(a: ArenaM, c0: CapturedScope, c1: CapturedScope)
    requires
        c0.id < a.captures.len(),
        c1.id < a.captures.len(),
        a.captures[c0.id as int].parent_scope == Some(c1),
        a.captures[c1.id as int].parent_scope is None,
    ensures
        resolve(a, c0, 0) == Some(c0),
        resolve(a, c0, 1) == Some(c1),
        forall|p: nat| p >= 2 ==> resolve(a, c0, p) is None,
{
    assert(resolve(a, c0, 1) == resolve(a, c1, 0));
    assert(resolve(a, c1, 0) == Some(c1));
    assert forall|p: nat| p >= 2 implies resolve(a, c0, p) is None by {
        assert(resolve(a, c0, p) == resolve(a, c1, (p - 1) as nat));
        lemma_resolve_none_past_top(a, c1, (p - 1) as nat);
    }
}

/// Walking one or more links from a chain top steps past it.
proof fn lemma_resolve_none_past_top(a: ArenaM, c: CapturedScope, parents: nat)
    requires
        a.captures[c.id as int].parent_scope is None,
        parents >= 1,
    ensures
        resolve(a, c, parents) is None,
{
}

impl Frame {
    /// An activation record at the start of `chunk`, with a fresh local
    /// scope and no captured chain.
    pub fn new(arena: &mut Arena, chunk: Chunk) -> (r: Frame)
        requires
            old(arena).wf(),
            chunk.id < old(arena)@.chunks.len(),
        ensures
            final(arena).wf(),
            final(arena)@.extends(old(arena)@),
            final(arena)@ == (ArenaM {
                scopes: old(arena)@.scopes.push(
                    Seq::new(
                        old(arena)@.chunks[chunk.id as int].local_scope_len as nat,
                        |i: int| Value::Boolean(false),
                    ),
                ),
                ..old(arena)@
            }),
            r == (Frame {
                cur_instr_index: 0,
                chunk,
                local_scope: Scope { id: old(arena)@.scopes.len() as usize },
                captured_scope: None::<CapturedScope>,
                low_water: 0usize,
            }),
    {
        let vars_len = arena.chunks[chunk.id].local_scope_len;
        let local_scope = Scope::new(arena, vars_len);
        Frame { cur_instr_index: 0, chunk, local_scope, captured_scope: None, low_water: 0 }
    }

    /// As `new`, but inheriting the calling closure's captured chain.
    pub fn with_captured_scope(arena: &mut Arena, chunk: Chunk, captured_scope: CapturedScope) -> (r:
        Frame)
        requires
            old(arena).wf(),
            chunk.id < old(arena)@.chunks.len(),
            captured_scope.id < old(arena)@.captures.len(),
        ensures
            final(arena).wf(),
            final(arena)@.extends(old(arena)@),
            final(arena)@ == (ArenaM {
                scopes: old(arena)@.scopes.push(
                    Seq::new(
                        old(arena)@.chunks[chunk.id as int].local_scope_len as nat,
                        |i: int| Value::Boolean(false),
                    ),
                ),
                ..old(arena)@
            }),
            r == (Frame {
                cur_instr_index: 0,
                chunk,
                local_scope: Scope { id: old(arena)@.scopes.len() as usize },
                captured_scope: Some(captured_scope),
                low_water: 0usize,
            }),
    {
        let vars_len = arena.chunks[chunk.id].local_scope_len;
        let local_scope = Scope::new(arena, vars_len);
        Frame {
            cur_instr_index: 0,
            chunk,
            local_scope,
            captured_scope: Some(captured_scope),
            low_water: 0,
        }
    }

    /// Fetches the instruction under the instruction pointer and advances
    /// it; `None` once the chunk's instruction stream is exhausted.
    pub fn step(&mut self, arena: &Arena) -> (r: Option<Instr>)
        requires
            arena.wf(),
            old(self).chunk.id < arena@.chunks.len(),
        ensures
            ({
                let instrs = arena@.chunks[old(self).chunk.id as int].instrs;
                if old(self).cur_instr_index < instrs.len() {
                    r == Some(instrs[old(self).cur_instr_index as int]) && *final(self) == (Frame {
                        cur_instr_index: (old(self).cur_instr_index + 1) as usize,
                        ..*old(self)
                    })
                } else {
                    r == None::<Instr> && *final(self) == *old(self)
                }
            }),
    {
        let chunk = &arena.chunks[self.chunk.id];
        if self.cur_instr_index < chunk.instrs.len() {
            let instr = chunk.instrs[self.cur_instr_index];
            self.cur_instr_index += 1;
            Some(instr)
        } else {
            None
        }
    }

    /// The frame's local scope, the one closures created here may capture.
    pub fn local_scope(&self) -> (r: Scope)
        ensures
            r == self.local_scope,
    {
        self.local_scope
    }
}

} // verus!
