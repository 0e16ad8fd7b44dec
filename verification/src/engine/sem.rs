//! The small-step operational semantics of the machine, as a mathematical
//! step function over machine states.  The executable dispatch loop in
//! `machine` is proved to follow these steps exactly, and the machine-level
//! laws at the end of this module are stated and proved over them.

use vstd::prelude::*;

use vstd::arithmetic::div_mod::lemma_div_basics;
use vstd::arithmetic::div_mod::lemma_div_decreases;
use vstd::arithmetic::div_mod::lemma_div_nonincreasing;
use vstd::arithmetic::div_mod::lemma_div_pos_is_pos;

use crate::arena::ArenaM;
use crate::engine::error::Error;
use crate::engine::error::OperandKind;
use crate::engine::frame::Frame;
use crate::engine::frame::Scope;
use crate::engine::machine::ArithOp;
use crate::engine::machine::Machine;
use crate::engine::machine::Operand;
use crate::fun::External;
use crate::fun::Fun;
use crate::fun::FunProto;
use crate::instr::Instr;
use crate::value::Opt;
use crate::value::OptionData;
use crate::value::Value;

verus! {

/// A machine state: the operand stack, the frame stack, and the heap.
#[verifier::ext_equal]
pub ghost struct StateM {
    pub ops: Seq<Operand>,
    pub frames: Seq<Frame>,
    pub arena: ArenaM,
}

/// How a run ends: the frame stack drained, a request the host must answer
/// (float arithmetic or an external call), or a fault.
#[verifier::ext_equal]
pub ghost enum OutcomeM {
    Done,
    FloatReq { op: ArithOp, left: Value, right: Value },
    ExtReq { external: External, args: Seq<Value> },
    Failed(Error),
}

/// One step: the machine moves to the next state, or stops with an outcome.
#[verifier::ext_equal]
pub ghost enum StepRes {
    Next(StateM),
    Stop(StateM, OutcomeM),
}

/// The machine state a machine and a heap denote.
pub open spec fn state_of(m: Machine, a: ArenaM) -> StateM {
    StateM { ops: m.operand_stack@, frames: m.frame_stack@, arena: a }
}

/// True when the whole state is well formed: heap, operands and frames.
pub open spec fn state_wf(s: StateM) -> bool {
    &&& s.arena.wf()
    &&& forall|i: int| 0 <= i < s.ops.len() ==> (#[trigger] s.ops[i]).wf(s.arena)
    &&& forall|i: int| 0 <= i < s.frames.len() ==> (#[trigger] s.frames[i]).wf(s.arena)
}

/// Pops one value operand: the value and the rest, or the error.
pub open spec fn pop1_value(ops: Seq<Operand>) -> Result<(Value, Seq<Operand>), Error> {
    if ops.len() == 0 {
        Err(Error::EmptyOperandStack)
    } else {
        match ops.last() {
            Operand::Value(v) => Ok((v, ops.drop_last())),
            op => Err(
                Error::InvalidOperandKind {
                    expected: OperandKind::Value,
                    received: op.kind_spec(),
                },
            ),
        }
    }
}

/// Pops the right then the left value operand.
pub open spec fn pop2_values(ops: Seq<Operand>) -> Result<(Value, Value, Seq<Operand>), Error> {
    match pop1_value(ops) {
        Err(e) => Err(e),
        Ok((right, ops1)) => match pop1_value(ops1) {
            Err(e) => Err(e),
            Ok((left, ops2)) => Ok((left, right, ops2)),
        },
    }
}

/// Integer arithmetic: two's-complement wrapping for sum, difference and
/// product; truncating division, with the one overflowing quotient wrapping
/// and a zero divisor refused (`None`, reported as `TypeMismatch`).
pub open spec fn int_arith(op: ArithOp, l: i64, r: i64) -> Option<i64> {
    match op {
        ArithOp::Add => Some(l.wrapping_add(r)),
        ArithOp::Subtract => Some(l.wrapping_sub(r)),
        ArithOp::Multiply => Some(l.wrapping_mul(r)),
        ArithOp::Divide => if r == 0 {
            None
        } else if l == i64::MIN && r == -1 {
            Some(i64::MIN)
        } else {
            i64::checked_div(l, r)
        },
    }
}

/// What one arithmetic opcode does to its two popped operands.
#[verifier::ext_equal]
pub ghost enum ArithRes {
    /// Both integers: push this value.
    Push(Value),
    /// At least one float among numerics: ask the host for the float result.
    Float,
    /// Unsupported operands, or an integer division by zero.
    Fail,
}

/// The typing of arithmetic: integer pairs stay integral, any mix with a
/// float goes to the host's float unit, everything else is a type error.
pub open spec fn arith_step(op: ArithOp, l: Value, r: Value) -> ArithRes {
    match (l, r) {
        (Value::Integer(a), Value::Integer(b)) => match int_arith(op, a, b) {
            Some(q) => ArithRes::Push(Value::Integer(q)),
            None => ArithRes::Fail,
        },
        (Value::Integer(_), Value::Float(_)) => ArithRes::Float,
        (Value::Float(_), Value::Integer(_)) => ArithRes::Float,
        (Value::Float(_), Value::Float(_)) => ArithRes::Float,
        _ => ArithRes::Fail,
    }
}

/// How a call attempt ends: a fault with nothing consumed, entry into a new
/// frame, or a request to run an external callable.
#[verifier::ext_equal]
pub ghost enum CallRes {
    Fail(Error),
    Enter(StateM),
    Ext(StateM, External, Seq<Value>),
}

/// The first fault among the staged arguments, scanned from the top of the
/// stack: each of the `n` entries must be a value operand.
pub open spec fn args_ok(ops: Seq<Operand>, n: int) -> Option<Error>
    decreases n,
{
    if n <= 0 {
        None
    } else {
        match ops.last() {
            Operand::Value(_) => args_ok(ops.drop_last(), n - 1),
            op => Some(
                Error::InvalidOperandKind {
                    expected: OperandKind::Value,
                    received: op.kind_spec(),
                },
            ),
        }
    }
}

/// The payload of a value operand.
pub open spec fn operand_value(op: Operand) -> Value {
    match op {
        Operand::Value(v) => v,
        _ => Value::Boolean(false),
    }
}

/// The staged arguments in the order they were pushed: the first pushed
/// becomes argument zero.
pub open spec fn arg_values(ops: Seq<Operand>, n: int) -> Seq<Value> {
    Seq::new(n as nat, |i: int| operand_value(ops[ops.len() - n + i]))
}

/// The call protocol on `Call(arity)`: stage `arity` values and one callee
/// operand, validate them, then enter the callee's chunk or hand an external
/// call to the host.  Every fault leaves the state untouched — in
/// particular, a `WrongArity` fault pops nothing, not even the staged
/// arguments.
pub open spec fn call_eff(s: StateM, arity: u8) -> CallRes {
    let n = arity as int;
    if s.ops.len() < n + 1 {
        CallRes::Fail(Error::EmptyOperandStack)
    } else {
        match args_ok(s.ops, n) {
            Some(e) => CallRes::Fail(e),
            None => match s.ops[s.ops.len() - n - 1] {
                Operand::Fun(f) => call_fun(s, arity, f),
                Operand::Method(m) => if s.arena.funs[m.0.id as int].is_method {
                    call_fun(s, arity, m.0)
                } else {
                    CallRes::Fail(
                        Error::MethodNotFound { ident: s.arena.funs[m.0.id as int].ident },
                    )
                },
                other => CallRes::Fail(
                    Error::InvalidOperandKind {
                        expected: OperandKind::Fun,
                        received: other.kind_spec(),
                    },
                ),
            },
        }
    }
}

/// The tail of the call protocol once the callee function is known.
pub open spec fn call_fun(s: StateM, arity: u8, f: Fun) -> CallRes {
    let n = arity as int;
    let fd = s.arena.funs[f.id as int];
    let args = arg_values(s.ops, n);
    let rest = s.ops.take(s.ops.len() - n - 1);
    if fd.arity != arity {
        CallRes::Fail(Error::WrongArity { expected: fd.arity, received: arity })
    } else {
        match fd.proto {
            FunProto::External(e) => CallRes::Ext(StateM { ops: rest, ..s }, e, args),
            FunProto::Chunk(c) => {
                let local_len = s.arena.chunks[c.id as int].local_scope_len;
                if n > local_len {
                    CallRes::Fail(Error::InvalidVar { var: local_len })
                } else {
                    CallRes::Enter(
                        StateM {
                            ops: rest,
                            frames: s.frames.push(
                                Frame {
                                    cur_instr_index: 0,
                                    chunk: c,
                                    local_scope: Scope { id: s.arena.scopes.len() as usize },
                                    captured_scope: None,
                                    low_water: rest.len() as usize,
                                },
                            ),
                            arena: ArenaM {
                                scopes: s.arena.scopes.push(
                                    Seq::new(
                                        local_len as nat,
                                        |i: int|
                                            if i < n {
                                                args[i]
                                            } else {
                                                Value::Boolean(false)
                                            },
                                    ),
                                ),
                                ..s.arena
                            },
                        },
                    )
                }
            },
        }
    }
}

/// After a step, the top frame's low-water mark takes the new stack height
/// into account.
pub open spec fn settle(s: StateM) -> StateM {
    if s.frames.len() == 0 {
        s
    } else {
        let f = s.frames.last();
        let low = if s.ops.len() < f.low_water {
            s.ops.len() as usize
        } else {
            f.low_water
        };
        StateM {
            frames: s.frames.update(s.frames.len() - 1, Frame { low_water: low, ..f }),
            ..s
        }
    }
}

/// One machine step: drain a finished frame, or fetch the instruction under
/// the top frame's pointer, advance the pointer and dispatch; afterwards the
/// top frame's low-water mark is settled.
pub open spec fn step(s: StateM) -> StepRes {
    match step_raw(s) {
        StepRes::Next(t) => StepRes::Next(settle(t)),
        StepRes::Stop(t, o) => StepRes::Stop(settle(t), o),
    }
}

/// The step before settling.  A frame whose instruction stream is exhausted
/// is dropped; when the operand stack is then no taller than the frame's
/// low-water mark, the chunk left zero residual values and the canonical
/// empty value — a fresh optional cell in the none state — is pushed as the
/// call's result.
pub open spec fn step_raw(s: StateM) -> StepRes {
    if s.frames.len() == 0 {
        StepRes::Stop(s, OutcomeM::Done)
    } else {
        let f = s.frames.last();
        let ch = s.arena.chunks[f.chunk.id as int];
        if f.cur_instr_index >= ch.instrs.len() {
            if s.ops.len() <= f.low_water {
                StepRes::Next(
                    StateM {
                        ops: s.ops.push(
                            Operand::Value(Value::Opt(Opt { id: s.arena.opts.len() as usize })),
                        ),
                        frames: s.frames.drop_last(),
                        arena: ArenaM { opts: s.arena.opts.push(OptionData::Absent), ..s.arena },
                    },
                )
            } else {
                StepRes::Next(StateM { frames: s.frames.drop_last(), ..s })
            }
        } else {
            let s1 = StateM {
                frames: s.frames.update(
                    s.frames.len() - 1,
                    Frame { cur_instr_index: (f.cur_instr_index + 1) as usize, ..f },
                ),
                ..s
            };
            step_instr(s1, ch.instrs[f.cur_instr_index as int], f)
        }
    }
}

/// The effect of one fetched instruction on the state `s1` (the instruction
/// pointer already advanced); `f` is the frame it was fetched from.
pub open spec fn step_instr(s1: StateM, instr: Instr, f: Frame) -> StepRes {
    match instr {
        Instr::PushValue { value } => StepRes::Next(
            StateM { ops: s1.ops.push(Operand::Value(value)), ..s1 },
        ),
        Instr::PushMod { modu } => StepRes::Next(
            StateM { ops: s1.ops.push(Operand::Modu(modu)), ..s1 },
        ),
        Instr::PushFn { fun } => StepRes::Next(
            StateM { ops: s1.ops.push(Operand::Fun(fun)), ..s1 },
        ),
        Instr::Pop => match pop1_value(s1.ops) {
            Ok((_, ops)) => StepRes::Next(StateM { ops, ..s1 }),
            Err(e) => StepRes::Stop(s1, OutcomeM::Failed(e)),
        },
        Instr::PushVar { var } => {
            let row = s1.arena.scopes[f.local_scope.id as int];
            if var < row.len() {
                StepRes::Next(StateM { ops: s1.ops.push(Operand::Value(row[var as int])), ..s1 })
            } else {
                StepRes::Stop(s1, OutcomeM::Failed(Error::InvalidVar { var }))
            }
        },
        Instr::PopVar { var } => match pop1_value(s1.ops) {
            Err(e) => StepRes::Stop(s1, OutcomeM::Failed(e)),
            Ok((v, ops)) => {
                let row = s1.arena.scopes[f.local_scope.id as int];
                if var < row.len() {
                    StepRes::Next(
                        StateM {
                            ops,
                            arena: ArenaM {
                                scopes: s1.arena.scopes.update(
                                    f.local_scope.id as int,
                                    row.update(var as int, v),
                                ),
                                ..s1.arena
                            },
                            ..s1
                        },
                    )
                } else {
                    StepRes::Stop(s1, OutcomeM::Failed(Error::InvalidVar { var }))
                }
            },
        },
        Instr::Add => step_arith(s1, ArithOp::Add),
        Instr::Subtract => step_arith(s1, ArithOp::Subtract),
        Instr::Multiply => step_arith(s1, ArithOp::Multiply),
        Instr::Divide => step_arith(s1, ArithOp::Divide),
        Instr::Call { arity } => match call_eff(s1, arity) {
            CallRes::Fail(e) => StepRes::Stop(s1, OutcomeM::Failed(e)),
            CallRes::Enter(s2) => StepRes::Next(s2),
            CallRes::Ext(s2, e, args) => StepRes::Stop(s2, OutcomeM::ExtReq { external: e, args }),
        },
    }
}

/// The effect of one arithmetic opcode on the state.
pub open spec fn step_arith(s1: StateM, op: ArithOp) -> StepRes {
    match pop2_values(s1.ops) {
        Err(e) => StepRes::Stop(s1, OutcomeM::Failed(e)),
        Ok((left, right, ops)) => match arith_step(op, left, right) {
            ArithRes::Push(v) => StepRes::Next(StateM { ops: ops.push(Operand::Value(v)), ..s1 }),
            ArithRes::Float => StepRes::Stop(
                StateM { ops, ..s1 },
                OutcomeM::FloatReq { op, left, right },
            ),
            ArithRes::Fail => StepRes::Stop(s1, OutcomeM::Failed(Error::TypeMismatch)),
        },
    }
}

/// `k` machine steps from `s`: the state reached, or the first stop.
pub open spec fn multi(s: StateM, k: nat) -> StepRes
    decreases k,
{
    if k == 0 {
        StepRes::Next(s)
    } else {
        match multi(s, (k - 1) as nat) {
            StepRes::Next(t) => step(t),
            r => r,
        }
    }
}

/// A signed division whose divisor is not zero, and which is not the one
/// overflowing quotient, always has an in-range result.
pub proof fn lemma_int_div_fits(a: i64, b: i64)
    requires
        b != 0,
        !(a == i64::MIN && b == -1),
    ensures
        i64::checked_div(a, b) is Some,
{
    let x = a as int;
    let d = b as int;
    if x == 0 {
    } else if x > 0 && d > 0 {
        lemma_div_pos_is_pos(x, d);
        lemma_div_nonincreasing(x, d);
    } else if x < 0 && d < 0 {
        lemma_div_pos_is_pos(x * -1, d * -1);
        if d == -1 {
            lemma_div_basics(x * -1);
        } else {
            lemma_div_decreases(x * -1, d * -1);
        }
    } else if x < 0 {
        lemma_div_pos_is_pos(x * -1, d);
        lemma_div_nonincreasing(x * -1, d);
    } else {
        lemma_div_pos_is_pos(x, d * -1);
        lemma_div_nonincreasing(x, d * -1);
    }
}

/// When the argument scan finds no fault, the top `n` operands are values.
pub proof fn lemma_args_ok_values(ops: Seq<Operand>, n: int)
    requires
        0 <= n <= ops.len(),
        args_ok(ops, n) is None,
    ensures
        forall|i: int| ops.len() - n <= i < ops.len() ==> (#[trigger] ops[i]) is Value,
    decreases n,
{
    if n > 0 {
        assert(ops.last() is Value);
        lemma_args_ok_values(ops.drop_last(), n - 1);
        assert forall|i: int| ops.len() - n <= i < ops.len() implies (#[trigger] ops[i]) is Value by {
            if i < ops.len() - 1 {
                assert(ops.drop_last()[i] == ops[i]);
            }
        }
    }
}

/// Stack discipline: a chunk of `PushValue(v)` followed by `Pop`, entered
/// fresh, runs its two instructions and drains its frame, and the operand
/// stack is exactly what it was — beneath the call's result on top, which is
/// the canonical empty value, since the chunk left zero residual values.
pub proof fn lemma_push_pop_stack_discipline(s: StateM, v: Value, f: Frame, rest: Seq<Frame>)
    requires
        s.frames == rest.push(f),
        f.cur_instr_index == 0,
        f.low_water == s.ops.len(),
        f.chunk.id < s.arena.chunks.len(),
        s.arena.chunks[f.chunk.id as int].instrs == seq![
            Instr::PushValue { value: v },
            Instr::Pop,
        ],
    ensures
        multi(s, 3) matches StepRes::Next(t) && t.ops.drop_last() == s.ops && t.ops.last()
            == Operand::Value(Value::Opt(Opt { id: s.arena.opts.len() as usize })) && t.arena == (
        ArenaM { opts: s.arena.opts.push(OptionData::Absent), ..s.arena }) && t.frames.len()
            == rest.len(),
{
    let f1 = Frame { cur_instr_index: 1, ..f };
    let f2 = Frame { cur_instr_index: 2, ..f };
    let sa = StateM {
        ops: s.ops.push(Operand::Value(v)),
        frames: s.frames.update(s.frames.len() - 1, f1),
        ..s
    };
    let sb = StateM { frames: s.frames.update(s.frames.len() - 1, f2), ..s };
    let tu = StateM {
        ops: s.ops.push(Operand::Value(Value::Opt(Opt { id: s.arena.opts.len() as usize }))),
        frames: sb.frames.drop_last(),
        arena: ArenaM { opts: s.arena.opts.push(OptionData::Absent), ..s.arena },
    };
    assert(s.frames.last() == f);
    assert(step(s) == StepRes::Next(sa)) by {
        let s1 = StateM { frames: s.frames.update(s.frames.len() - 1, f1), ..s };
        assert(StateM { ops: s1.ops.push(Operand::Value(v)), ..s1 } =~~= sa);
        assert(settle(sa) =~~= sa) by {
            assert(sa.frames.last() == f1);
            assert(sa.frames.update(
                sa.frames.len() - 1,
                Frame { low_water: f1.low_water, ..f1 },
            ) =~= sa.frames);
        }
    }
    assert(sa.frames.last() == f1);
    assert(step(sa) == StepRes::Next(sb)) by {
        let sa1 = StateM { frames: sa.frames.update(sa.frames.len() - 1, f2), ..sa };
        assert(pop1_value(sa1.ops) == Ok::<_, Error>((v, s.ops))) by {
            assert(sa1.ops.last() == Operand::Value(v));
            assert(sa1.ops.drop_last() =~= s.ops);
        }
        assert(StateM { ops: s.ops, ..sa1 } =~~= sb);
        assert(settle(sb) =~~= sb) by {
            assert(sb.frames.last() == f2);
            assert(sb.frames.update(
                sb.frames.len() - 1,
                Frame { low_water: f2.low_water, ..f2 },
            ) =~= sb.frames);
        }
    }
    assert(sb.frames.last() == f2);
    assert(step(sb) == StepRes::Next(settle(tu))) by {
        assert(sb.ops.len() <= f2.low_water);
        assert(StateM {
            ops: sb.ops.push(
                Operand::Value(Value::Opt(Opt { id: sb.arena.opts.len() as usize })),
            ),
            frames: sb.frames.drop_last(),
            arena: ArenaM { opts: sb.arena.opts.push(OptionData::Absent), ..sb.arena },
        } =~~= tu);
    }
    assert(multi(s, 1) == StepRes::Next(sa)) by {
        assert(multi(s, 0) == StepRes::Next(s));
    }
    assert(multi(s, 2) == StepRes::Next(sb));
    assert(multi(s, 3) == StepRes::Next(settle(tu)));
    assert(settle(tu).ops == tu.ops);
    assert(settle(tu).arena == tu.arena);
    assert(settle(tu).frames.len() == tu.frames.len());
    assert(tu.frames =~= rest);
    assert(tu.ops.drop_last() =~= s.ops);
}

/// Store/load round trip: a chunk of `PushValue(v); PopVar(k); PushVar(k)`,
/// entered fresh on a local scope whose slot `k` exists, leaves `v` on top
/// of the operand stack and `v` in slot `k`.
pub proof fn lemma_store_load_round_trip(s: StateM, v: Value, k: usize, f: Frame, rest: Seq<Frame>)
    requires
        s.frames == rest.push(f),
        f.cur_instr_index == 0,
        f.low_water <= s.ops.len(),
        f.chunk.id < s.arena.chunks.len(),
        s.arena.chunks[f.chunk.id as int].instrs == seq![
            Instr::PushValue { value: v },
            Instr::PopVar { var: k },
            Instr::PushVar { var: k },
        ],
        f.local_scope.id < s.arena.scopes.len(),
        k < s.arena.scopes[f.local_scope.id as int].len(),
    ensures
        ({
            let arena2 = ArenaM {
                scopes: s.arena.scopes.update(
                    f.local_scope.id as int,
                    s.arena.scopes[f.local_scope.id as int].update(k as int, v),
                ),
                ..s.arena
            };
            let t = StateM {
                ops: s.ops.push(Operand::Value(v)),
                frames: s.frames.update(s.frames.len() - 1, Frame { cur_instr_index: 3, ..f }),
                arena: arena2,
            };
            multi(s, 3) == StepRes::Next(t) && t.ops.last() == Operand::Value(v)
                && t.arena.scopes[f.local_scope.id as int][k as int] == v
        }),
{
    let sid = f.local_scope.id as int;
    let f1 = Frame { cur_instr_index: 1, ..f };
    let f2 = Frame { cur_instr_index: 2, ..f };
    let f3 = Frame { cur_instr_index: 3, ..f };
    let arena2 = ArenaM {
        scopes: s.arena.scopes.update(sid, s.arena.scopes[sid].update(k as int, v)),
        ..s.arena
    };
    let sa = StateM {
        ops: s.ops.push(Operand::Value(v)),
        frames: s.frames.update(s.frames.len() - 1, f1),
        ..s
    };
    let sb = StateM { ops: s.ops, frames: s.frames.update(s.frames.len() - 1, f2), arena: arena2 };
    let t = StateM {
        ops: s.ops.push(Operand::Value(v)),
        frames: s.frames.update(s.frames.len() - 1, f3),
        arena: arena2,
    };
    assert(s.frames.last() == f);
    assert(step(s) == StepRes::Next(sa)) by {
        let s1 = StateM { frames: s.frames.update(s.frames.len() - 1, f1), ..s };
        assert(StateM { ops: s1.ops.push(Operand::Value(v)), ..s1 } =~~= sa);
        assert(settle(sa) =~~= sa) by {
            assert(sa.frames.last() == f1);
            assert(sa.frames.update(
                sa.frames.len() - 1,
                Frame { low_water: f1.low_water, ..f1 },
            ) =~= sa.frames);
        }
    }
    assert(sa.frames.last() == f1);
    assert(step(sa) == StepRes::Next(sb)) by {
        let s1 = StateM { frames: sa.frames.update(sa.frames.len() - 1, f2), ..sa };
        assert(s1.frames =~= s.frames.update(s.frames.len() - 1, f2));
        assert(pop1_value(s1.ops) == Ok::<_, Error>((v, s.ops))) by {
            assert(s1.ops.last() == Operand::Value(v));
            assert(s1.ops.drop_last() =~= s.ops);
        }
        assert(StateM {
            ops: s.ops,
            arena: ArenaM {
                scopes: s1.arena.scopes.update(sid, s1.arena.scopes[sid].update(k as int, v)),
                ..s1.arena
            },
            ..s1
        } =~~= sb);
        assert(settle(sb) =~~= sb) by {
            assert(sb.frames.last() == f2);
            assert(sb.frames.update(
                sb.frames.len() - 1,
                Frame { low_water: f2.low_water, ..f2 },
            ) =~= sb.frames);
        }
    }
    assert(sb.frames.last() == f2);
    assert(step(sb) == StepRes::Next(t)) by {
        let s1 = StateM { frames: sb.frames.update(sb.frames.len() - 1, f3), ..sb };
        assert(s1.frames =~= s.frames.update(s.frames.len() - 1, f3));
        assert(arena2.scopes[sid][k as int] == v);
        assert(StateM { ops: s1.ops.push(Operand::Value(v)), ..s1 } =~~= t);
        assert(settle(t) =~~= t) by {
            assert(t.frames.last() == f3);
            assert(t.frames.update(
                t.frames.len() - 1,
                Frame { low_water: f3.low_water, ..f3 },
            ) =~= t.frames);
        }
    }
    assert(multi(s, 1) == StepRes::Next(sa)) by {
        assert(multi(s, 0) == StepRes::Next(s));
    }
    assert(multi(s, 2) == StepRes::Next(sb));
    assert(multi(s, 3) == StepRes::Next(t));
}

/// A stop is absorbing: once the walk has stopped, more steps change
/// nothing.  Together with the fuel clause of `run` this makes progress
/// arguments available to a caller: a run given at least as much fuel as a
/// program needs to stop cannot come back still running.
pub proof fn lemma_multi_stop_absorbs(s: StateM, k: nat, k2: nat)
    requires
        multi(s, k) is Stop,
        k <= k2,
    ensures
        multi(s, k2) == multi(s, k),
    decreases k2 - k,
{
    if k2 > k {
        lemma_multi_stop_absorbs(s, k, (k2 - 1) as nat);
    }
}

/// Arithmetic closure and typing: an integer pair yields an integer (the
/// one exception being division by zero, a fault); any mix of integer and
/// float, or two floats, becomes a float request to the host, whose answer
/// the driver pushes as a float; anything else is a `TypeMismatch` fault.
pub proof fn lemma_arith_typing(op: ArithOp, l: Value, r: Value)
    ensures
        (l matches Value::Integer(a) && r matches Value::Integer(b) && !(op == ArithOp::Divide
            && b == 0)) ==> (arith_step(op, l, r) matches ArithRes::Push(v) && v is Integer),
        (l matches Value::Integer(a) && r matches Value::Integer(b) && op == ArithOp::Divide && b
            == 0) ==> arith_step(op, l, r) is Fail,
        (l is Integer || l is Float) && (r is Integer || r is Float) && (l is Float
            || r is Float) ==> arith_step(op, l, r) is Float,
        !(l is Integer || l is Float) || !(r is Integer || r is Float) ==> arith_step(
            op,
            l,
            r,
        ) is Fail,
{
    match (l, r) {
        (Value::Integer(a), Value::Integer(b)) => {
            if !(op == ArithOp::Divide && b == 0) {
                if op == ArithOp::Divide && !(a == i64::MIN && b == -1) {
                    lemma_int_div_fits(a, b);
                }
                assert(int_arith(op, a, b) is Some);
            }
        },
        _ => {},
    }
}

/// Call arity check: when the staged callee declares arity `n` and the call
/// names a different `m`, the call fails with exactly
/// `WrongArity { expected: n, received: m }` and consumes nothing — the
/// staged argument values are still on the stack.
pub proof fn lemma_call_arity_check(s: StateM, m: u8, f: Fun)
    requires
        s.ops.len() >= m + 1,
        args_ok(s.ops, m as int) is None,
        s.ops[s.ops.len() - (m as int) - 1] == Operand::Fun(f),
        s.arena.funs[f.id as int].arity != m,
    ensures
        call_eff(s, m) == CallRes::Fail(
            Error::WrongArity { expected: s.arena.funs[f.id as int].arity, received: m },
        ),
{
}

} // verus!
