//! The stack machine: a LIFO stack of tagged operands, a stack of call
//! frames, and the dispatch loop that interprets chunk instructions.

use vstd::prelude::*;

use crate::arena::chunk_cell_wf;
use crate::arena::fun_cell_wf;
use crate::arena::lemma_wf_alloc;
use crate::arena::Arena;
use crate::arena::ArenaM;
use crate::engine::error::Error;
use crate::engine::error::OperandKind;
use crate::engine::frame::Frame;
use crate::engine::frame::Scope;
use crate::engine::sem::arg_values;
use crate::engine::sem::args_ok;
use crate::engine::sem::arith_step;
use crate::engine::sem::call_eff;
use crate::engine::sem::multi;
use crate::engine::sem::operand_value;
use crate::engine::sem::pop1_value;
use crate::engine::sem::pop2_values;
use crate::engine::sem::settle;
use crate::engine::sem::state_of;
use crate::engine::sem::step;
use crate::engine::sem::step_instr;
use crate::engine::sem::step_raw;
use crate::engine::sem::ArithRes;
use crate::engine::sem::CallRes;
use crate::engine::sem::OutcomeM;
use crate::engine::sem::StateM;
use crate::engine::sem::StepRes;
use crate::fun::External;
use crate::fun::Fun;
use crate::fun::FunProto;
use crate::instr::Instr;
use crate::modu::Modu;
use crate::value::Opt;
use crate::value::OptionData;
use crate::value::Value;

verus! {

/// The four arithmetic opcodes, as named in float requests.
#[derive(Clone, Copy, Debug, PartialEq, Eq, Structural)]
pub enum ArithOp {
    Add,
    Subtract,
    Multiply,
    Divide,
}

/// A request for the host's float unit: apply `op` to the two numeric
/// operands, at least one of which is a float, and hand the machine the
/// resulting float value.
#[derive(Clone, Copy, Debug, PartialEq, Eq, Structural)]
pub struct FloatReq {
    pub op: ArithOp,
    pub left: Value,
    pub right: Value,
}

/// How a bounded run of the machine ended: the frame stack drained, the
/// step budget exhausted with work remaining, or a request the host must
/// answer by pushing the resulting value and running on.
#[derive(Debug, PartialEq)]
pub enum Flow {
    Done,
    Running,
    FloatOp { op: ArithOp, left: Value, right: Value },
    ExternalCall { external: External, args: Vec<Value> },
}

/// A tagged entry of the operand stack.  Modules and functions ride the
/// stack as operands of their own so that compiled code can stage them for
/// calls without forcing them into `Value`.
#[derive(Clone, Copy, Debug, PartialEq, Eq, Structural)]
pub enum Operand {
    Modu(Modu),
    Fun(Fun),
    Method(Method),
    Value(Value),
}

/// A function staged for method dispatch: only method-flagged functions may
/// be invoked through it.
#[derive(Clone, Copy, Debug, PartialEq, Eq, Structural)]
pub struct Method(pub Fun);

impl Operand {
    /// The operand's kind, as named in operand-kind errors.
    pub fn kind(&self) -> (r: OperandKind)
        ensures
            r == self.kind_spec(),
    {
        match self {
            Operand::Modu(_) => OperandKind::Modu,
            Operand::Fun(_) => OperandKind::Fun,
            Operand::Method(_) => OperandKind::Method,
            Operand::Value(_) => OperandKind::Value,
        }
    }

    /// The operand's kind.
    pub open spec fn kind_spec(self) -> OperandKind {
        match self {
            Operand::Modu(_) => OperandKind::Modu,
            Operand::Fun(_) => OperandKind::Fun,
            Operand::Method(_) => OperandKind::Method,
            Operand::Value(_) => OperandKind::Value,
        }
    }

    /// True when every handle of the operand addresses a valid arena cell.
    pub open spec fn wf(self, a: ArenaM) -> bool {
        match self {
            Operand::Modu(m) => m.id < a.modus.len(),
            Operand::Fun(f) => f.id < a.funs.len(),
            Operand::Method(m) => m.0.id < a.funs.len(),
            Operand::Value(v) => v.wf(a),
        }
    }
}

/// The LIFO stack of operands.
pub struct OperandStack(pub Vec<Operand>);

impl View for OperandStack {
    type V = Seq<Operand>;

    open spec fn view(&self) -> Seq<Operand> {
        self.0@
    }
}

impl OperandStack {
    /// A fresh, empty stack.
    pub fn new() -> (r: OperandStack)
        ensures
            r@ == Seq::<Operand>::empty(),
    {
        OperandStack(Vec::new())
    }

    /// Pushes `operand` on top.
    pub fn push(&mut self, operand: Operand)
        ensures
            final(self)@ == old(self)@.push(operand),
    {
        self.0.push(operand);
    }

    /// Pops the top operand; `EmptyOperandStack` when there is none.
    pub fn pop(&mut self) -> (r: Result<Operand, Error>)
        ensures
            if old(self)@.len() > 0 {
                r == Ok::<Operand, Error>(old(self)@.last()) && final(self)@ == old(self)@.drop_last()
            } else {
                r == Err::<Operand, Error>(Error::EmptyOperandStack) && final(self)@ == old(self)@
            },
    {
        match self.0.pop() {
            Some(operand) => Ok(operand),
            None => Err(Error::EmptyOperandStack),
        }
    }
}

/// The machine: one operand stack and one frame stack.
pub struct Machine {
    pub operand_stack: OperandStack,
    pub frame_stack: Vec<Frame>,
}

impl Machine {
    /// True when every operand and frame addresses valid arena cells.
    pub open spec fn wf(self, a: ArenaM) -> bool {
        &&& forall|i: int|
            0 <= i < self.operand_stack@.len() ==> (#[trigger] self.operand_stack@[i]).wf(a)
        &&& forall|i: int| 0 <= i < self.frame_stack@.len() ==> (#[trigger] self.frame_stack@[i]).wf(
            a,
        )
    }

    /// A fresh machine with empty stacks.
    pub fn new() -> (r: Machine)
        ensures
            r.operand_stack@ == Seq::<Operand>::empty(),
            r.frame_stack@ == Seq::<Frame>::empty(),
    {
        Machine { operand_stack: OperandStack::new(), frame_stack: Vec::new() }
    }

    /// Pushes `value` onto the operand stack.
    pub fn value(&mut self, value: Value)
        ensures
            final(self).operand_stack@ == old(self).operand_stack@.push(Operand::Value(value)),
            final(self).frame_stack == old(self).frame_stack,
    {
        self.operand_stack.push(Operand::Value(value));
    }

    /// Pushes the value held in `frame`'s local slot `var`; `InvalidVar`
    /// past the end of the scope, with nothing changed.
    pub fn load(&mut self, arena: &Arena, frame: &Frame, var: usize) -> (r: Result<(), Error>)
        requires
            arena.wf(),
            frame.local_scope.id < arena@.scopes.len(),
        ensures
            final(self).frame_stack == old(self).frame_stack,
            ({
                let row = arena@.scopes[frame.local_scope.id as int];
                if var < row.len() {
                    r == Ok::<(), Error>(()) && final(self).operand_stack@ == old(self).operand_stack@.push(Operand::Value(row[var as int]))
                } else {
                    r == Err::<(), Error>(Error::InvalidVar { var }) && final(self).operand_stack@
                        == old(self).operand_stack@
                }
            }),
    {
        match frame.local_scope.get(arena, var) {
            Ok(v) => {
                self.operand_stack.push(Operand::Value(v));
                Ok(())
            },
            Err(e) => Err(e),
        }
    }

    /// Pops a value and stores it into `frame`'s local slot `var`.  The
    /// errors, in the order checked: `EmptyOperandStack`,
    /// `InvalidOperandKind` for a non-value on top, `InvalidVar` past the
    /// end of the scope; on an error nothing changes.
    pub fn store(&mut self, arena: &mut Arena, frame: &Frame, var: usize) -> (r: Result<(), Error>)
        requires
            old(self).wf(old(arena)@),
            old(arena).wf(),
            frame.local_scope.id < old(arena)@.scopes.len(),
        ensures
            final(arena).wf(),
            final(arena)@.extends(old(arena)@),
            final(self).wf(final(arena)@),
            final(self).frame_stack == old(self).frame_stack,
            ({
                let row = old(arena)@.scopes[frame.local_scope.id as int];
                match pop1_value(old(self).operand_stack@) {
                    Err(e) => r == Err::<(), Error>(e) && final(self).operand_stack@ == old(self).operand_stack@ && final(arena)@ == old(arena)@,
                    Ok((v, ops)) => if var < row.len() {
                        r == Ok::<(), Error>(()) && final(self).operand_stack@ == ops && final(arena)@ == (ArenaM {
                            scopes: old(arena)@.scopes.update(
                                frame.local_scope.id as int,
                                row.update(var as int, v),
                            ),
                            ..old(arena)@
                        })
                    } else {
                        r == Err::<(), Error>(Error::InvalidVar { var }) && final(self).operand_stack@ == old(self).operand_stack@ && final(arena)@ == old(arena)@
                    },
                }
            }),
    {
        let ghost m0 = *self;
        let ghost a0 = arena@;
        let len = self.operand_stack.0.len();
        if len == 0 {
            return Err(Error::EmptyOperandStack);
        }
        let top = self.operand_stack.0[len - 1];
        proof {
            assert(m0.operand_stack@.last() == top);
        }
        let v = match top {
            Operand::Value(v) => v,
            other => {
                return Err(
                    Error::InvalidOperandKind {
                        expected: OperandKind::Value,
                        received: other.kind(),
                    },
                );
            },
        };
        if var < arena.scopes[frame.local_scope.id].len() {
            let _ = self.operand_stack.0.pop();
            proof {
                assert(self.operand_stack@ =~= m0.operand_stack@.drop_last());
                assert(m0.operand_stack@[len - 1].wf(a0));
            }
            let res = frame.local_scope.set(arena, var, v);
            proof {
                assert(res == Ok::<(), Error>(()));
                assert forall|i: int| 0 <= i < self.operand_stack@.len() implies (
                #[trigger] self.operand_stack@[i]).wf(arena@) by {
                    assert(m0.operand_stack@[i].wf(a0));
                    lemma_operand_wf_extends(m0.operand_stack@[i], a0, arena@);
                }
                assert forall|i: int| 0 <= i < self.frame_stack@.len() implies (
                #[trigger] self.frame_stack@[i]).wf(arena@) by {
                    assert(m0.frame_stack@[i].wf(a0));
                }
            }
            Ok(())
        } else {
            Err(Error::InvalidVar { var })
        }
    }

    /// Discards the top value of the operand stack; `EmptyOperandStack` on
    /// an empty stack, `InvalidOperandKind` when the top is not a value, and
    /// then nothing changes.
    pub fn pop(&mut self) -> (r: Result<(), Error>)
        ensures
            final(self).frame_stack == old(self).frame_stack,
            match pop1_value(old(self).operand_stack@) {
                Ok((v, ops)) => r == Ok::<(), Error>(()) && final(self).operand_stack@ == ops,
                Err(e) => r == Err::<(), Error>(e) && final(self).operand_stack@ == old(self).operand_stack@,
            },
    {
        let len = self.operand_stack.0.len();
        if len == 0 {
            return Err(Error::EmptyOperandStack);
        }
        let top = self.operand_stack.0[len - 1];
        proof {
            assert(old(self).operand_stack@.last() == top);
        }
        match top {
            Operand::Value(_) => {
                let _ = self.operand_stack.0.pop();
                Ok(())
            },
            other => Err(
                Error::InvalidOperandKind { expected: OperandKind::Value, received: other.kind() },
            ),
        }
    }

    /// Pops right then left and applies one arithmetic opcode: an integer
    /// pair is computed here and pushed; a mix involving a float is handed
    /// back as a request the host answers by pushing the resulting float.
    fn arith(&mut self, op: ArithOp) -> (r: Result<Option<FloatReq>, Error>)
        ensures
            final(self).frame_stack == old(self).frame_stack,
            arith_post(*old(self), *final(self), op, r),
    {
        let len = self.operand_stack.0.len();
        if len == 0 {
            return Err(Error::EmptyOperandStack);
        }
        let right_op = self.operand_stack.0[len - 1];
        proof {
            assert(old(self).operand_stack@.last() == right_op);
        }
        let right = match right_op {
            Operand::Value(v) => v,
            other => {
                return Err(
                    Error::InvalidOperandKind {
                        expected: OperandKind::Value,
                        received: other.kind(),
                    },
                );
            },
        };
        if len == 1 {
            return Err(Error::EmptyOperandStack);
        }
        let left_op = self.operand_stack.0[len - 2];
        proof {
            assert(old(self).operand_stack@.drop_last().last() == left_op);
        }
        let left = match left_op {
            Operand::Value(v) => v,
            other => {
                return Err(
                    Error::InvalidOperandKind {
                        expected: OperandKind::Value,
                        received: other.kind(),
                    },
                );
            },
        };
        let ghost rest = old(self).operand_stack@.drop_last().drop_last();
        match (left, right) {
            (Value::Integer(a), Value::Integer(b)) => {
                let q: i64 = match op {
                    ArithOp::Add => a.wrapping_add(b),
                    ArithOp::Subtract => a.wrapping_sub(b),
                    ArithOp::Multiply => a.wrapping_mul(b),
                    ArithOp::Divide => {
                        if b == 0 {
                            return Err(Error::TypeMismatch);
                        }
                        if a == i64::MIN && b == -1 {
                            i64::MIN
                        } else {
                            match a.checked_div(b) {
                                Some(q) => q,
                                None => {
                                    proof {
                                        crate::engine::sem::lemma_int_div_fits(a, b);
                                        assert(false);
                                    }
                                    0
                                },
                            }
                        }
                    },
                };
                self.operand_stack.0.truncate(len - 2);
                proof {
                    assert(self.operand_stack@ =~= rest);
                }
                self.operand_stack.push(Operand::Value(Value::Integer(q)));
                Ok(None)
            },
            (Value::Integer(_), Value::Float(_))
            | (Value::Float(_), Value::Integer(_))
            | (Value::Float(_), Value::Float(_)) => {
                self.operand_stack.0.truncate(len - 2);
                proof {
                    assert(self.operand_stack@ =~= rest);
                }
                Ok(Some(FloatReq { op, left, right }))
            },
            _ => Err(Error::TypeMismatch),
        }
    }

    /// Pops right then left and pushes the sum; a float mix becomes a host
    /// request (see `arith`).
    pub fn add(&mut self) -> (r: Result<Option<FloatReq>, Error>)
        ensures
            final(self).frame_stack == old(self).frame_stack,
            arith_post(*old(self), *final(self), ArithOp::Add, r),
    {
        self.arith(ArithOp::Add)
    }

    /// Pops right then left and pushes the difference; a float mix becomes a
    /// host request (see `arith`).
    pub fn subtract(&mut self) -> (r: Result<Option<FloatReq>, Error>)
        ensures
            final(self).frame_stack == old(self).frame_stack,
            arith_post(*old(self), *final(self), ArithOp::Subtract, r),
    {
        self.arith(ArithOp::Subtract)
    }

    /// Pops right then left and pushes the product; a float mix becomes a
    /// host request (see `arith`).
    pub fn multiply(&mut self) -> (r: Result<Option<FloatReq>, Error>)
        ensures
            final(self).frame_stack == old(self).frame_stack,
            arith_post(*old(self), *final(self), ArithOp::Multiply, r),
    {
        self.arith(ArithOp::Multiply)
    }

    /// Pops right then left and pushes the quotient; a float mix becomes a
    /// host request (see `arith`).  Integer division truncates toward zero;
    /// a zero divisor is a `TypeMismatch` fault.
    pub fn divide(&mut self) -> (r: Result<Option<FloatReq>, Error>)
        ensures
            final(self).frame_stack == old(self).frame_stack,
            arith_post(*old(self), *final(self), ArithOp::Divide, r),
    {
        self.arith(ArithOp::Divide)
    }
}

/// The contract the four arithmetic operations share, phrased over the
/// semantic helpers: exactly `pop2_values` then `arith_step`, with every
/// fault leaving the machine untouched.
pub open spec fn arith_post(
    m1: Machine,
    m2: Machine,
    op: ArithOp,
    r: Result<Option<FloatReq>, Error>,
) -> bool {
    match pop2_values(m1.operand_stack@) {
        Err(e) => r == Err::<Option<FloatReq>, Error>(e) && m2.operand_stack@
            == m1.operand_stack@,
        Ok((left, right, ops)) => match arith_step(op, left, right) {
            ArithRes::Push(v) => r == Ok::<Option<FloatReq>, Error>(None) && m2.operand_stack@
                == ops.push(Operand::Value(v)),
            ArithRes::Float => r == Ok::<Option<FloatReq>, Error>(
                Some(FloatReq { op, left, right }),
            ) && m2.operand_stack@ == ops,
            ArithRes::Fail => r == Err::<Option<FloatReq>, Error>(Error::TypeMismatch)
                && m2.operand_stack@ == m1.operand_stack@,
        },
    }
}

/// Growing the heap keeps a well-formed operand well formed.
pub proof fn lemma_operand_wf_extends(op: Operand, a1: ArenaM, a2: ArenaM)
    requires
        op.wf(a1),
        a2.extends(a1),
    ensures
        op.wf(a2),
{
    match op {
        Operand::Value(v) => crate::arena::lemma_value_wf_extends(v, a1, a2),
        _ => {},
    }
}

/// Growing the heap keeps a well-formed machine well formed.
pub proof fn lemma_machine_wf_extends(m: Machine, a1: ArenaM, a2: ArenaM)
    requires
        m.wf(a1),
        a2.extends(a1),
    ensures
        m.wf(a2),
{
    assert forall|i: int| 0 <= i < m.operand_stack@.len() implies (
    #[trigger] m.operand_stack@[i]).wf(a2) by {
        assert(m.operand_stack@[i].wf(a1));
        lemma_operand_wf_extends(m.operand_stack@[i], a1, a2);
    }
    assert forall|i: int| 0 <= i < m.frame_stack@.len() implies (#[trigger] m.frame_stack@[i]).wf(
        a2,
    ) by {
        assert(m.frame_stack@[i].wf(a1));
    }
}

impl Machine {
    /// The call protocol on `Call(arity)`, exactly `call_eff`: validate the
    /// staged operands, then either push the callee chunk's frame
    /// (`Ok(None)`) or hand back an external call the host must run
    /// (`Ok(Some(..))`).  Every fault leaves machine and heap untouched.
    #[verifier::loop_isolation(false)]
    fn do_call(&mut self, arena: &mut Arena, arity: u8) -> (r: Result<
        Option<(External, Vec<Value>)>,
        Error,
    >)
        requires
            old(self).wf(old(arena)@),
            old(arena).wf(),
        ensures
            final(arena).wf(),
            final(arena)@.extends(old(arena)@),
            final(self).wf(final(arena)@),
            match call_eff(state_of(*old(self), old(arena)@), arity) {
                CallRes::Fail(e) => r == Err::<Option<(External, Vec<Value>)>, Error>(e) && *final(self) == *old(self) && final(arena)@ == old(arena)@,
                CallRes::Enter(s2) => r == Ok::<Option<(External, Vec<Value>)>, Error>(None)
                    && state_of(*final(self), final(arena)@) == s2,
                CallRes::Ext(s2, e, args) => (match r {
                    Ok(Some((e2, argv))) => e2 == e && argv@ == args && state_of(
                        *final(self),
                        final(arena)@,
                    ) == s2,
                    _ => false,
                }),
            },
    {
        let ghost s = state_of(*self, arena@);
        let n = arity as usize;
        let len = self.operand_stack.0.len();
        if len < n + 1 {
            return Err(Error::EmptyOperandStack);
        }
        let mut k: usize = 0;
        proof {
            assert(s.ops.take(len as int) =~= s.ops);
        }
        while k < n
            invariant
                k <= n,
                args_ok(s.ops, n as int) == args_ok(s.ops.take(len - k), n - k),
            decreases n - k,
        {
            let idx = len - 1 - k;
            let op = self.operand_stack.0[idx];
            proof {
                assert(s.ops.take(len - k).last() == s.ops[idx as int]);
                assert(s.ops.take(len - k).drop_last() =~= s.ops.take(len - (k + 1)));
            }
            match op {
                Operand::Value(_) => {},
                other => {
                    return Err(
                        Error::InvalidOperandKind {
                            expected: OperandKind::Value,
                            received: other.kind(),
                        },
                    );
                },
            }
            k += 1;
        }
        proof {
            assert(args_ok(s.ops, n as int) is None);
            crate::engine::sem::lemma_args_ok_values(s.ops, n as int);
        }
        let fop = self.operand_stack.0[len - n - 1];
        proof {
            assert(s.ops[len - n - 1].wf(s.arena));
        }
        let f = match fop {
            Operand::Fun(f) => f,
            Operand::Method(m) => {
                if arena.funs[m.0.id].is_method {
                    m.0
                } else {
                    return Err(Error::MethodNotFound { ident: arena.funs[m.0.id].ident });
                }
            },
            other => {
                return Err(
                    Error::InvalidOperandKind {
                        expected: OperandKind::Fun,
                        received: other.kind(),
                    },
                );
            },
        };
        let fd_arity = arena.funs[f.id].arity;
        if fd_arity != arity {
            return Err(Error::WrongArity { expected: fd_arity, received: arity });
        }
        let mut args: Vec<Value> = Vec::new();
        let mut k2: usize = 0;
        while k2 < n
            invariant
                k2 <= n,
                args@.len() == k2,
                forall|i: int| 0 <= i < k2 ==> args@[i] == operand_value(s.ops[len - n + i]),
            decreases n - k2,
        {
            let op = self.operand_stack.0[len - n + k2];
            let v = match op {
                Operand::Value(v) => v,
                _ => {
                    proof {
                        assert(false);
                    }
                    Value::Boolean(false)
                },
            };
            args.push(v);
            k2 += 1;
        }
        proof {
            assert(args@ =~= arg_values(s.ops, n as int));
        }
        let proto = arena.funs[f.id].proto;
        match proto {
            FunProto::External(e) => {
                self.operand_stack.0.truncate(len - n - 1);
                proof {
                    assert(self.operand_stack@ =~= s.ops.take(len - n - 1));
                    assert forall|i: int| 0 <= i < self.operand_stack@.len() implies (
                    #[trigger] self.operand_stack@[i]).wf(arena@) by {
                        assert(s.ops[i].wf(s.arena));
                    }
                    assert(state_of(*self, arena@) =~~= (StateM {
                        ops: s.ops.take(s.ops.len() - (arity as int) - 1),
                        ..s
                    }));
                }
                Ok(Some((e, args)))
            },
            FunProto::Chunk(c) => {
                proof {
                    assert(fun_cell_wf(arena@.funs[f.id as int], arena@));
                }
                let local_len = arena.chunks[c.id].local_scope_len;
                if n > local_len {
                    return Err(Error::InvalidVar { var: local_len });
                }
                let mut slots: Vec<Value> = Vec::new();
                let mut k3: usize = 0;
                while k3 < local_len
                    invariant
                        k3 <= local_len,
                        slots@.len() == k3,
                        forall|i: int|
                            0 <= i < k3 ==> slots@[i] == (if i < n {
                                args@[i]
                            } else {
                                Value::Boolean(false)
                            }),
                    decreases local_len - k3,
                {
                    if k3 < n {
                        let v = args[k3];
                        slots.push(v);
                    } else {
                        slots.push(Value::Boolean(false));
                    }
                    k3 += 1;
                }
                self.operand_stack.0.truncate(len - n - 1);
                let ghost a1 = arena@;
                let sid = arena.scopes.len();
                arena.scopes.push(slots);
                proof {
                    let a2 = arena@;
                    assert(a2 =~~= (ArenaM { scopes: a1.scopes.push(slots@), ..a1 }));
                    assert forall|i: int| 0 <= i < slots@.len() implies (#[trigger] slots@[i]).wf(
                        a1,
                    ) by {
                        if i < n {
                            assert(s.ops[len - n + i].wf(s.arena));
                        }
                    }
                    lemma_wf_alloc(a1, a2);
                }
                self.frame_stack.push(
                    Frame {
                        cur_instr_index: 0,
                        chunk: c,
                        local_scope: Scope { id: sid },
                        captured_scope: None,
                        low_water: len - n - 1,
                    },
                );
                proof {
                    let a2 = arena@;
                    assert(self.operand_stack@ =~= s.ops.take(len - n - 1));
                    assert forall|i: int| 0 <= i < self.operand_stack@.len() implies (
                    #[trigger] self.operand_stack@[i]).wf(a2) by {
                        assert(s.ops[i].wf(s.arena));
                        lemma_operand_wf_extends(s.ops[i], s.arena, a2);
                    }
                    assert forall|i: int| 0 <= i < self.frame_stack@.len() implies (
                    #[trigger] self.frame_stack@[i]).wf(a2) by {
                        if i < old(self).frame_stack@.len() {
                            assert(old(self).frame_stack@[i].wf(s.arena));
                        }
                    }
                    let enter = (match call_eff(s, arity) {
                        CallRes::Enter(s2) => s2,
                        _ => s,
                    });
                    assert(state_of(*self, a2) =~~= enter) by {
                        assert(state_of(*self, a2).arena.scopes =~= enter.arena.scopes) by {
                            assert(slots@ =~= Seq::new(
                                local_len as nat,
                                |i: int|
                                    if i < n {
                                        arg_values(s.ops, n as int)[i]
                                    } else {
                                        Value::Boolean(false)
                                    },
                            ));
                        }
                        assert(state_of(*self, a2).frames =~= enter.frames);
                        assert(state_of(*self, a2).ops =~= enter.ops);
                    }
                }
                Ok(None)
            },
        }
    }

    /// `Call(arity)` issued by the host: validates and stages the call as
    /// `call_eff` says.  A chunk callee leaves the machine `Running`, to be
    /// driven by `run`; an external callee comes back as an `ExternalCall`
    /// request.  Every fault leaves the machine untouched: in particular a
    /// `WrongArity` fault pops nothing, not even the staged arguments.
    pub fn call(&mut self, arena: &mut Arena, arity: u8) -> (r: Result<Flow, Error>)
        requires
            old(self).wf(old(arena)@),
            old(arena).wf(),
        ensures
            final(arena).wf(),
            final(arena)@.extends(old(arena)@),
            final(self).wf(final(arena)@),
            match call_eff(state_of(*old(self), old(arena)@), arity) {
                CallRes::Fail(e) => r == Err::<Flow, Error>(e) && *final(self) == *old(self)
                    && final(arena)@ == old(arena)@,
                CallRes::Enter(s2) => r == Ok::<Flow, Error>(Flow::Running) && state_of(
                    *final(self),
                    final(arena)@,
                ) == s2,
                CallRes::Ext(s2, e, args) => (match r {
                    Ok(Flow::ExternalCall { external, args: argv }) => external == e && argv@
                        == args && state_of(*final(self), final(arena)@) == s2,
                    _ => false,
                }),
            },
    {
        match self.do_call(arena, arity) {
            Err(e) => Err(e),
            Ok(None) => Ok(Flow::Running),
            Ok(Some((external, args))) => Ok(Flow::ExternalCall { external, args }),
        }
    }

    /// Settles the top frame's low-water mark against the current operand
    /// stack height, exactly as the semantic `settle` does after each step.
    fn settle_top(&mut self)
        ensures
            final(self).operand_stack == old(self).operand_stack,
            forall|a: ArenaM| #[trigger]
                state_of(*final(self), a) == settle(state_of(*old(self), a)),
            forall|a: ArenaM| old(self).wf(a) ==> #[trigger] final(self).wf(a),
    {
        let flen = self.frame_stack.len();
        if flen > 0 {
            let f = self.frame_stack[flen - 1];
            let len = self.operand_stack.0.len();
            let low = if len < f.low_water {
                len
            } else {
                f.low_water
            };
            self.frame_stack.set(flen - 1, Frame { low_water: low, ..f });
            proof {
                assert forall|a: ArenaM| #[trigger]
                    state_of(*self, a) == settle(state_of(*old(self), a)) by {
                    assert(state_of(*self, a) =~~= settle(state_of(*old(self), a)));
                }
                assert forall|a: ArenaM| old(self).wf(a) implies #[trigger] self.wf(a) by {
                    assert forall|i: int| 0 <= i < self.frame_stack@.len() implies (
                    #[trigger] self.frame_stack@[i]).wf(a) by {
                        assert(old(self).frame_stack@[i].wf(a));
                    }
                }
            }
        } else {
            proof {
                assert forall|a: ArenaM| #[trigger]
                    state_of(*self, a) == settle(state_of(*old(self), a)) by {
                    assert(state_of(*self, a) =~~= settle(state_of(*old(self), a)));
                }
            }
        }
    }

    /// Runs the dispatch loop for at most `fuel` steps: fetch the
    /// instruction under the top frame's pointer, advance it, dispatch, drop
    /// drained frames (a frame drained with zero residual values pushes the
    /// canonical empty value as the call's result); `Done` once the frame
    /// stack is empty, and `Running` exactly when the budget ran out first —
    /// after precisely `fuel` steps.  A float operation or an external call
    /// suspends the machine and hands the request to the host, which pushes
    /// the resulting value (`value`) and runs on.  The result is exactly a
    /// walk of the semantic `step` function; a fault unwinds every frame and
    /// surfaces.
    #[verifier::loop_isolation(false)]
    #[verifier::rlimit(100)]
    pub fn run(&mut self, arena: &mut Arena, fuel: usize) -> (r: Result<Flow, Error>)
        requires
            old(self).wf(old(arena)@),
            old(arena).wf(),
        ensures
            final(arena).wf(),
            final(arena)@.extends(old(arena)@),
            final(self).wf(final(arena)@),
            ({
                let s0 = state_of(*old(self), old(arena)@);
                match r {
                    Ok(flow) => match flow {
                        Flow::Running => multi(s0, fuel as nat) == StepRes::Next(
                            state_of(*final(self), final(arena)@),
                        ),
                        Flow::Done => exists|k: nat|
                            multi(s0, k) == StepRes::Stop(
                                state_of(*final(self), final(arena)@),
                                OutcomeM::Done,
                            ),
                        Flow::FloatOp { op, left, right } => exists|k: nat|
                            multi(s0, k) == StepRes::Stop(
                                state_of(*final(self), final(arena)@),
                                OutcomeM::FloatReq { op, left, right },
                            ),
                        Flow::ExternalCall { external, args } => exists|k: nat|
                            multi(s0, k) == StepRes::Stop(
                                state_of(*final(self), final(arena)@),
                                OutcomeM::ExtReq { external, args: args@ },
                            ),
                    },
                    Err(e) => final(self).frame_stack@.len() == 0 && exists|k: nat, t: StateM|
                        multi(s0, k) == StepRes::Stop(t, OutcomeM::Failed(e)) && final(self).operand_stack@ == t.ops && final(arena)@ == t.arena,
                }
            }),
    {
        let ghost s0 = state_of(*self, arena@);
        let ghost mut steps: nat = 0;
        let mut fuel_left = fuel;
        loop
            invariant
                self.wf(arena@),
                arena.wf(),
                arena@.extends(old(arena)@),
                fuel_left <= fuel,
                steps == fuel - fuel_left,
                multi(s0, steps) == StepRes::Next(state_of(*self, arena@)),
            decreases fuel_left,
        {
            if fuel_left == 0 {
                proof {
                    assert(multi(s0, fuel as nat) == StepRes::Next(state_of(*self, arena@)));
                }
                return Ok(Flow::Running);
            }
            fuel_left = fuel_left - 1;
            let ghost cur = state_of(*self, arena@);
            let flen = self.frame_stack.len();
            if flen == 0 {
                proof {
                    assert(settle(cur) == cur);
                    assert(step(cur) == StepRes::Stop(cur, OutcomeM::Done));
                    steps = steps + 1;
                    assert(multi(s0, steps) == StepRes::Stop(cur, OutcomeM::Done));
                }
                return Ok(Flow::Done);
            }
            let fidx = flen - 1;
            let frame = self.frame_stack[fidx];
            proof {
                assert(self.frame_stack@[fidx as int].wf(arena@));
            }
            let chunk_id = frame.chunk.id;
            let ilen = arena.chunks[chunk_id].instrs.len();
            if frame.cur_instr_index >= ilen {
                let no_residual = self.operand_stack.0.len() <= frame.low_water;
                let _ = self.frame_stack.pop();
                if no_residual {
                    let ghost a_pre = arena@;
                    let ghost su = StateM {
                        ops: cur.ops.push(
                            Operand::Value(
                                Value::Opt(Opt { id: a_pre.opts.len() as usize }),
                            ),
                        ),
                        frames: cur.frames.drop_last(),
                        arena: ArenaM {
                            opts: a_pre.opts.push(OptionData::Absent),
                            ..a_pre
                        },
                    };
                    let empty = Value::empty(arena);
                    self.operand_stack.push(Operand::Value(empty));
                    proof {
                        assert(cur.frames.last() == frame);
                        assert(state_of(*self, arena@) =~~= su);
                        assert forall|i: int| 0 <= i < self.operand_stack@.len() implies (
                        #[trigger] self.operand_stack@[i]).wf(arena@) by {
                            if i < cur.ops.len() {
                                assert(cur.ops[i].wf(a_pre));
                                lemma_operand_wf_extends(cur.ops[i], a_pre, arena@);
                            }
                        }
                        assert forall|i: int| 0 <= i < self.frame_stack@.len() implies (
                        #[trigger] self.frame_stack@[i]).wf(arena@) by {
                            assert(cur.frames[i].wf(a_pre));
                        }
                        assert(self.wf(arena@));
                    }
                    self.settle_top();
                    proof {
                        assert(step_raw(cur) == StepRes::Next(su));
                        assert(state_of(*self, arena@) == settle(su));
                        assert(step(cur) == StepRes::Next(settle(su)));
                        crate::arena::lemma_extends_trans(arena@, a_pre, old(arena)@);
                        steps = steps + 1;
                    }
                } else {
                    let ghost su = StateM { frames: cur.frames.drop_last(), ..cur };
                    proof {
                        assert(cur.frames.last() == frame);
                        assert(state_of(*self, arena@) =~~= su);
                        assert(self.wf(arena@));
                    }
                    self.settle_top();
                    proof {
                        assert(step_raw(cur) == StepRes::Next(su));
                        assert(state_of(*self, arena@) == settle(su));
                        assert(step(cur) == StepRes::Next(settle(su)));
                        steps = steps + 1;
                    }
                }
                continue ;
            }
            let instr = arena.chunks[chunk_id].instrs[frame.cur_instr_index];
            let f2 = Frame { cur_instr_index: frame.cur_instr_index + 1, ..frame };
            self.frame_stack.set(fidx, f2);
            let ghost s1 = state_of(*self, arena@);
            proof {
                assert(cur.frames.last() == frame);
                assert(s1 =~~= (StateM {
                    frames: cur.frames.update(cur.frames.len() - 1, f2),
                    ..cur
                }));
                assert(step_raw(cur) == step_instr(s1, instr, frame));
                assert(chunk_cell_wf(arena@.chunks[chunk_id as int], arena@));
                assert(instr.wf(arena@));
                assert forall|i: int| 0 <= i < self.frame_stack@.len() implies (
                #[trigger] self.frame_stack@[i]).wf(arena@) by {
                    if i != fidx {
                        assert(cur.frames[i].wf(arena@));
                    }
                }
            }
            match instr {
                Instr::PushValue { value } => {
                    self.operand_stack.push(Operand::Value(value));
                    let ghost su = StateM { ops: s1.ops.push(Operand::Value(value)), ..s1 };
                    proof {
                        assert(state_of(*self, arena@) =~~= su);
                        assert forall|i: int| 0 <= i < self.operand_stack@.len() implies (
                        #[trigger] self.operand_stack@[i]).wf(arena@) by {
                            if i < cur.ops.len() {
                                assert(cur.ops[i].wf(arena@));
                            }
                        }
                        assert(self.wf(arena@));
                    }
                    self.settle_top();
                    proof {
                        assert(state_of(*self, arena@) == settle(su));
                        assert(step(cur) == StepRes::Next(settle(su)));
                        steps = steps + 1;
                    }
                },
                Instr::PushMod { modu } => {
                    self.operand_stack.push(Operand::Modu(modu));
                    let ghost su = StateM { ops: s1.ops.push(Operand::Modu(modu)), ..s1 };
                    proof {
                        assert(state_of(*self, arena@) =~~= su);
                        assert forall|i: int| 0 <= i < self.operand_stack@.len() implies (
                        #[trigger] self.operand_stack@[i]).wf(arena@) by {
                            if i < cur.ops.len() {
                                assert(cur.ops[i].wf(arena@));
                            }
                        }
                        assert(self.wf(arena@));
                    }
                    self.settle_top();
                    proof {
                        assert(state_of(*self, arena@) == settle(su));
                        assert(step(cur) == StepRes::Next(settle(su)));
                        steps = steps + 1;
                    }
                },
                Instr::PushFn { fun } => {
                    self.operand_stack.push(Operand::Fun(fun));
                    let ghost su = StateM { ops: s1.ops.push(Operand::Fun(fun)), ..s1 };
                    proof {
                        assert(state_of(*self, arena@) =~~= su);
                        assert forall|i: int| 0 <= i < self.operand_stack@.len() implies (
                        #[trigger] self.operand_stack@[i]).wf(arena@) by {
                            if i < cur.ops.len() {
                                assert(cur.ops[i].wf(arena@));
                            }
                        }
                        assert(self.wf(arena@));
                    }
                    self.settle_top();
                    proof {
                        assert(state_of(*self, arena@) == settle(su));
                        assert(step(cur) == StepRes::Next(settle(su)));
                        steps = steps + 1;
                    }
                },
                Instr::Pop => {
                    match self.pop() {
                        Ok(()) => {
                            let ghost su = StateM { ops: s1.ops.drop_last(), ..s1 };
                            proof {
                                assert(state_of(*self, arena@) =~~= su);
                                assert forall|i: int|
                                    0 <= i < self.operand_stack@.len() implies (
                                #[trigger] self.operand_stack@[i]).wf(arena@) by {
                                    assert(cur.ops[i].wf(arena@));
                                }
                                assert(self.wf(arena@));
                            }
                            self.settle_top();
                            proof {
                                assert(state_of(*self, arena@) == settle(su));
                                assert(step(cur) == StepRes::Next(settle(su)));
                                steps = steps + 1;
                            }
                        },
                        Err(e) => {
                            self.frame_stack.clear();
                            proof {
                                assert(step(cur) == StepRes::Stop(
                                    settle(s1),
                                    OutcomeM::Failed(e),
                                ));
                                assert(settle(s1).ops == s1.ops);
                                assert(settle(s1).arena == s1.arena);
                                steps = steps + 1;
                                assert(multi(s0, steps) == StepRes::Stop(
                                    settle(s1),
                                    OutcomeM::Failed(e),
                                ));
                            }
                            return Err(e);
                        },
                    }
                },
                Instr::PushVar { var } => {
                    proof {
                        assert(frame.wf(arena@));
                    }
                    match self.load(arena, &frame, var) {
                        Ok(()) => {
                            let ghost row = arena@.scopes[frame.local_scope.id as int];
                            let ghost su = StateM {
                                ops: s1.ops.push(Operand::Value(row[var as int])),
                                ..s1
                            };
                            proof {
                                assert(state_of(*self, arena@) =~~= su);
                                assert forall|i: int|
                                    0 <= i < self.operand_stack@.len() implies (
                                #[trigger] self.operand_stack@[i]).wf(arena@) by {
                                    if i < cur.ops.len() {
                                        assert(cur.ops[i].wf(arena@));
                                    } else {
                                        assert(crate::arena::values_wf(row, arena@));
                                    }
                                }
                                assert(self.wf(arena@));
                            }
                            self.settle_top();
                            proof {
                                assert(state_of(*self, arena@) == settle(su));
                                assert(step(cur) == StepRes::Next(settle(su)));
                                steps = steps + 1;
                            }
                        },
                        Err(e) => {
                            self.frame_stack.clear();
                            proof {
                                assert(step(cur) == StepRes::Stop(
                                    settle(s1),
                                    OutcomeM::Failed(e),
                                ));
                                assert(settle(s1).ops == s1.ops);
                                assert(settle(s1).arena == s1.arena);
                                steps = steps + 1;
                                assert(multi(s0, steps) == StepRes::Stop(
                                    settle(s1),
                                    OutcomeM::Failed(e),
                                ));
                            }
                            return Err(e);
                        },
                    }
                },
                Instr::PopVar { var } => {
                    proof {
                        assert(frame.wf(arena@));
                    }
                    let ghost a_pre = arena@;
                    match self.store(arena, &frame, var) {
                        Ok(()) => {
                            let ghost row = a_pre.scopes[frame.local_scope.id as int];
                            let ghost v = (match pop1_value(s1.ops) {
                                Ok((v, _)) => v,
                                _ => Value::Boolean(false),
                            });
                            let ghost su = StateM {
                                ops: s1.ops.drop_last(),
                                arena: ArenaM {
                                    scopes: a_pre.scopes.update(
                                        frame.local_scope.id as int,
                                        row.update(var as int, v),
                                    ),
                                    ..a_pre
                                },
                                ..s1
                            };
                            proof {
                                assert(state_of(*self, arena@) =~~= su);
                                assert(self.wf(arena@));
                            }
                            self.settle_top();
                            proof {
                                assert(state_of(*self, arena@) == settle(su));
                                assert(step(cur) == StepRes::Next(settle(su)));
                                crate::arena::lemma_extends_trans(arena@, a_pre, old(arena)@);
                                steps = steps + 1;
                            }
                        },
                        Err(e) => {
                            self.frame_stack.clear();
                            proof {
                                assert(step(cur) == StepRes::Stop(
                                    settle(s1),
                                    OutcomeM::Failed(e),
                                ));
                                assert(settle(s1).ops == s1.ops);
                                assert(settle(s1).arena == s1.arena);
                                steps = steps + 1;
                                assert(multi(s0, steps) == StepRes::Stop(
                                    settle(s1),
                                    OutcomeM::Failed(e),
                                ));
                            }
                            return Err(e);
                        },
                    }
                },
                Instr::Add | Instr::Subtract | Instr::Multiply | Instr::Divide => {
                    let aop = match instr {
                        Instr::Add => ArithOp::Add,
                        Instr::Subtract => ArithOp::Subtract,
                        Instr::Multiply => ArithOp::Multiply,
                        _ => ArithOp::Divide,
                    };
                    proof {
                        assert(step_instr(s1, instr, frame) == crate::engine::sem::step_arith(
                            s1,
                            aop,
                        ));
                    }
                    match self.arith(aop) {
                        Ok(None) => {
                            let ghost (l, rt, ops) = (match pop2_values(s1.ops) {
                                Ok(x) => x,
                                _ => (Value::Boolean(false), Value::Boolean(false), s1.ops),
                            });
                            let ghost v = (match arith_step(aop, l, rt) {
                                ArithRes::Push(v) => v,
                                _ => Value::Boolean(false),
                            });
                            let ghost su = StateM { ops: ops.push(Operand::Value(v)), ..s1 };
                            proof {
                                assert(state_of(*self, arena@) =~~= su);
                                assert forall|i: int|
                                    0 <= i < self.operand_stack@.len() implies (
                                #[trigger] self.operand_stack@[i]).wf(arena@) by {
                                    if i < self.operand_stack@.len() - 1 {
                                        assert(self.operand_stack@[i] == cur.ops[i]);
                                        assert(cur.ops[i].wf(arena@));
                                    } else {
                                        assert(v is Integer);
                                    }
                                }
                                assert(self.wf(arena@));
                            }
                            self.settle_top();
                            proof {
                                assert(state_of(*self, arena@) == settle(su));
                                assert(step(cur) == StepRes::Next(settle(su)));
                                steps = steps + 1;
                            }
                        },
                        Ok(Some(req)) => {
                            let ghost (l, rt, ops) = (match pop2_values(s1.ops) {
                                Ok(x) => x,
                                _ => (Value::Boolean(false), Value::Boolean(false), s1.ops),
                            });
                            let ghost su = StateM { ops, ..s1 };
                            proof {
                                assert(state_of(*self, arena@) =~~= su);
                                assert forall|i: int|
                                    0 <= i < self.operand_stack@.len() implies (
                                #[trigger] self.operand_stack@[i]).wf(arena@) by {
                                    assert(cur.ops[i].wf(arena@));
                                }
                                assert(self.wf(arena@));
                            }
                            self.settle_top();
                            proof {
                                assert(state_of(*self, arena@) == settle(su));
                                assert(step(cur) == StepRes::Stop(
                                    settle(su),
                                    OutcomeM::FloatReq { op: aop, left: l, right: rt },
                                ));
                                steps = steps + 1;
                            }
                            return Ok(
                                Flow::FloatOp { op: req.op, left: req.left, right: req.right },
                            );
                        },
                        Err(e) => {
                            self.frame_stack.clear();
                            proof {
                                assert(step(cur) == StepRes::Stop(
                                    settle(s1),
                                    OutcomeM::Failed(e),
                                ));
                                assert(settle(s1).ops == s1.ops);
                                assert(settle(s1).arena == s1.arena);
                                steps = steps + 1;
                                assert(multi(s0, steps) == StepRes::Stop(
                                    settle(s1),
                                    OutcomeM::Failed(e),
                                ));
                            }
                            return Err(e);
                        },
                    }
                },
                Instr::Call { arity } => {
                    let ghost a_pre = arena@;
                    match self.do_call(arena, arity) {
                        Ok(None) => {
                            let ghost su = (match call_eff(s1, arity) {
                                CallRes::Enter(s2) => s2,
                                _ => s1,
                            });
                            proof {
                                assert(state_of(*self, arena@) == su);
                            }
                            self.settle_top();
                            proof {
                                assert(state_of(*self, arena@) == settle(su));
                                assert(step(cur) == StepRes::Next(settle(su)));
                                crate::arena::lemma_extends_trans(arena@, a_pre, old(arena)@);
                                steps = steps + 1;
                            }
                        },
                        Ok(Some((external, args))) => {
                            let ghost su = (match call_eff(s1, arity) {
                                CallRes::Ext(s2, _, _) => s2,
                                _ => s1,
                            });
                            proof {
                                assert(state_of(*self, arena@) == su);
                            }
                            self.settle_top();
                            proof {
                                assert(state_of(*self, arena@) == settle(su));
                                assert(step(cur) == StepRes::Stop(
                                    settle(su),
                                    OutcomeM::ExtReq { external, args: args@ },
                                ));
                                steps = steps + 1;
                            }
                            return Ok(Flow::ExternalCall { external, args });
                        },
                        Err(e) => {
                            self.frame_stack.clear();
                            proof {
                                assert(step(cur) == StepRes::Stop(
                                    settle(s1),
                                    OutcomeM::Failed(e),
                                ));
                                assert(settle(s1).ops == s1.ops);
                                assert(settle(s1).arena == s1.arena);
                                steps = steps + 1;
                                assert(multi(s0, steps) == StepRes::Stop(
                                    settle(s1),
                                    OutcomeM::Failed(e),
                                ));
                            }
                            return Err(e);
                        },
                    }
                },
            }
        }
    }
}

impl Frame {
    /// True when every handle of the frame addresses a valid arena cell.
    pub open spec fn wf(self, a: ArenaM) -> bool {
        &&& self.chunk.id < a.chunks.len()
        &&& self.local_scope.id < a.scopes.len()
        &&& match self.captured_scope {
            Some(c) => c.id < a.captures.len(),
            None => true,
        }
    }
}

} // verus!
