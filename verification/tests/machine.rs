//! The machine's original operation tests: pushing values, store/load,
//! chunk and external calls, and the four arithmetic opcodes.  Float
//! arithmetic comes back to the host as a request; these tests play the
//! host, computing the IEEE-754 result and pushing it.

use eko::arena::Arena;
use eko::compiler::generator::ChunkBuilder;
use eko::engine::frame::Frame;
use eko::engine::machine::ArithOp;
use eko::engine::machine::Flow;
use eko::engine::machine::FloatReq;
use eko::engine::machine::Machine;
use eko::engine::machine::Operand;
use eko::fun::External;
use eko::fun::Fun;
use eko::instr::Instr;
use eko::value::Value;

fn top_value(machine: &mut Machine) -> Value {
    match machine.operand_stack.pop().unwrap() {
        Operand::Value(v) => v,
        other => panic!("expected a value operand, got {:?}", other),
    }
}

fn as_f64(v: Value) -> f64 {
    match v {
        Value::Integer(i) => i as f64,
        Value::Float(bits) => f64::from_bits(bits),
        other => panic!("expected a numeric value, got {:?}", other),
    }
}

/// The host's float unit: answers a float request with the IEEE-754 result.
fn answer_float(machine: &mut Machine, req: FloatReq) {
    let left = as_f64(req.left);
    let right = as_f64(req.right);
    let result = match req.op {
        ArithOp::Add => left + right,
        ArithOp::Subtract => left - right,
        ArithOp::Multiply => left * right,
        ArithOp::Divide => left / right,
    };
    machine.value(Value::Float(result.to_bits()));
}

#[test]
fn value() {
    let mut machine = Machine::new();

    machine.value(Value::Integer(2));

    assert_eq!(top_value(&mut machine), Value::Integer(2));
}

#[test]
fn store_load() {
    let mut arena = Arena::new();
    let mut machine = Machine::new();

    let mut chunk = ChunkBuilder::new();
    let var = chunk.next_var();
    let chunk = chunk.build(&mut arena);

    let frame = Frame::new(&mut arena, chunk);

    machine.value(Value::Integer(2));
    machine.store(&mut arena, &frame, var).unwrap();
    machine.load(&arena, &frame, var).unwrap();

    assert_eq!(top_value(&mut machine), Value::Integer(2));
}

#[test]
fn call_chunk() {
    let mut arena = Arena::new();
    let mut machine = Machine::new();

    let mut chunk = ChunkBuilder::new();
    chunk.instr(Instr::Pop);
    chunk.instr(Instr::PushValue { value: Value::Integer(3) });
    let chunk = chunk.build(&mut arena);

    machine.value(Value::Integer(2));
    let fun = Fun::new_chunk(&mut arena, 0, chunk);
    machine.operand_stack.push(Operand::Fun(fun));
    match machine.call(&mut arena, 0).unwrap() {
        Flow::Running => {}
        other => panic!("expected the chunk's frame to be staged, got {:?}", other),
    }
    match machine.run(&mut arena, 1000).unwrap() {
        Flow::Done => {}
        other => panic!("expected the run to finish, got {:?}", other),
    }

    assert_eq!(top_value(&mut machine), Value::Integer(3));
}

#[test]
fn call_external() {
    let mut arena = Arena::new();
    let mut machine = Machine::new();

    let external = External::new(&mut arena);
    let native = |_args: Vec<Value>| Value::Integer(7);

    let fun = Fun::new_external(&mut arena, 0, external);
    machine.operand_stack.push(Operand::Fun(fun));
    match machine.call(&mut arena, 0).unwrap() {
        Flow::ExternalCall { external: e, args } => {
            assert_eq!(e, external);
            machine.value(native(args));
        }
        other => panic!("expected an external-call request, got {:?}", other),
    }
    match machine.run(&mut arena, 1000).unwrap() {
        Flow::Done => {}
        other => panic!("expected the run to finish, got {:?}", other),
    }

    assert_eq!(top_value(&mut machine), Value::Integer(7));
}

#[test]
fn add() {
    let mut machine = Machine::new();

    machine.value(Value::Integer(2));
    machine.value(Value::Integer(5));
    assert!(machine.add().unwrap().is_none());

    assert_eq!(top_value(&mut machine), Value::Integer(7));
}

#[test]
fn subtract() {
    let mut machine = Machine::new();

    machine.value(Value::Integer(2));
    machine.value(Value::Float(5.0f64.to_bits()));
    let req = machine.subtract().unwrap().unwrap();
    answer_float(&mut machine, req);

    assert_eq!(top_value(&mut machine), Value::Float((-3.0f64).to_bits()));
}

#[test]
fn multiply() {
    let mut machine = Machine::new();

    machine.value(Value::Float(2.5f64.to_bits()));
    machine.value(Value::Integer(4));
    let req = machine.multiply().unwrap().unwrap();
    answer_float(&mut machine, req);

    assert_eq!(top_value(&mut machine), Value::Float(10.0f64.to_bits()));
}

#[test]
fn divide() {
    let mut machine = Machine::new();

    machine.value(Value::Integer(20));
    machine.value(Value::Integer(6));
    assert!(machine.divide().unwrap().is_none());

    assert_eq!(top_value(&mut machine), Value::Integer(3));
}
