//! End-to-end chunk programs driven the way a host drives a fiber: build a
//! chunk, call it, answer any requests, and read the operand stack.

use eko::arena::Arena;
use eko::compiler::generator::ChunkBuilder;
use eko::engine::error::Error;
use eko::engine::fiber::Fiber;
use eko::engine::machine::ArithOp;
use eko::engine::machine::Flow;
use eko::engine::machine::Machine;
use eko::engine::machine::Operand;
use eko::fun::Fun;
use eko::instr::Instr;
use eko::value::Value;

fn top_value(machine: &mut Machine) -> Value {
    match machine.operand_stack.pop().unwrap() {
        Operand::Value(v) => v,
        other => panic!("expected a value operand, got {:?}", other),
    }
}

fn run_to_end(machine: &mut Machine, arena: &mut Arena) -> Result<(), Error> {
    loop {
        match machine.run(arena, 100)? {
            Flow::Done => return Ok(()),
            Flow::Running => {}
            Flow::FloatOp { op, left, right } => {
                let l = as_f64(left);
                let r = as_f64(right);
                let result = match op {
                    ArithOp::Add => l + r,
                    ArithOp::Subtract => l - r,
                    ArithOp::Multiply => l * r,
                    ArithOp::Divide => l / r,
                };
                machine.value(Value::Float(result.to_bits()));
            }
            Flow::ExternalCall { external: _, args: _ } => {
                // this test host answers every external call with the same value
                machine.value(Value::Integer(7));
            }
        }
    }
}

fn as_f64(v: Value) -> f64 {
    match v {
        Value::Integer(i) => i as f64,
        Value::Float(bits) => f64::from_bits(bits),
        other => panic!("expected a numeric value, got {:?}", other),
    }
}

#[test]
fn chunk_pushes_a_value() {
    let mut arena = Arena::new();
    let mut machine = Machine::new();

    let mut chunk = ChunkBuilder::new();
    chunk.instr(Instr::PushValue { value: Value::Integer(2) });
    let chunk = chunk.build(&mut arena);
    let fun = Fun::new_chunk(&mut arena, 0, chunk);

    machine.operand_stack.push(Operand::Fun(fun));
    machine.call(&mut arena, 0).unwrap();
    run_to_end(&mut machine, &mut arena).unwrap();

    assert_eq!(top_value(&mut machine), Value::Integer(2));
}

#[test]
fn chunk_store_load_round_trip() {
    let mut arena = Arena::new();
    let mut machine = Machine::new();

    let mut builder = ChunkBuilder::new();
    let k = builder.next_var();
    assert_eq!(k, 0);
    builder.instr(Instr::PushValue { value: Value::Integer(2) });
    builder.instr(Instr::PopVar { var: k });
    builder.instr(Instr::PushVar { var: k });
    let chunk = builder.build(&mut arena);
    let fun = Fun::new_chunk(&mut arena, 0, chunk);

    machine.operand_stack.push(Operand::Fun(fun));
    machine.call(&mut arena, 0).unwrap();
    run_to_end(&mut machine, &mut arena).unwrap();

    assert_eq!(top_value(&mut machine), Value::Integer(2));
}

#[test]
fn chunk_push_then_pop_keeps_the_stack_beneath_its_result() {
    let mut arena = Arena::new();
    let mut machine = Machine::new();

    let mut builder = ChunkBuilder::new();
    builder.instr(Instr::PushValue { value: Value::Integer(5) });
    builder.instr(Instr::Pop);
    let chunk = builder.build(&mut arena);
    let fun = Fun::new_chunk(&mut arena, 0, chunk);

    machine.value(Value::Integer(1));
    machine.operand_stack.push(Operand::Fun(fun));
    machine.call(&mut arena, 0).unwrap();
    run_to_end(&mut machine, &mut arena).unwrap();

    // the chunk left zero residual values, so its result is the canonical
    // empty value; beneath it the caller's stack is exactly what it was
    match top_value(&mut machine) {
        Value::Opt(_) => {}
        other => panic!("expected the canonical empty value, got {:?}", other),
    }
    assert_eq!(top_value(&mut machine), Value::Integer(1));
    assert_eq!(machine.operand_stack.pop(), Err(Error::EmptyOperandStack));
}

#[test]
fn chunk_with_no_residual_returns_the_canonical_empty() {
    let mut arena = Arena::new();
    let mut machine = Machine::new();

    let chunk = ChunkBuilder::new().build(&mut arena);
    let fun = Fun::new_chunk(&mut arena, 0, chunk);

    machine.operand_stack.push(Operand::Fun(fun));
    machine.call(&mut arena, 0).unwrap();
    run_to_end(&mut machine, &mut arena).unwrap();

    match top_value(&mut machine) {
        Value::Opt(_) => {}
        other => panic!("expected the canonical empty value, got {:?}", other),
    }
    assert_eq!(machine.operand_stack.pop(), Err(Error::EmptyOperandStack));
}

#[test]
fn chunk_arguments_fill_the_first_slots() {
    let mut arena = Arena::new();
    let mut machine = Machine::new();

    // fn(a, b) { a - b }
    let mut builder = ChunkBuilder::new();
    let a = builder.next_var();
    let b = builder.next_var();
    builder.instr(Instr::PushVar { var: a });
    builder.instr(Instr::PushVar { var: b });
    builder.instr(Instr::Subtract);
    let chunk = builder.build(&mut arena);
    let fun = Fun::new_chunk(&mut arena, 2, chunk);

    machine.operand_stack.push(Operand::Fun(fun));
    machine.value(Value::Integer(10));
    machine.value(Value::Integer(4));
    machine.call(&mut arena, 2).unwrap();
    run_to_end(&mut machine, &mut arena).unwrap();

    assert_eq!(top_value(&mut machine), Value::Integer(6));
}

#[test]
fn chunk_mixed_float_arithmetic() {
    let mut arena = Arena::new();
    let mut machine = Machine::new();

    let mut builder = ChunkBuilder::new();
    builder.instr(Instr::PushValue { value: Value::Integer(2) });
    builder.instr(Instr::PushValue { value: Value::Float(5.0f64.to_bits()) });
    builder.instr(Instr::Subtract);
    let chunk = builder.build(&mut arena);
    let fun = Fun::new_chunk(&mut arena, 0, chunk);

    machine.operand_stack.push(Operand::Fun(fun));
    machine.call(&mut arena, 0).unwrap();
    run_to_end(&mut machine, &mut arena).unwrap();

    assert_eq!(top_value(&mut machine), Value::Float((-3.0f64).to_bits()));
}

#[test]
fn run_out_of_fuel_then_resume() {
    let mut arena = Arena::new();
    let mut machine = Machine::new();

    let mut builder = ChunkBuilder::new();
    builder.instr(Instr::PushValue { value: Value::Integer(1) });
    builder.instr(Instr::PushValue { value: Value::Integer(2) });
    builder.instr(Instr::Add);
    let chunk = builder.build(&mut arena);
    let fun = Fun::new_chunk(&mut arena, 0, chunk);

    machine.operand_stack.push(Operand::Fun(fun));
    machine.call(&mut arena, 0).unwrap();
    assert_eq!(machine.run(&mut arena, 1).unwrap(), Flow::Running);
    run_to_end(&mut machine, &mut arena).unwrap();

    assert_eq!(top_value(&mut machine), Value::Integer(3));
}

#[test]
fn faults_inside_a_chunk_surface_and_unwind() {
    let mut arena = Arena::new();
    let mut machine = Machine::new();

    let mut builder = ChunkBuilder::new();
    builder.instr(Instr::Pop);
    let chunk = builder.build(&mut arena);
    let fun = Fun::new_chunk(&mut arena, 0, chunk);

    machine.operand_stack.push(Operand::Fun(fun));
    machine.call(&mut arena, 0).unwrap();
    assert_eq!(machine.run(&mut arena, 100), Err(Error::EmptyOperandStack));
    assert_eq!(machine.frame_stack.len(), 0);
}

#[test]
fn fiber_groups_the_stacks() {
    let fiber = Fiber::new();
    assert_eq!(fiber.machine.frame_stack.len(), 0);
}
