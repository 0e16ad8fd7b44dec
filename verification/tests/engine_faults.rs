//! Engine-level faults and the call protocol's edge cases: every error
//! variant has an input that raises it, and a wrong-arity call consumes
//! nothing.

use eko::arena::Arena;
use eko::compiler::generator::ChunkBuilder;
use eko::engine::error::Error;
use eko::engine::error::OperandKind;
use eko::engine::machine::Machine;
use eko::engine::machine::Method;
use eko::engine::machine::Operand;
use eko::fun::Fun;
use eko::ident::Ident;
use eko::modu::Modu;
use eko::value::Value;

#[test]
fn pop_on_empty_stack() {
    let mut machine = Machine::new();
    assert_eq!(machine.pop(), Err(Error::EmptyOperandStack));
}

#[test]
fn pop_on_module_operand() {
    let mut arena = Arena::new();
    let mut machine = Machine::new();
    let modu = Modu::new(&mut arena, Ident::new_number(0));
    machine.operand_stack.push(Operand::Modu(modu));
    assert_eq!(
        machine.pop(),
        Err(Error::InvalidOperandKind {
            expected: OperandKind::Value,
            received: OperandKind::Modu,
        })
    );
}

#[test]
fn arithmetic_type_mismatch() {
    let mut machine = Machine::new();
    machine.value(Value::Boolean(true));
    machine.value(Value::Integer(1));
    assert_eq!(machine.add(), Err(Error::TypeMismatch));
}

#[test]
fn divide_by_zero_is_type_mismatch() {
    let mut machine = Machine::new();
    machine.value(Value::Integer(20));
    machine.value(Value::Integer(0));
    assert_eq!(machine.divide(), Err(Error::TypeMismatch));
}

#[test]
fn integer_arithmetic_stays_integral() {
    let mut machine = Machine::new();
    machine.value(Value::Integer(6));
    machine.value(Value::Integer(7));
    assert!(machine.multiply().unwrap().is_none());
    match machine.operand_stack.pop().unwrap() {
        Operand::Value(Value::Integer(n)) => assert_eq!(n, 42),
        other => panic!("expected an integer on top, got {:?}", other),
    }
}

#[test]
fn float_mix_becomes_request() {
    let mut machine = Machine::new();
    machine.value(Value::Float(1.5f64.to_bits()));
    machine.value(Value::Float(2.25f64.to_bits()));
    let req = machine.add().unwrap().unwrap();
    assert_eq!(req.left, Value::Float(1.5f64.to_bits()));
    assert_eq!(req.right, Value::Float(2.25f64.to_bits()));
}

#[test]
fn wrong_arity_pops_nothing() {
    let mut arena = Arena::new();
    let mut machine = Machine::new();

    let mut chunk = ChunkBuilder::new();
    let chunk = chunk.build(&mut arena);
    let fun = Fun::new_chunk(&mut arena, 0, chunk);

    machine.operand_stack.push(Operand::Fun(fun));
    machine.value(Value::Integer(5));

    assert_eq!(
        machine.call(&mut arena, 1),
        Err(Error::WrongArity { expected: 0, received: 1 })
    );
    // the staged argument and the callee are both still there
    assert_eq!(machine.operand_stack.pop().unwrap(), Operand::Value(Value::Integer(5)));
    assert_eq!(machine.operand_stack.pop().unwrap(), Operand::Fun(fun));
}

#[test]
fn call_on_non_function_operand() {
    let mut machine = Machine::new();
    machine.value(Value::Integer(1));
    let mut arena = Arena::new();
    assert_eq!(
        machine.call(&mut arena, 0),
        Err(Error::InvalidOperandKind {
            expected: OperandKind::Fun,
            received: OperandKind::Value,
        })
    );
}

#[test]
fn call_on_empty_stack() {
    let mut arena = Arena::new();
    let mut machine = Machine::new();
    assert_eq!(machine.call(&mut arena, 0), Err(Error::EmptyOperandStack));
}

#[test]
fn method_dispatch_on_plain_function() {
    let mut arena = Arena::new();
    let mut machine = Machine::new();

    let mut chunk = ChunkBuilder::new();
    let chunk = chunk.build(&mut arena);
    let fun = Fun::new_chunk(&mut arena, 0, chunk);

    machine.operand_stack.push(Operand::Method(Method(fun)));
    assert_eq!(
        machine.call(&mut arena, 0),
        Err(Error::MethodNotFound { ident: Ident::Number(0) })
    );
}
