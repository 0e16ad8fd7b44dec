//! Tuples, optionals, closures and the chunk builder.

use eko::arena::Arena;
use eko::compiler::generator::ChunkBuilder;
use eko::engine::frame::CapturedScope;
use eko::engine::frame::Scope;
use eko::error::Error;
use eko::fun::Fun;
use eko::ident::Ident;
use eko::value::Closure;
use eko::value::Tuple;
use eko::value::Value;

#[test]
fn tuple_fields_read_and_write() {
    let mut arena = Arena::new();
    let t = Tuple::new(&mut arena, vec![Value::Integer(1), Value::Integer(2)]);
    assert_eq!(t.field(&arena, 0).unwrap(), Value::Integer(1));
    assert_eq!(t.field(&arena, 1).unwrap(), Value::Integer(2));
    assert_eq!(t.field(&arena, 2), Err(Error::InvalidField { ident: Ident::Number(2) }));
    t.set_field(&mut arena, 0, Value::Boolean(true)).unwrap();
    assert_eq!(t.field(&arena, 0).unwrap(), Value::Boolean(true));
    assert_eq!(
        t.set_field(&mut arena, 7, Value::Integer(0)),
        Err(Error::InvalidField { ident: Ident::Number(7) })
    );
}

#[test]
fn tuples_compare_by_identity() {
    let mut arena = Arena::new();
    let a = Tuple::new(&mut arena, vec![Value::Integer(1)]);
    let b = Tuple::new(&mut arena, vec![Value::Integer(1)]);
    assert_ne!(Value::Tuple(a), Value::Tuple(b));
    assert_eq!(Value::Tuple(a), Value::Tuple(a));
}

#[test]
fn empty_value_is_a_none_optional() {
    let mut arena = Arena::new();
    let a = Value::empty(&mut arena);
    let b = Value::empty(&mut arena);
    // each empty is a fresh optional cell; they compare by identity
    assert_ne!(a, b);
    match a {
        Value::Opt(_) => {}
        other => panic!("expected an optional, got {:?}", other),
    }
}

#[test]
fn closures_carry_their_captured_chain() {
    let mut arena = Arena::new();
    let scope = Scope::new(&mut arena, 1);
    let captured = CapturedScope::new(&mut arena, scope, 1, None);
    let chunk = ChunkBuilder::new().build(&mut arena);
    let fun = Fun::new_chunk(&mut arena, 0, chunk);
    let closure = Closure::new(&mut arena, fun, captured);
    assert_eq!(closure.captured_scope(&arena), captured);
}

#[test]
fn builder_allocates_slots_in_order() {
    let mut arena = Arena::new();
    let mut builder = ChunkBuilder::new();
    assert_eq!(builder.next_var(), 0);
    assert_eq!(builder.next_var(), 1);
    assert_eq!(builder.next_var(), 2);
    let chunk = builder.build(&mut arena);
    assert_eq!(chunk.local_scope_len(&arena), 3);
    assert_eq!(chunk.instr(&arena, 0), None);
}

#[test]
fn function_accessors() {
    let mut arena = Arena::new();
    let chunk = ChunkBuilder::new().build(&mut arena);
    let fun = Fun::new_chunk(&mut arena, 3, chunk);
    assert_eq!(fun.arity(&arena), 3);
    assert_eq!(fun.is_method(&arena), false);
    assert_eq!(fun.ident(&arena), Ident::Number(0));
}
