//! Scopes and captured-scope chains: local slot access, the two-level
//! addressing scheme, and its out-of-range faults.

use eko::arena::Arena;
use eko::engine::error::Error;
use eko::engine::frame::CapturedScope;
use eko::engine::frame::Scope;
use eko::value::Value;

#[test]
fn scope_slots_read_and_write() {
    let mut arena = Arena::new();
    let scope = Scope::new(&mut arena, 2);
    // unset slots read as the placeholder
    assert_eq!(scope.get(&arena, 0).unwrap(), Value::Boolean(false));
    scope.set(&mut arena, 1, Value::Integer(4)).unwrap();
    assert_eq!(scope.get(&arena, 1).unwrap(), Value::Integer(4));
    assert_eq!(scope.get(&arena, 2), Err(Error::InvalidVar { var: 2 }));
    assert_eq!(
        scope.set(&mut arena, 9, Value::Integer(1)),
        Err(Error::InvalidVar { var: 9 })
    );
}

#[test]
fn captured_scope_two_level_addressing() {
    let mut arena = Arena::new();
    // enclosing level: 3 slots, 2 of them captured
    let outer = Scope::new(&mut arena, 3);
    outer.set(&mut arena, 0, Value::Integer(10)).unwrap();
    outer.set(&mut arena, 1, Value::Integer(11)).unwrap();
    let c1 = CapturedScope::new(&mut arena, outer, 2, None);
    // innermost level: 2 slots, 1 of them captured
    let inner = Scope::new(&mut arena, 2);
    inner.set(&mut arena, 0, Value::Integer(20)).unwrap();
    let c0 = CapturedScope::new(&mut arena, inner, 1, Some(c1));

    // zero links: the innermost scope
    assert_eq!(c0.get(&arena, 0, 0).unwrap(), Value::Integer(20));
    // one link: the enclosing scope
    assert_eq!(c0.get(&arena, 1, 0).unwrap(), Value::Integer(10));
    assert_eq!(c0.get(&arena, 1, 1).unwrap(), Value::Integer(11));
    // the captured length bounds each level
    assert_eq!(c0.get(&arena, 0, 1), Err(Error::InvalidVar { var: 1 }));
    assert_eq!(c0.get(&arena, 1, 2), Err(Error::InvalidVar { var: 2 }));
    // walking past the top of the chain
    assert_eq!(c0.get(&arena, 2, 0), Err(Error::InvalidParent));
    assert_eq!(
        c0.set(&mut arena, 2, 0, Value::Integer(0)),
        Err(Error::InvalidParent)
    );
}

#[test]
fn captured_scope_writes_through_the_chain() {
    let mut arena = Arena::new();
    let outer = Scope::new(&mut arena, 1);
    let c1 = CapturedScope::new(&mut arena, outer, 1, None);
    let inner = Scope::new(&mut arena, 1);
    let c0 = CapturedScope::new(&mut arena, inner, 1, Some(c1));

    c0.set(&mut arena, 1, 0, Value::Integer(42)).unwrap();
    // the write landed in the enclosing scope, visible both ways
    assert_eq!(c0.get(&arena, 1, 0).unwrap(), Value::Integer(42));
    assert_eq!(outer.get(&arena, 0).unwrap(), Value::Integer(42));
    // and the captured length bounds writes as well
    assert_eq!(
        c0.set(&mut arena, 0, 5, Value::Integer(1)),
        Err(Error::InvalidVar { var: 5 })
    );
}
