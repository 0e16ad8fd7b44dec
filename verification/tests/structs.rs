//! Struct and enum values against their descriptors: construction
//! invariants for both layouts, field access, and the layout-mismatch
//! errors.

use eko::arena::Arena;
use eko::error::Error;
use eko::error::TypeKind;
use eko::ident::Ident;
use eko::typ;
use eko::value::Enum;
use eko::value::Struct;
use eko::value::Value;

fn tuple_descriptor(arena: &mut Arena, arity: u8) -> typ::Struct {
    typ::Struct::new(arena, Ident::new_number(9), typ::StructProto::Tuple(arity))
}

fn map_descriptor(arena: &mut Arena, keys: Vec<Ident>) -> typ::Struct {
    typ::Struct::new(arena, Ident::new_number(9), typ::StructProto::Keyed(typ::MapData { fields: keys }))
}

#[test]
fn tuple_construction_too_few_fields() {
    let mut arena = Arena::new();
    let typ = tuple_descriptor(&mut arena, 3);
    let r = Struct::new_tuple(&mut arena, typ, vec![Value::Integer(1)]);
    assert_eq!(r.unwrap_err(), Error::MissingField { ident: Ident::Number(1) });
}

#[test]
fn tuple_construction_too_many_fields() {
    let mut arena = Arena::new();
    let typ = tuple_descriptor(&mut arena, 1);
    let r = Struct::new_tuple(&mut arena, typ, vec![Value::Integer(1), Value::Integer(2)]);
    assert_eq!(r.unwrap_err(), Error::InvalidField { ident: Ident::Number(1) });
}

#[test]
fn tuple_construction_and_field_access() {
    let mut arena = Arena::new();
    let typ = tuple_descriptor(&mut arena, 2);
    let s = Struct::new_tuple(&mut arena, typ, vec![Value::Integer(1), Value::Boolean(true)])
        .unwrap();
    assert_eq!(s.tuple_field(&arena, 0).unwrap(), Value::Integer(1));
    assert_eq!(s.tuple_field(&arena, 1).unwrap(), Value::Boolean(true));
    assert_eq!(
        s.tuple_field(&arena, 2),
        Err(Error::InvalidField { ident: Ident::Number(2) })
    );
    s.set_tuple_field(&mut arena, 0, Value::Integer(8)).unwrap();
    assert_eq!(s.tuple_field(&arena, 0).unwrap(), Value::Integer(8));
    // keyed access on a tuple layout is a kind mismatch
    assert_eq!(
        s.map_field(&arena, Ident::new_number(0)),
        Err(Error::InvalidKind { expected: TypeKind::Keyed, received: TypeKind::Tuple })
    );
}

#[test]
fn map_construction_missing_key() {
    let mut arena = Arena::new();
    let x = Ident::new_string(&mut arena, b"x".to_vec());
    let y = Ident::new_string(&mut arena, b"y".to_vec());
    let typ = map_descriptor(&mut arena, vec![x, y]);
    let r = Struct::new_map(&mut arena, typ, vec![(x, Value::Integer(1))]);
    assert_eq!(r.unwrap_err(), Error::MissingField { ident: y });
}

#[test]
fn map_construction_unexpected_key() {
    let mut arena = Arena::new();
    let x = Ident::new_string(&mut arena, b"x".to_vec());
    let z = Ident::new_string(&mut arena, b"z".to_vec());
    let typ = map_descriptor(&mut arena, vec![x]);
    let r = Struct::new_map(&mut arena, typ, vec![(x, Value::Integer(1)), (z, Value::Integer(2))]);
    assert_eq!(r.unwrap_err(), Error::InvalidField { ident: z });
}

#[test]
fn map_construction_and_field_access() {
    let mut arena = Arena::new();
    let x = Ident::new_string(&mut arena, b"x".to_vec());
    let y = Ident::new_string(&mut arena, b"y".to_vec());
    let z = Ident::new_string(&mut arena, b"z".to_vec());
    let typ = map_descriptor(&mut arena, vec![x, y]);
    let s = Struct::new_map(
        &mut arena,
        typ,
        vec![(y, Value::Integer(2)), (x, Value::Integer(1))],
    )
    .unwrap();
    assert_eq!(s.map_field(&arena, x).unwrap(), Value::Integer(1));
    assert_eq!(s.map_field(&arena, y).unwrap(), Value::Integer(2));
    assert_eq!(s.map_field(&arena, z), Err(Error::InvalidField { ident: z }));
    s.set_map_field(&mut arena, y, Value::Boolean(false)).unwrap();
    assert_eq!(s.map_field(&arena, y).unwrap(), Value::Boolean(false));
    // a key is never added
    assert_eq!(
        s.set_map_field(&mut arena, z, Value::Integer(3)),
        Err(Error::InvalidField { ident: z })
    );
    // positional access on a keyed layout is a kind mismatch
    assert_eq!(
        s.tuple_field(&arena, 0),
        Err(Error::InvalidKind { expected: TypeKind::Tuple, received: TypeKind::Keyed })
    );
}

#[test]
fn map_construction_on_tuple_layout() {
    let mut arena = Arena::new();
    let typ = tuple_descriptor(&mut arena, 1);
    let x = Ident::new_string(&mut arena, b"x".to_vec());
    let r = Struct::new_map(&mut arena, typ, vec![(x, Value::Integer(1))]);
    assert_eq!(
        r.unwrap_err(),
        Error::InvalidKind { expected: TypeKind::Keyed, received: TypeKind::Tuple }
    );
}

#[test]
fn tuple_construction_on_map_layout() {
    let mut arena = Arena::new();
    let x = Ident::new_string(&mut arena, b"x".to_vec());
    let typ = map_descriptor(&mut arena, vec![x]);
    let r = Struct::new_tuple(&mut arena, typ, vec![Value::Integer(1)]);
    assert_eq!(
        r.unwrap_err(),
        Error::InvalidKind { expected: TypeKind::Tuple, received: TypeKind::Keyed }
    );
}

#[test]
fn enum_variant_construction_and_access() {
    let mut arena = Arena::new();
    let x = Ident::new_string(&mut arena, b"x".to_vec());
    let variants = vec![
        typ::EnumVariant { ident: Ident::new_number(0), proto: typ::StructProto::Tuple(1) },
        typ::EnumVariant {
            ident: Ident::new_number(1),
            proto: typ::StructProto::Keyed(typ::MapData { fields: vec![x] }),
        },
    ];
    let typ = typ::Enum::new(&mut arena, Ident::new_number(7), variants);

    let e0 = Enum::new_tuple(&mut arena, typ, 0, vec![Value::Integer(4)]).unwrap();
    assert_eq!(e0.tuple_field(&arena, 0).unwrap(), Value::Integer(4));
    e0.set_tuple_field(&mut arena, 0, Value::Integer(5)).unwrap();
    assert_eq!(e0.tuple_field(&arena, 0).unwrap(), Value::Integer(5));

    let e1 = Enum::new_map(&mut arena, typ, 1, vec![(x, Value::Integer(6))]).unwrap();
    assert_eq!(e1.map_field(&arena, x).unwrap(), Value::Integer(6));
    e1.set_map_field(&mut arena, x, Value::Integer(9)).unwrap();
    assert_eq!(e1.map_field(&arena, x).unwrap(), Value::Integer(9));

    // variant layouts are enforced
    let r = Enum::new_tuple(&mut arena, typ, 0, vec![]);
    assert_eq!(r.unwrap_err(), Error::MissingField { ident: Ident::Number(0) });
    let r = Enum::new_map(&mut arena, typ, 0, vec![(x, Value::Integer(1))]);
    assert_eq!(
        r.unwrap_err(),
        Error::InvalidKind { expected: TypeKind::Keyed, received: TypeKind::Tuple }
    );
}

#[test]
fn heap_values_compare_by_identity() {
    let mut arena = Arena::new();
    let typ = tuple_descriptor(&mut arena, 1);
    let a = Struct::new_tuple(&mut arena, typ, vec![Value::Integer(1)]).unwrap();
    let b = Struct::new_tuple(&mut arena, typ, vec![Value::Integer(1)]).unwrap();
    // equal contents, distinct allocations: unequal
    assert_ne!(Value::Struct(a), Value::Struct(b));
    assert_eq!(Value::Struct(a), Value::Struct(a));
}
