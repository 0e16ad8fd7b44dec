//! Modules and identifiers: interning, the three tables, lookup hits and
//! misses, and the parent/child links.

use eko::arena::Arena;
use eko::compiler::generator::ChunkBuilder;
use eko::error::Error;
use eko::fun::Fun;
use eko::ident::Ident;
use eko::modu::Modu;
use eko::typ;
use eko::typ::Typ;

#[test]
fn interned_names_compare_by_content() {
    let mut arena = Arena::new();
    let a = Ident::new_string(&mut arena, b"point".to_vec());
    let b = Ident::new_string(&mut arena, b"point".to_vec());
    let c = Ident::new_string(&mut arena, b"line".to_vec());
    assert_eq!(a, b);
    assert_ne!(a, c);
    assert_ne!(Ident::new_number(0), Ident::new_number(1));
}

#[test]
fn define_and_look_up_functions() {
    let mut arena = Arena::new();
    let modu = Modu::new(&mut arena, Ident::new_number(0));
    let name = Ident::new_string(&mut arena, b"main".to_vec());

    assert_eq!(modu.fun(&arena, name), Err(Error::FunctionNotFound { ident: name }));

    let mut chunk = ChunkBuilder::new();
    let chunk = chunk.build(&mut arena);
    let fun = Fun::new_chunk(&mut arena, 0, chunk);
    modu.define_fun(&mut arena, name, fun);
    assert_eq!(modu.fun(&arena, name).unwrap(), fun);

    // last write wins
    let chunk2 = ChunkBuilder::new().build(&mut arena);
    let fun2 = Fun::new_chunk(&mut arena, 0, chunk2);
    modu.define_fun(&mut arena, name, fun2);
    assert_eq!(modu.fun(&arena, name).unwrap(), fun2);

    // lookup by a re-made ident of the same text still hits
    let name_again = Ident::new_string(&mut arena, b"main".to_vec());
    assert_eq!(modu.fun(&arena, name_again).unwrap(), fun2);
}

#[test]
fn define_and_look_up_types() {
    let mut arena = Arena::new();
    let modu = Modu::new(&mut arena, Ident::new_number(0));
    let name = Ident::new_string(&mut arena, b"pair".to_vec());
    let descriptor = typ::Struct::new(&mut arena, name, typ::StructProto::Tuple(2));

    assert_eq!(modu.typ(&arena, name), Err(Error::FunctionNotFound { ident: name }));
    modu.define_typ(&mut arena, name, Typ::Struct(descriptor));
    assert_eq!(modu.typ(&arena, name).unwrap(), Typ::Struct(descriptor));
}

#[test]
fn children_are_registered_with_their_parent() {
    let mut arena = Arena::new();
    let parent = Modu::new(&mut arena, Ident::new_number(0));
    let name = Ident::new_string(&mut arena, b"inner".to_vec());
    let child = Modu::with_parent_modu(&mut arena, name, parent);

    // creation links the child to its parent but leaves the parent's tables
    // untouched; registration is its own loading-time operation
    assert_eq!(parent.child(&arena, name), Err(Error::FunctionNotFound { ident: name }));
    parent.define_child(&mut arena, name, child);
    assert_eq!(parent.child(&arena, name).unwrap(), child);
    let other = Ident::new_string(&mut arena, b"outer".to_vec());
    assert_eq!(parent.child(&arena, other), Err(Error::FunctionNotFound { ident: other }));
}

#[test]
fn method_tables_on_descriptors() {
    let mut arena = Arena::new();
    let name = Ident::new_string(&mut arena, b"area".to_vec());
    let mut chunk = ChunkBuilder::new();
    let chunk = chunk.build(&mut arena);
    let fun = Fun::new_chunk(&mut arena, 0, chunk);

    let mut def = typ::StructData {
        ident: Ident::new_number(3),
        proto: typ::StructProto::Tuple(2),
        funs: Vec::new(),
    };
    assert_eq!(def.fun(name), Err(Error::FunctionNotFound { ident: name }));
    def.define_fun(name, fun);
    assert_eq!(def.fun(name).unwrap(), fun);

    let mut edef = typ::EnumData {
        ident: Ident::new_number(4),
        variants: Vec::new(),
        funs: Vec::new(),
    };
    edef.define_fun(name, fun);
    assert_eq!(edef.fun(name).unwrap(), fun);
}
