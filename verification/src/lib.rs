//! Runtime execution core of a small bytecode virtual machine: a tagged value
//! model, a module/function object graph, and an operand-stack machine that
//! interprets compiled chunks.
//!
//! Heap sharing is modelled explicitly: every compound value (string, tuple,
//! struct, enum, optional, closure), every scope and every module lives in an
//! [`arena::Arena`] and is addressed through a small copyable handle.  Two
//! handles are equal exactly when they address the same cell, which gives
//! heap-backed values the identity equality the language asks for, while
//! primitives compare by value.

#![allow(unused_imports)]

pub mod arena;
pub mod compiler;
pub mod engine;
pub mod error;
pub mod fun;
pub mod ident;
pub mod instr;
pub mod modu;
pub mod typ;
pub mod value;
