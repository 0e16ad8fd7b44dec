//! The compiler-facing surface of the core: the builder a front-end uses to
//! assemble chunks.

pub mod generator;
