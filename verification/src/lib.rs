//! A small compiler back end: a typed intermediate representation of
//! procedures, a graph-colouring register allocator and a lowering to
//! AArch64 assembly text.

pub mod arm64;
pub mod codegen;
pub mod graph;
pub mod ir;
pub mod layout;
pub mod text;
pub mod util;
