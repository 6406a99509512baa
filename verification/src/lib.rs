//! An assembler for a small tape-machine instruction set: source programs made
//! of labeled instructions and data literals are compiled into a flat,
//! fixed-size array of signed 32-bit integers (the "tape"). The pipeline
//! desugars pointer-dereference arguments into primitive copy instructions,
//! resolves symbolic labels across nested block scopes, and lays out the
//! fixed-size memory image with a code region and a trailing data region.

pub mod ast;
pub mod codegen;
pub mod desugar;
pub mod error;
pub mod labels;
pub mod laws;
pub mod lexeme;
pub mod symtab;
pub mod tape;
