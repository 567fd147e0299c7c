//! A small dynamically-typed scripting language: a Pratt-style
//! single-pass compiler that turns source text into a linear stream of
//! 16-bit code words with an out-of-line, deduplicated constant pool,
//! and a stack machine that executes that stream.
//!
//! The scanner is specified functionally; the compiler is specified
//! structurally — what each emitter appends, and a chunk invariant that
//! the pool holds no duplicates, that every constant operand is in
//! range, and that every emitted jump is patched by the time
//! compilation ends; and the machine is proven to follow a small-step
//! transition relation, one instruction at a time.

pub mod compiler;
pub mod memoryslice;
pub mod numbers;
pub mod opcodes;
pub mod scanner;
pub mod token;
pub mod values;
pub mod virtualmachine;
