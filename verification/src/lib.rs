//! An interpreter for an eight-symbol esoteric language over a flat
//! byte tape: a lexer that filters source text down to the instruction
//! alphabet, a run-length encoder that merges repeated symbols, a jump
//! resolver that links loop brackets, and a small virtual machine that
//! executes the resolved operation list.

pub mod cli;
pub mod compiler;
pub mod encoder;
pub mod errors;
pub mod interpreter;
pub mod lexer;
pub mod machine;
pub mod ops;
pub mod resolver;
