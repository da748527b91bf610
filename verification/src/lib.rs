//! A minimal language toolchain: source text is lexed and parsed, lowered to a
//! stack bytecode module, and then either interpreted directly by a stack-based
//! virtual machine or replayed by a trace recorder into a linear, typed
//! intermediate representation that folds constants and eliminates common
//! subexpressions on the fly.

pub mod ast;
pub mod bytecode;
pub mod codegen;
pub mod ir;
pub mod jit;
pub mod lexer;
pub mod parser;
pub mod vm;
