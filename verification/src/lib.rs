//! Monkey: a small programming language with a lexer, a Pratt parser, a
//! bytecode compiler with closures, a stack machine that runs the
//! bytecode, and an evaluator that interprets the syntax tree directly.
//!
//! For the parser, the compiler, the machine and the evaluator a module
//! named `model` or `machine` says over sequences and maps what they
//! compute; the functions of the neighbouring module are proved to compute
//! exactly that. `compiler::laws` holds what is proved of every compiled
//! program.

pub mod agreement;
pub mod code;
pub mod compiler;
pub mod error;
pub mod eval;
pub mod lexer;
pub mod object;
pub mod parser;
pub mod text;
pub mod vm;
