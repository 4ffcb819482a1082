//! A small ahead-of-time compiler for a C-like language, targeting x86-64
//! assembly in Intel syntax under the System V AMD64 calling convention.
//!
//! The pipeline is strictly linear: source text is tokenized, parsed into an
//! AST, lowered to a flat three-address code (TAC) over an unbounded pool of
//! virtual registers, analyzed for live ranges, register-allocated by linear
//! scan, laid out on a stack frame, and finally rendered as assembly text.

pub mod driver;
pub mod frame;
pub mod gen_x64;
pub mod ir;
pub mod lexer;
pub mod parser;
pub mod reg_alloc;
pub mod types;
