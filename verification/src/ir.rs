//! The three-address intermediate representation: its instruction forms and
//! the lowering from the AST.

pub mod gen_ir;
pub mod types_ir;
