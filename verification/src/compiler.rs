//! Code generation: the syntax tree the generator consumes, the lowering
//! that produces it from a parse, the scope tracker, the intermediate
//! representation, and the generator itself.

pub mod ast;
pub mod compiler;
pub mod ir;
pub mod lower;
pub mod scope_manager;
