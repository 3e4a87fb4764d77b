//! Compiler front end for a small statically-typed imperative language:
//! a tokenizer over source characters, a recursive-descent parser with
//! operator-precedence tiers, and a code generator that lowers the syntax
//! tree to a block-structured intermediate representation.

pub mod ast;
pub mod chars;
pub mod compiler;
pub mod lexer;
pub mod parser;
pub mod token;
