//! Lexical analysis: the token data model, a mathematical model of the
//! tokenizer, the tokenizer itself, and the laws it obeys.

pub mod laws;
pub mod model;
pub mod tokens;
pub mod types;
