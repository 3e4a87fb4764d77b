//! The syntax tree the code generator consumes.
//!
//! It differs from the parser's tree where the generator wants plainer
//! data: a declaration statement may hold several variables with optional
//! initializers, a return's expression is optional, assignment is a node
//! of its own naming its target, and a call names its callee. The
//! lowering in `lower` desugars the parser's tree into this one.

use vstd::prelude::*;

use crate::token::Type;

verus! {

/// A whole program ready for code generation.
#[derive(Debug, PartialEq, Eq)]
pub struct Program {
    pub func_defs: Vec<FuncDef>,
}

/// One function definition; the visibility flag controls the generated
/// linkage.
#[derive(Debug, PartialEq, Eq)]
pub struct FuncDef {
    pub name: Vec<char>,
    pub params: Vec<FuncParam>,
    pub return_type: Type,
    pub body: Vec<Statement>,
    pub is_public: bool,
}

/// One declared parameter.
#[derive(Debug, PartialEq, Eq)]
pub struct FuncParam {
    pub param_type: Type,
    pub param_name: Vec<char>,
}

/// One statement.
#[derive(Debug, PartialEq, Eq)]
pub enum Statement {
    VarDeclarations(Vec<VarDeclaration>),
    WhileLoop(WhileLoop),
    Expr(Expr),
    Return(Option<Expr>),
}

/// One declared variable with its optional initializer.
#[derive(Debug, PartialEq, Eq)]
pub struct VarDeclaration {
    pub var_name: Vec<char>,
    pub var_type: Type,
    pub var_value: Option<Expr>,
}

/// A while loop: condition and body.
#[derive(Debug, PartialEq, Eq)]
pub struct WhileLoop {
    pub condition: Expr,
    pub body: Vec<Statement>,
}

/// The arithmetic and signed-comparison operators the generator lowers.
#[derive(Debug, Clone, Copy, PartialEq, Eq, Structural)]
pub enum BinaryOperator {
    Add,
    Subtract,
    Multiply,
    Divide,
    EqualTo,
    NotEqualTo,
    LessThan,
    LessOrEqualTo,
    GreaterThan,
    GreaterOrEqualTo,
}

/// One expression.
#[derive(Debug, PartialEq, Eq)]
pub enum Expr {
    Identifier(Vec<char>),
    I64Literal(i64),
    Binary(Binary),
    Call(Call),
    Assign(Assign),
}

/// A binary expression.
#[derive(Debug, PartialEq, Eq)]
pub struct Binary {
    pub left: Box<Expr>,
    pub operator: BinaryOperator,
    pub right: Box<Expr>,
}

/// A call of a function by name.
#[derive(Debug, PartialEq, Eq)]
pub struct Call {
    pub function_name: Vec<char>,
    pub args: Vec<Expr>,
}

/// An assignment to a declared variable by name.
#[derive(Debug, PartialEq, Eq)]
pub struct Assign {
    pub name: Vec<char>,
    pub value: Box<Expr>,
}

} // verus!
