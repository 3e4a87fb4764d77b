//! The abstract syntax tree the parser produces: plain data, no behavior.

use vstd::prelude::*;

use crate::token::Type;

verus! {

/// A whole source file: its function definitions in declaration order.
#[derive(Debug, PartialEq, Eq)]
pub struct Program {
    pub func_defs: Vec<FuncDef>,
}

/// One function definition.
#[derive(Debug, PartialEq, Eq)]
pub struct FuncDef {
    pub name: Vec<char>,
    pub params: Vec<FuncParam>,
    pub return_type: Type,
    pub body: Vec<Statement>,
}

/// One declared parameter.
#[derive(Debug, PartialEq, Eq)]
pub struct FuncParam {
    pub param_type: Type,
    pub param_name: Vec<char>,
}

/// One statement.
#[derive(Debug, PartialEq, Eq)]
pub enum Statement {
    VarDeclaration(VarDeclaration),
    WhileLoop(WhileLoop),
    ExprStatement(Expr),
    /// A return with an optional expression; a bare return returns void.
    ReturnStatement(Option<Expr>),
}

/// A variable declaration with its mandatory initializer.
#[derive(Debug, PartialEq, Eq)]
pub struct VarDeclaration {
    pub var_name: Vec<char>,
    pub var_type: Type,
    pub var_value: Expr,
}

/// A while loop: condition and body.
#[derive(Debug, PartialEq, Eq)]
pub struct WhileLoop {
    pub condition: Expr,
    pub body: Vec<Statement>,
}

/// Binary operators, assignment and compound assignment among them.
#[derive(Debug, Clone, Copy, PartialEq, Eq, Structural)]
pub enum BinaryOperator {
    Add,
    Subtract,
    Multiply,
    Divide,
    EqualTo,
    NotEqualTo,
    LessThan,
    LessOrEqualTo,
    GreaterThan,
    GreaterOrEqualTo,
    Assign,
    PlusEq,
    MinusEq,
    TimesEq,
    DivideEq,
}

/// One expression.
#[derive(Debug, PartialEq, Eq)]
pub enum Expr {
    Identifier(Vec<char>),
    I64Literal(i64),
    BinExpr(BinExpr),
    CallExpr(CallExpr),
    IndexExpr(IndexExpr),
}

/// A binary expression.
#[derive(Debug, PartialEq, Eq)]
pub struct BinExpr {
    pub left: Box<Expr>,
    pub operator: BinaryOperator,
    pub right: Box<Expr>,
}

/// A call, whose callee is itself an expression so that calls chain.
#[derive(Debug, PartialEq, Eq)]
pub struct CallExpr {
    pub function_name: Box<Expr>,
    pub args: Vec<Expr>,
}

/// An index application; parsing its index form is not implemented, so no
/// parse ever produces one.
#[derive(Debug, PartialEq, Eq)]
pub struct IndexExpr {
    pub container: Box<Expr>,
}

} // verus!
