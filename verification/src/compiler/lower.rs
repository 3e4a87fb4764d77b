//! Lowering the parser's tree into the generator's tree.
//!
//! Compound assignments desugar into an assignment of a binary expression
//! over the target; plain assignment becomes the generator's assignment
//! node, whose target must be a name; a call's callee must be a name; a
//! declaration becomes a one-element declaration list with its
//! initializer present. Index expressions are not implemented. Every
//! function is public for now: the grammar has no visibility syntax, and
//! public keeps the generated linkage external.

use vstd::prelude::*;

use crate::ast as parsed;
use crate::chars::copy_chars;
use crate::compiler::ast::{
    Assign, Binary, BinaryOperator, Call, Expr, FuncDef, FuncParam, Program, Statement,
    VarDeclaration, WhileLoop,
};

verus! {

/// The generator operator a plain parser operator stands for; `None` for
/// assignment and compound assignment.
pub open spec fn plain_op(op: parsed::BinaryOperator) -> Option<BinaryOperator> {
    match op {
        parsed::BinaryOperator::Add => Some(BinaryOperator::Add),
        parsed::BinaryOperator::Subtract => Some(BinaryOperator::Subtract),
        parsed::BinaryOperator::Multiply => Some(BinaryOperator::Multiply),
        parsed::BinaryOperator::Divide => Some(BinaryOperator::Divide),
        parsed::BinaryOperator::EqualTo => Some(BinaryOperator::EqualTo),
        parsed::BinaryOperator::NotEqualTo => Some(BinaryOperator::NotEqualTo),
        parsed::BinaryOperator::LessThan => Some(BinaryOperator::LessThan),
        parsed::BinaryOperator::LessOrEqualTo => Some(BinaryOperator::LessOrEqualTo),
        parsed::BinaryOperator::GreaterThan => Some(BinaryOperator::GreaterThan),
        parsed::BinaryOperator::GreaterOrEqualTo => Some(BinaryOperator::GreaterOrEqualTo),
        _ => None,
    }
}

/// The arithmetic operator a compound assignment abbreviates; `None` for
/// anything else.
pub open spec fn compound_op(op: parsed::BinaryOperator) -> Option<BinaryOperator> {
    match op {
        parsed::BinaryOperator::PlusEq => Some(BinaryOperator::Add),
        parsed::BinaryOperator::MinusEq => Some(BinaryOperator::Subtract),
        parsed::BinaryOperator::TimesEq => Some(BinaryOperator::Multiply),
        parsed::BinaryOperator::DivideEq => Some(BinaryOperator::Divide),
        _ => None,
    }
}

/// The parsed expression lowers to exactly this generator expression.
pub open spec fn lowers_to(e: parsed::Expr, c: Expr) -> bool
    decreases e,
{
    match e {
        parsed::Expr::Identifier(n) => c is Identifier && c->Identifier_0@ == n@,
        parsed::Expr::I64Literal(x) => c is I64Literal && c->I64Literal_0 == x,
        parsed::Expr::BinExpr(b) => {
            if b.operator is Assign {
                &&& (*b.left) is Identifier
                &&& c is Assign
                &&& c->Assign_0.name@ == (*b.left)->Identifier_0@
                &&& lowers_to(*b.right, *c->Assign_0.value)
            } else if compound_op(b.operator) is Some {
                &&& (*b.left) is Identifier
                &&& c is Assign
                &&& c->Assign_0.name@ == (*b.left)->Identifier_0@
                &&& (*c->Assign_0.value) is Binary
                &&& {
                    let inner = (*c->Assign_0.value)->Binary_0;
                    &&& (*inner.left) is Identifier
                    &&& (*inner.left)->Identifier_0@ == (*b.left)->Identifier_0@
                    &&& Some(inner.operator) == compound_op(b.operator)
                    &&& lowers_to(*b.right, *inner.right)
                }
            } else {
                &&& c is Binary
                &&& Some(c->Binary_0.operator) == plain_op(b.operator)
                &&& lowers_to(*b.left, *c->Binary_0.left)
                &&& lowers_to(*b.right, *c->Binary_0.right)
            }
        },
        parsed::Expr::CallExpr(cc) => {
            &&& (*cc.function_name) is Identifier
            &&& c is Call
            &&& c->Call_0.function_name@ == (*cc.function_name)->Identifier_0@
            &&& args_lower(cc.args@, c->Call_0.args@)
        },
        parsed::Expr::IndexExpr(_) => false,
    }
}

/// Each argument lowers to its counterpart.
pub open spec fn args_lower(es: Seq<parsed::Expr>, cs: Seq<Expr>) -> bool
    decreases es,
{
    &&& es.len() == cs.len()
    &&& forall|i: int| 0 <= i < es.len() ==> lowers_to(#[trigger] es[i], cs[i])
}

/// Whether lowering this expression fails: an index expression, an
/// assignment whose target is no name, or a call whose callee is no
/// name, anywhere inside.
pub open spec fn lower_blocked(e: parsed::Expr) -> bool
    decreases e,
{
    match e {
        parsed::Expr::Identifier(_) => false,
        parsed::Expr::I64Literal(_) => false,
        parsed::Expr::BinExpr(b) => {
            if b.operator is Assign || compound_op(b.operator) is Some {
                !((*b.left) is Identifier) || lower_blocked(*b.right)
            } else {
                lower_blocked(*b.left) || lower_blocked(*b.right)
            }
        },
        parsed::Expr::CallExpr(cc) => !((*cc.function_name) is Identifier) || any_blocked(
            cc.args@,
        ),
        parsed::Expr::IndexExpr(_) => true,
    }
}

/// Whether lowering fails somewhere in an argument list.
pub open spec fn any_blocked(es: Seq<parsed::Expr>) -> bool
    decreases es,
{
    exists|i: int| 0 <= i < es.len() && lower_blocked(#[trigger] es[i])
}

/// The parsed statement lowers to exactly this generator statement.
pub open spec fn stmt_lowers_to(s: parsed::Statement, c: Statement) -> bool
    decreases s,
{
    match s {
        parsed::Statement::VarDeclaration(vd) => {
            &&& c is VarDeclarations
            &&& c->VarDeclarations_0@.len() == 1
            &&& {
                let d = c->VarDeclarations_0@[0];
                &&& d.var_name@ == vd.var_name@
                &&& d.var_type == vd.var_type
                &&& d.var_value is Some
                &&& lowers_to(vd.var_value, d.var_value->0)
            }
        },
        parsed::Statement::WhileLoop(w) => {
            &&& c is WhileLoop
            &&& lowers_to(w.condition, c->WhileLoop_0.condition)
            &&& stmts_lower(w.body@, c->WhileLoop_0.body@)
        },
        parsed::Statement::ExprStatement(e) => c is Expr && lowers_to(e, c->Expr_0),
        parsed::Statement::ReturnStatement(opt) => {
            &&& c is Return
            &&& match opt {
                Some(e) => c->Return_0 is Some && lowers_to(e, c->Return_0->0),
                None => c->Return_0 is None,
            }
        },
    }
}

/// Each statement lowers to its counterpart.
pub open spec fn stmts_lower(ss: Seq<parsed::Statement>, cs: Seq<Statement>) -> bool
    decreases ss,
{
    &&& ss.len() == cs.len()
    &&& forall|i: int| 0 <= i < ss.len() ==> stmt_lowers_to(#[trigger] ss[i], cs[i])
}

/// Whether lowering this statement fails.
pub open spec fn stmt_blocked(s: parsed::Statement) -> bool
    decreases s,
{
    match s {
        parsed::Statement::VarDeclaration(vd) => lower_blocked(vd.var_value),
        parsed::Statement::WhileLoop(w) => lower_blocked(w.condition) || any_stmt_blocked(w.body@),
        parsed::Statement::ExprStatement(e) => lower_blocked(e),
        parsed::Statement::ReturnStatement(opt) => match opt {
            Some(e) => lower_blocked(e),
            None => false,
        },
    }
}

/// Whether lowering fails somewhere in a statement list.
pub open spec fn any_stmt_blocked(ss: Seq<parsed::Statement>) -> bool
    decreases ss,
{
    exists|i: int| 0 <= i < ss.len() && stmt_blocked(#[trigger] ss[i])
}

/// The parsed function lowers to exactly this generator function; every
/// lowered function is public.
pub open spec fn func_lowers_to(f: parsed::FuncDef, c: FuncDef) -> bool {
    &&& c.name@ == f.name@
    &&& c.params@.len() == f.params@.len()
    &&& forall|i: int|
        0 <= i < f.params@.len() ==> (#[trigger] c.params@[i]).param_name@
            == f.params@[i].param_name@ && c.params@[i].param_type == f.params@[i].param_type
    &&& c.return_type == f.return_type
    &&& stmts_lower(f.body@, c.body@)
    &&& c.is_public == true
}

/// The parsed program lowers to exactly this generator program.
pub open spec fn program_lowers_to(p: parsed::Program, c: Program) -> bool {
    &&& c.func_defs@.len() == p.func_defs@.len()
    &&& forall|i: int|
        0 <= i < p.func_defs@.len() ==> func_lowers_to(
            #[trigger] p.func_defs@[i],
            c.func_defs@[i],
        )
}

/// Whether lowering the program fails.
pub open spec fn program_blocked(p: parsed::Program) -> bool {
    exists|i: int| 0 <= i < p.func_defs@.len() && any_stmt_blocked((#[trigger] p.func_defs@[i]).body@)
}

/// Arguments that lower pointwise lower as a list.
proof fn lemma_args_lower(es: Seq<parsed::Expr>, cs: Seq<Expr>)
    requires
        es.len() == cs.len(),
        forall|i: int| 0 <= i < es.len() ==> lowers_to(#[trigger] es[i], cs[i]),
    ensures
        args_lower(es, cs),
{
}

/// Statements that lower pointwise lower as a list.
proof fn lemma_stmts_lower(ss: Seq<parsed::Statement>, cs: Seq<Statement>)
    requires
        ss.len() == cs.len(),
        forall|i: int| 0 <= i < ss.len() ==> stmt_lowers_to(#[trigger] ss[i], cs[i]),
    ensures
        stmts_lower(ss, cs),
{
}

/// Why a lowering failed.
#[derive(Debug, Clone, Copy, PartialEq, Eq, Structural)]
pub enum LowerError {
    /// Lowering an index expression is not implemented.
    IndexingNotImplemented,
    /// An assignment's target must be a name.
    AssignTargetNotName,
    /// A call's callee must be a name.
    CalleeNotName,
}

/// The generator operator a plain parser operator stands for.
fn plain_operator(op: parsed::BinaryOperator) -> (r: Option<BinaryOperator>)
    ensures
        r == plain_op(op),
{
    match op {
        parsed::BinaryOperator::Add => Some(BinaryOperator::Add),
        parsed::BinaryOperator::Subtract => Some(BinaryOperator::Subtract),
        parsed::BinaryOperator::Multiply => Some(BinaryOperator::Multiply),
        parsed::BinaryOperator::Divide => Some(BinaryOperator::Divide),
        parsed::BinaryOperator::EqualTo => Some(BinaryOperator::EqualTo),
        parsed::BinaryOperator::NotEqualTo => Some(BinaryOperator::NotEqualTo),
        parsed::BinaryOperator::LessThan => Some(BinaryOperator::LessThan),
        parsed::BinaryOperator::LessOrEqualTo => Some(BinaryOperator::LessOrEqualTo),
        parsed::BinaryOperator::GreaterThan => Some(BinaryOperator::GreaterThan),
        parsed::BinaryOperator::GreaterOrEqualTo => Some(BinaryOperator::GreaterOrEqualTo),
        _ => None,
    }
}

/// The arithmetic operator a compound assignment abbreviates.
fn compound_operator(op: parsed::BinaryOperator) -> (r: Option<BinaryOperator>)
    ensures
        r == compound_op(op),
{
    match op {
        parsed::BinaryOperator::PlusEq => Some(BinaryOperator::Add),
        parsed::BinaryOperator::MinusEq => Some(BinaryOperator::Subtract),
        parsed::BinaryOperator::TimesEq => Some(BinaryOperator::Multiply),
        parsed::BinaryOperator::DivideEq => Some(BinaryOperator::Divide),
        _ => None,
    }
}

/// Lower one expression.
#[verifier::loop_isolation(false)]
pub fn lower_expr(e: &parsed::Expr) -> (r: Result<Expr, LowerError>)
    ensures
        r is Ok <==> !lower_blocked(*e),
        r is Ok ==> lowers_to(*e, r->Ok_0),
    decreases *e,
{
    match e {
        parsed::Expr::Identifier(n) => Ok(Expr::Identifier(copy_chars(n))),
        parsed::Expr::I64Literal(x) => Ok(Expr::I64Literal(*x)),
        parsed::Expr::BinExpr(b) => {
            let assign_like = match b.operator {
                parsed::BinaryOperator::Assign => true,
                _ => false,
            };
            let compound = compound_operator(b.operator);
            if assign_like || compound.is_some() {
                match &*b.left {
                    parsed::Expr::Identifier(n) => {
                        let value = lower_expr(&*b.right)?;
                        if assign_like {
                            Ok(
                                Expr::Assign(
                                    Assign { name: copy_chars(n), value: Box::new(value) },
                                ),
                            )
                        } else {
                            let op = compound.unwrap();
                            let inner = Expr::Binary(
                                Binary {
                                    left: Box::new(Expr::Identifier(copy_chars(n))),
                                    operator: op,
                                    right: Box::new(value),
                                },
                            );
                            Ok(
                                Expr::Assign(
                                    Assign { name: copy_chars(n), value: Box::new(inner) },
                                ),
                            )
                        }
                    },
                    _ => Err(LowerError::AssignTargetNotName),
                }
            } else {
                let op = plain_operator(b.operator).unwrap();
                let left = lower_expr(&*b.left)?;
                let right = lower_expr(&*b.right)?;
                Ok(
                    Expr::Binary(
                        Binary { left: Box::new(left), operator: op, right: Box::new(right) },
                    ),
                )
            }
        },
        parsed::Expr::CallExpr(cc) => {
            match &*cc.function_name {
                parsed::Expr::Identifier(n) => {
                    let mut args: Vec<Expr> = Vec::new();
                    let mut i: usize = 0;
                    while i < cc.args.len()
                        invariant
                            i <= cc.args.len(),
                            args@.len() == i,
                            forall|j: int|
                                0 <= j < i ==> lowers_to(#[trigger] cc.args@[j], args@[j])
                                    && !lower_blocked(cc.args@[j]),
                        decreases cc.args.len() - i,
                    {
                        let a = match lower_expr(&cc.args[i]) {
                            Ok(a) => a,
                            Err(err) => {
                                proof {
                                    assert(lower_blocked(cc.args@[i as int]));
                                    assert(any_blocked(cc.args@));
                                }
                                return Err(err);
                            },
                        };
                        args.push(a);
                        i = i + 1;
                    }
                    proof {
                        if any_blocked(cc.args@) {
                            let j = choose|j: int|
                                0 <= j < cc.args@.len() && lower_blocked(#[trigger] cc.args@[j]);
                            assert(!lower_blocked(cc.args@[j]));
                        }
                    }
                    proof {
                        lemma_args_lower(cc.args@, args@);
                    }
                    Ok(Expr::Call(Call { function_name: copy_chars(n), args }))
                },
                _ => Err(LowerError::CalleeNotName),
            }
        },
        parsed::Expr::IndexExpr(_) => Err(LowerError::IndexingNotImplemented),
    }
}

/// Lower one statement.
#[verifier::loop_isolation(false)]
pub fn lower_statement(s: &parsed::Statement) -> (r: Result<Statement, LowerError>)
    ensures
        r is Ok <==> !stmt_blocked(*s),
        r is Ok ==> stmt_lowers_to(*s, r->Ok_0),
    decreases *s,
{
    match s {
        parsed::Statement::VarDeclaration(vd) => {
            let value = lower_expr(&vd.var_value)?;
            let mut decls: Vec<VarDeclaration> = Vec::new();
            decls.push(
                VarDeclaration {
                    var_name: copy_chars(&vd.var_name),
                    var_type: vd.var_type,
                    var_value: Some(value),
                },
            );
            Ok(Statement::VarDeclarations(decls))
        },
        parsed::Statement::WhileLoop(w) => {
            let condition = lower_expr(&w.condition)?;
            let mut body: Vec<Statement> = Vec::new();
            let mut i: usize = 0;
            while i < w.body.len()
                invariant
                    i <= w.body.len(),
                    body@.len() == i,
                    forall|j: int|
                        0 <= j < i ==> stmt_lowers_to(#[trigger] w.body@[j], body@[j])
                            && !stmt_blocked(w.body@[j]),
                decreases w.body.len() - i,
            {
                let st = match lower_statement(&w.body[i]) {
                    Ok(st) => st,
                    Err(err) => {
                        proof {
                            assert(stmt_blocked(w.body@[i as int]));
                            assert(any_stmt_blocked(w.body@));
                        }
                        return Err(err);
                    },
                };
                body.push(st);
                i = i + 1;
            }
            proof {
                if any_stmt_blocked(w.body@) {
                    let j = choose|j: int|
                        0 <= j < w.body@.len() && stmt_blocked(#[trigger] w.body@[j]);
                    assert(!stmt_blocked(w.body@[j]));
                }
            }
            proof {
                lemma_stmts_lower(w.body@, body@);
            }
            Ok(Statement::WhileLoop(WhileLoop { condition, body }))
        },
        parsed::Statement::ExprStatement(e) => {
            let c = lower_expr(e)?;
            Ok(Statement::Expr(c))
        },
        parsed::Statement::ReturnStatement(opt) => match opt {
            Some(e) => {
                let c = lower_expr(e)?;
                Ok(Statement::Return(Some(c)))
            },
            None => Ok(Statement::Return(None)),
        },
    }
}

/// Lower one function definition; the result is public.
#[verifier::loop_isolation(false)]
pub fn lower_func_def(f: &parsed::FuncDef) -> (r: Result<FuncDef, LowerError>)
    ensures
        r is Ok <==> !any_stmt_blocked(f.body@),
        r is Ok ==> func_lowers_to(*f, r->Ok_0),
{
    let mut params: Vec<FuncParam> = Vec::new();
    let mut i: usize = 0;
    while i < f.params.len()
        invariant
            i <= f.params.len(),
            params@.len() == i,
            forall|j: int|
                0 <= j < i ==> (#[trigger] params@[j]).param_name@ == f.params@[j].param_name@
                    && params@[j].param_type == f.params@[j].param_type,
        decreases f.params.len() - i,
    {
        params.push(
            FuncParam {
                param_type: f.params[i].param_type,
                param_name: copy_chars(&f.params[i].param_name),
            },
        );
        i = i + 1;
    }

    let mut body: Vec<Statement> = Vec::new();
    let mut k: usize = 0;
    while k < f.body.len()
        invariant
            k <= f.body.len(),
            body@.len() == k,
            forall|j: int|
                0 <= j < k ==> stmt_lowers_to(#[trigger] f.body@[j], body@[j]) && !stmt_blocked(
                    f.body@[j],
                ),
        decreases f.body.len() - k,
    {
        let st = match lower_statement(&f.body[k]) {
            Ok(st) => st,
            Err(err) => {
                proof {
                    assert(stmt_blocked(f.body@[k as int]));
                    assert(any_stmt_blocked(f.body@));
                }
                return Err(err);
            },
        };
        body.push(st);
        k = k + 1;
    }
    proof {
        if any_stmt_blocked(f.body@) {
            let j = choose|j: int| 0 <= j < f.body@.len() && stmt_blocked(#[trigger] f.body@[j]);
            assert(!stmt_blocked(f.body@[j]));
        }
    }

    Ok(
        FuncDef {
            name: copy_chars(&f.name),
            params,
            return_type: f.return_type,
            body,
            is_public: true,
        },
    )
}

/// Lower a whole parsed program into the generator's tree.
#[verifier::loop_isolation(false)]
pub fn lower_program(p: &parsed::Program) -> (r: Result<Program, LowerError>)
    ensures
        r is Ok <==> !program_blocked(*p),
        r is Ok ==> program_lowers_to(*p, r->Ok_0),
{
    let mut func_defs: Vec<FuncDef> = Vec::new();
    let mut i: usize = 0;
    while i < p.func_defs.len()
        invariant
            i <= p.func_defs.len(),
            func_defs@.len() == i,
            forall|j: int|
                0 <= j < i ==> func_lowers_to(#[trigger] p.func_defs@[j], func_defs@[j])
                    && !any_stmt_blocked(p.func_defs@[j].body@),
        decreases p.func_defs.len() - i,
    {
        let f = match lower_func_def(&p.func_defs[i]) {
            Ok(f) => f,
            Err(err) => {
                proof {
                    assert(any_stmt_blocked(p.func_defs@[i as int].body@));
                    assert(program_blocked(*p));
                }
                return Err(err);
            },
        };
        func_defs.push(f);
        i = i + 1;
    }
    proof {
        if program_blocked(*p) {
            let j = choose|j: int|
                0 <= j < p.func_defs@.len() && any_stmt_blocked(
                    (#[trigger] p.func_defs@[j]).body@,
                );
            assert(!any_stmt_blocked(p.func_defs@[j].body@));
        }
    }
    Ok(Program { func_defs })
}

} // verus!
