//! The recursive-descent parser.
//!
//! The grammar is written down twice beside the executable parser: as
//! spec-level relations saying which token span reads as which
//! syntax-tree node — each relation also demands that the span cannot be
//! extended at its own precedence tier, so the greedy parse is the only
//! one admitted — and as the deterministic scanner `sp_..._end`, which
//! says for every position whether a parse succeeds and where it ends.
//! Each production's contract combines both: on success the result
//! stands in the relation for exactly the consumed tokens, and success
//! happens exactly where the scanner succeeds, so an error is only ever
//! returned where no parse exists.
//!
//! Precedence, low to high: assignment (right-associative), comparison
//! (non-associative, chaining is a fatal error), additive and
//! multiplicative (left-associative), then calls and atoms.

use vstd::prelude::*;

use crate::ast::{
    BinExpr, BinaryOperator, CallExpr, Expr, FuncDef, FuncParam, Program, Statement,
    VarDeclaration, WhileLoop,
};
use crate::chars::{copy_chars, same_text};
use crate::token::{Token, TokenView, OperatorSymbol, Type};

verus! {

/// Elementwise view of the parser's input.
pub open spec fn views(ts: Seq<Token>) -> Seq<TokenView> {
    ts.map_values(|t: Token| t@)
}

/// Tokens the parser passes over before statements and definitions.
pub open spec fn is_trivia(t: TokenView) -> bool {
    t is Newline || t is Comment || t is Docstring
}

/// First position at or after `p` holding no newline, comment or
/// docstring.
pub open spec fn skip_trivia(ts: Seq<TokenView>, p: int) -> int
    decreases ts.len() - p,
{
    if p >= ts.len() {
        p
    } else if is_trivia(ts[p]) {
        skip_trivia(ts, p + 1)
    } else {
        p
    }
}

/// Trivia skipping stops at the first substantial token.
pub proof fn lemma_skip_trivia(ts: Seq<TokenView>, p: int)
    requires
        p <= ts.len(),
    ensures
        p <= skip_trivia(ts, p) <= ts.len(),
        skip_trivia(ts, p) < ts.len() ==> !is_trivia(ts[skip_trivia(ts, p)]),
        forall|i: int| p <= i < skip_trivia(ts, p) ==> is_trivia(#[trigger] ts[i]),
    decreases ts.len() - p,
{
    if p < ts.len() && is_trivia(ts[p]) {
        lemma_skip_trivia(ts, p + 1);
    }
}

/// The assignment operator a token stands for, if any.
pub open spec fn assign_op(t: TokenView) -> Option<BinaryOperator> {
    match t {
        TokenView::OperatorSymbol(OperatorSymbol::Assign) => Some(BinaryOperator::Assign),
        TokenView::OperatorSymbol(OperatorSymbol::PlusEq) => Some(BinaryOperator::PlusEq),
        TokenView::OperatorSymbol(OperatorSymbol::MinusEq) => Some(BinaryOperator::MinusEq),
        TokenView::OperatorSymbol(OperatorSymbol::TimesEq) => Some(BinaryOperator::TimesEq),
        TokenView::OperatorSymbol(OperatorSymbol::DivideEq) => Some(BinaryOperator::DivideEq),
        _ => None,
    }
}

/// The comparison operator a token stands for, if any.
pub open spec fn cmp_op(t: TokenView) -> Option<BinaryOperator> {
    match t {
        TokenView::OperatorSymbol(OperatorSymbol::EqualTo) => Some(BinaryOperator::EqualTo),
        TokenView::OperatorSymbol(OperatorSymbol::NotEqualTo) => Some(BinaryOperator::NotEqualTo),
        TokenView::OperatorSymbol(OperatorSymbol::LessThan) => Some(BinaryOperator::LessThan),
        TokenView::OperatorSymbol(OperatorSymbol::LessOrEqualTo) => Some(
            BinaryOperator::LessOrEqualTo,
        ),
        TokenView::OperatorSymbol(OperatorSymbol::GreaterThan) => Some(BinaryOperator::GreaterThan),
        TokenView::OperatorSymbol(OperatorSymbol::GreaterOrEqualTo) => Some(
            BinaryOperator::GreaterOrEqualTo,
        ),
        _ => None,
    }
}

/// The additive operator a token stands for, if any.
pub open spec fn add_op(t: TokenView) -> Option<BinaryOperator> {
    match t {
        TokenView::OperatorSymbol(OperatorSymbol::Plus) => Some(BinaryOperator::Add),
        TokenView::OperatorSymbol(OperatorSymbol::Minus) => Some(BinaryOperator::Subtract),
        _ => None,
    }
}

/// The multiplicative operator a token stands for, if any.
pub open spec fn mul_op(t: TokenView) -> Option<BinaryOperator> {
    match t {
        TokenView::OperatorSymbol(OperatorSymbol::Asterisk) => Some(BinaryOperator::Multiply),
        TokenView::OperatorSymbol(OperatorSymbol::Slash) => Some(BinaryOperator::Divide),
        _ => None,
    }
}

/// Whether a call or index application starts at `p`.
pub open spec fn chain_continues(ts: Seq<TokenView>, p: int) -> bool {
    p < ts.len() && (ts[p] is LParen || ts[p] is LSquare)
}

/// Marks the seam between two parsed pieces: the position where the first
/// ends. It is always true; the grammar relations quantify over seams and
/// name this marker as the quantifier's trigger.
pub open spec fn seam(p: int, m: int) -> bool {
    true
}

/// The tokens `[p, end)` are one atom: an identifier or an integer
/// literal.
pub open spec fn atom_rel(ts: Seq<TokenView>, p: int, end: int, e: Expr) -> bool {
    &&& 0 <= p
    &&& p < ts.len()
    &&& end == p + 1
    &&& match e {
        Expr::Identifier(name) => ts[p] == TokenView::Identifier(name@),
        Expr::I64Literal(n) => ts[p] == TokenView::I64Literal(n),
        _ => false,
    }
}

/// The tokens `[p, end)` are an atom with zero or more call applications
/// layered onto it. Index applications never parse, so none appears.
pub open spec fn chain_rel(ts: Seq<TokenView>, p: int, end: int, e: Expr) -> bool
    decreases ts.len() - p, e, 1int,
{
    &&& 0 <= p
    &&& p < end
    &&& end <= ts.len()
    &&& {
        ||| atom_rel(ts, p, end, e)
        ||| match e {
            Expr::CallExpr(c) => exists|m: int|
                #[trigger] seam(p, m) && p < m && m < ts.len() && chain_rel(
                    ts,
                    p,
                    m,
                    *c.function_name,
                ) && args_rel(ts, m, end, c.args@),
            _ => false,
        }
    }
}

/// The tokens `[p, end)` are an argument list in parentheses.
pub open spec fn args_rel(ts: Seq<TokenView>, p: int, end: int, args: Seq<Expr>) -> bool
    decreases ts.len() - p, args, 12int,
{
    &&& 0 <= p
    &&& p < end
    &&& end <= ts.len()
    &&& ts[p] is LParen
    &&& if args.len() == 0 {
        p + 1 < ts.len() && ts[p + 1] is RParen && end == p + 2
    } else {
        args_items_rel(ts, p + 1, end, args)
    }
}

/// The tokens `[p, end)` are one or more comma-separated arguments
/// followed by the closing parenthesis.
pub open spec fn args_items_rel(ts: Seq<TokenView>, p: int, end: int, args: Seq<Expr>) -> bool
    decreases ts.len() - p, args, 11int,
{
    &&& 0 <= p
    &&& p < end
    &&& end <= ts.len()
    &&& args.len() >= 1
    &&& exists|m: int|
        {
            &&& #[trigger] seam(p, m)
            &&& p < m
            &&& m < ts.len()
            &&& expr_rel(ts, p, m, args[0])
            &&& if args.len() == 1 {
                ts[m] is RParen && end == m + 1
            } else {
                ts[m] is Comma && args_items_rel(ts, m + 1, end, args.drop_first())
            }
        }
}

/// The tokens `[p, end)` are one primary expression: a parenthesized
/// expression, or a call chain that no further application extends. A
/// bare integer literal escapes the continuation demand: only an
/// identifier opens the call path, so nothing ever extends a literal.
pub open spec fn primary_rel(ts: Seq<TokenView>, p: int, end: int, e: Expr) -> bool
    decreases ts.len() - p, e, 2int,
{
    &&& 0 <= p
    &&& p < end
    &&& end <= ts.len()
    &&& {
        ||| {
            &&& ts[p] is LParen
            &&& p + 1 < end - 1
            &&& expr_rel(ts, p + 1, end - 1, e)
            &&& ts[end - 1] is RParen
        }
        ||| {
            &&& chain_rel(ts, p, end, e)
            &&& (e is I64Literal || !chain_continues(ts, end))
        }
    }
}

/// The tokens `[p, end)` are a multiplicative fold whose rightmost factor
/// may still be extended by another `*` or `/`.
pub open spec fn mul_fold_rel(ts: Seq<TokenView>, p: int, end: int, e: Expr) -> bool
    decreases ts.len() - p, e, 3int,
{
    &&& 0 <= p
    &&& p < end
    &&& end <= ts.len()
    &&& {
        ||| primary_rel(ts, p, end, e)
        ||| match e {
            Expr::BinExpr(b) => exists|m: int|
                {
                    &&& #[trigger] seam(p, m)
                    &&& p < m
                    &&& m < ts.len()
                    &&& mul_fold_rel(ts, p, m, *b.left)
                    &&& mul_op(ts[m]) == Some(b.operator)
                    &&& primary_rel(ts, m + 1, end, *b.right)
                },
            _ => false,
        }
    }
}

/// The tokens `[p, end)` are a whole multiplicative expression:
/// left-associative, and not followed by another `*` or `/`.
pub open spec fn mul_rel(ts: Seq<TokenView>, p: int, end: int, e: Expr) -> bool
    decreases ts.len() - p, e, 4int,
{
    &&& mul_fold_rel(ts, p, end, e)
    &&& (end >= ts.len() || mul_op(ts[end]) is None)
}

/// The tokens `[p, end)` are an additive fold whose rightmost term may
/// still be extended by another `+` or `-`.
pub open spec fn add_fold_rel(ts: Seq<TokenView>, p: int, end: int, e: Expr) -> bool
    decreases ts.len() - p, e, 5int,
{
    &&& 0 <= p
    &&& p < end
    &&& end <= ts.len()
    &&& {
        ||| mul_rel(ts, p, end, e)
        ||| match e {
            Expr::BinExpr(b) => exists|m: int|
                {
                    &&& #[trigger] seam(p, m)
                    &&& p < m
                    &&& m < ts.len()
                    &&& add_fold_rel(ts, p, m, *b.left)
                    &&& add_op(ts[m]) == Some(b.operator)
                    &&& mul_rel(ts, m + 1, end, *b.right)
                },
            _ => false,
        }
    }
}

/// The tokens `[p, end)` are a whole additive expression:
/// left-associative over multiplicative ones, and not followed by another
/// `+` or `-`.
pub open spec fn add_rel(ts: Seq<TokenView>, p: int, end: int, e: Expr) -> bool
    decreases ts.len() - p, e, 6int,
{
    &&& add_fold_rel(ts, p, end, e)
    &&& (end >= ts.len() || add_op(ts[end]) is None)
}

/// The tokens `[p, end)` are a comparison tier expression: an additive
/// expression, or exactly one comparison of two additive expressions — a
/// second comparison operator never follows, chaining being a fatal
/// error.
pub open spec fn cmp_rel(ts: Seq<TokenView>, p: int, end: int, e: Expr) -> bool
    decreases ts.len() - p, e, 7int,
{
    &&& 0 <= p
    &&& p < end
    &&& end <= ts.len()
    &&& (end >= ts.len() || cmp_op(ts[end]) is None)
    &&& {
        ||| add_rel(ts, p, end, e)
        ||| match e {
            Expr::BinExpr(b) => exists|m: int|
                {
                    &&& #[trigger] seam(p, m)
                    &&& p < m
                    &&& m < ts.len()
                    &&& add_rel(ts, p, m, *b.left)
                    &&& cmp_op(ts[m]) == Some(b.operator)
                    &&& add_rel(ts, m + 1, end, *b.right)
                },
            _ => false,
        }
    }
}

/// The tokens `[p, end)` are an assignment tier expression:
/// right-associative assignment or compound assignment over comparisons.
pub open spec fn assign_rel(ts: Seq<TokenView>, p: int, end: int, e: Expr) -> bool
    decreases ts.len() - p, e, 8int,
{
    &&& 0 <= p
    &&& p < end
    &&& end <= ts.len()
    &&& {
        ||| {
            &&& cmp_rel(ts, p, end, e)
            &&& (end >= ts.len() || assign_op(ts[end]) is None)
        }
        ||| match e {
            Expr::BinExpr(b) => exists|m: int|
                {
                    &&& #[trigger] seam(p, m)
                    &&& p < m
                    &&& m < ts.len()
                    &&& cmp_rel(ts, p, m, *b.left)
                    &&& assign_op(ts[m]) == Some(b.operator)
                    &&& assign_rel(ts, m + 1, end, *b.right)
                },
            _ => false,
        }
    }
}

/// The tokens `[p, end)` are one whole expression.
pub open spec fn expr_rel(ts: Seq<TokenView>, p: int, end: int, e: Expr) -> bool
    decreases ts.len() - p, e, 9int,
{
    assign_rel(ts, p, end, e)
}

/// The tokens `[q, end)` are one statement's substance, before its
/// newline terminator: a variable declaration, a while loop, a return
/// statement, or — when no keyword opens one of those — an expression.
pub open spec fn stmt_core_rel(ts: Seq<TokenView>, q: int, end: int, st: Statement) -> bool
    decreases ts.len() - q, st, 12int,
{
    &&& 0 <= q
    &&& q < end
    &&& end <= ts.len()
    &&& match st {
        Statement::VarDeclaration(vd) => {
            &&& q + 2 < ts.len()
            &&& ts[q] == TokenView::Type(vd.var_type)
            &&& ts[q + 1] == TokenView::Identifier(vd.var_name@)
            &&& assign_op(ts[q + 2]) == Some(BinaryOperator::Assign)
            &&& expr_rel(ts, q + 3, end, vd.var_value)
        },
        Statement::WhileLoop(w) => {
            &&& ts[q] is While
            &&& exists|m: int|
                q + 1 < m < ts.len() && #[trigger] expr_rel(ts, q + 1, m, w.condition)
                    && body_rel(ts, m, end, w.body@)
        },
        Statement::ReturnStatement(opt) => {
            &&& ts[q] is Ret
            &&& match opt {
                Some(e) => {
                    &&& q + 1 < ts.len()
                    &&& !(ts[q + 1] is Newline)
                    &&& expr_rel(ts, q + 1, end, e)
                },
                None => end == q + 1 && (q + 1 >= ts.len() || ts[q + 1] is Newline),
            }
        },
        Statement::ExprStatement(e) => {
            &&& !(ts[q] is Type)
            &&& !(ts[q] is While)
            &&& !(ts[q] is Fn)
            &&& !(ts[q] is Ret)
            &&& expr_rel(ts, q, end, e)
        },
    }
}

/// The tokens `[p, end)` are leading trivia, one statement, and its
/// terminator: a newline, or the end of the tokens.
pub open spec fn stmt_rel(ts: Seq<TokenView>, p: int, end: int, st: Statement) -> bool
    decreases ts.len() - p, st, 13int,
        via stmt_rel_decreases
{
    &&& 0 <= p
    &&& p < end
    &&& end <= ts.len()
    &&& {
        let q = skip_trivia(ts, p);
        exists|m: int|
            {
                &&& #[trigger] seam(q, m)
                &&& q < m
                &&& m <= ts.len()
                &&& stmt_core_rel(ts, q, m, st)
                &&& if m == ts.len() {
                    end == m
                } else {
                    ts[m] is Newline && end == m + 1
                }
            }
    }
}

#[via_fn]
proof fn stmt_rel_decreases(ts: Seq<TokenView>, p: int, end: int, st: Statement) {
    if 0 <= p && p <= ts.len() {
        lemma_skip_trivia(ts, p);
    }
}

/// The tokens `[p, end)` are the statements of a block followed by its
/// closing brace. The brace check comes before trivia skipping, exactly
/// as the parser peeks.
pub open spec fn body_items_rel(ts: Seq<TokenView>, p: int, end: int, stmts: Seq<Statement>) -> bool
    decreases ts.len() - p, stmts, 14int,
        via body_items_rel_decreases
{
    &&& 0 <= p
    &&& p < end
    &&& end <= ts.len()
    &&& if stmts.len() == 0 {
        ts[p] is RSquirly && end == p + 1
    } else {
        &&& !(ts[p] is RSquirly)
        &&& exists|m: int|
            #[trigger] seam(p, m) && p < m && m <= ts.len() && stmt_rel(
                ts,
                p,
                m,
                stmts[0],
            ) && body_items_rel(ts, m, end, stmts.drop_first())
    }
}

#[via_fn]
proof fn body_items_rel_decreases(ts: Seq<TokenView>, p: int, end: int, stmts: Seq<Statement>) {
    if stmts.len() > 0 {
        assert(decreases_to!(stmts => stmts[0]));
    }
}

/// The tokens `[p, end)` are a braced statement block.
pub open spec fn body_rel(ts: Seq<TokenView>, p: int, end: int, stmts: Seq<Statement>) -> bool
    decreases ts.len() - p, stmts, 15int,
{
    &&& 0 <= p
    &&& p < end
    &&& end <= ts.len()
    &&& ts[p] is LSquirly
    &&& body_items_rel(ts, p + 1, end, stmts)
}

/// The tokens `[p, end)` are a parenthesized parameter list's items: one
/// or more `type name` pairs separated by commas, then the closing
/// parenthesis.
pub open spec fn params_items_rel(
    ts: Seq<TokenView>,
    p: int,
    end: int,
    params: Seq<FuncParam>,
) -> bool
    decreases ts.len() - p,
{
    &&& 0 <= p
    &&& p < end
    &&& end <= ts.len()
    &&& params.len() >= 1
    &&& p + 2 < ts.len()
    &&& ts[p] == TokenView::Type(params[0].param_type)
    &&& ts[p + 1] == TokenView::Identifier(params[0].param_name@)
    &&& if params.len() == 1 {
        ts[p + 2] is RParen && end == p + 3
    } else {
        ts[p + 2] is Comma && params_items_rel(ts, p + 3, end, params.drop_first())
    }
}

/// The tokens `[p, end)` are a parameter list in parentheses.
pub open spec fn params_rel(ts: Seq<TokenView>, p: int, end: int, params: Seq<FuncParam>) -> bool {
    &&& 0 <= p
    &&& p < end
    &&& end <= ts.len()
    &&& ts[p] is LParen
    &&& if params.len() == 0 {
        p + 1 < ts.len() && ts[p + 1] is RParen && end == p + 2
    } else {
        params_items_rel(ts, p + 1, end, params)
    }
}

/// The tokens `[p, end)` are leading trivia and one function definition:
/// `fn`, a name, parameters, an optional return type — void when the body
/// follows at once — and a braced body.
pub open spec fn func_def_rel(ts: Seq<TokenView>, p: int, end: int, f: FuncDef) -> bool {
    &&& 0 <= p
    &&& p < end
    &&& end <= ts.len()
    &&& {
        let q = skip_trivia(ts, p);
        &&& q + 1 < ts.len()
        &&& ts[q] is Fn
        &&& ts[q + 1] == TokenView::Identifier(f.name@)
        &&& exists|m: int|
            {
                &&& #[trigger] seam(q, m)
                &&& q + 1 < m
                &&& m < ts.len()
                &&& params_rel(ts, q + 2, m, f.params@)
                &&& if ts[m] is LSquirly {
                    f.return_type == Type::Void && body_rel(ts, m, end, f.body@)
                } else {
                    &&& ts[m] == TokenView::Type(f.return_type)
                    &&& m + 1 < ts.len()
                    &&& body_rel(ts, m + 1, end, f.body@)
                }
            }
    }
}

/// The tokens `[p, len)` are the given function definitions and trailing
/// trivia, consumed to the very end.
pub open spec fn program_items_rel(ts: Seq<TokenView>, p: int, fds: Seq<FuncDef>) -> bool
    decreases fds.len(),
{
    if fds.len() == 0 {
        skip_trivia(ts, p) == ts.len()
    } else {
        exists|m: int|
            #[trigger] seam(p, m) && p < m && func_def_rel(ts, p, m, fds[0]) && program_items_rel(
                ts,
                m,
                fds.drop_first(),
            )
    }
}

/// The whole token sequence reads as this program.
pub open spec fn program_rel(ts: Seq<TokenView>, prog: Program) -> bool {
    program_items_rel(ts, 0, prog.func_defs@)
}

/// An atom is a call chain.
pub proof fn lemma_chain_of_atom(ts: Seq<TokenView>, p: int, end: int, e: Expr)
    requires
        atom_rel(ts, p, end, e),
    ensures
        chain_rel(ts, p, end, e),
{
}

/// Layering an argument list onto a chain gives a chain.
pub proof fn lemma_chain_compose(ts: Seq<TokenView>, p: int, m: int, end: int, e: Expr)
    requires
        p < m,
        m < ts.len(),
        e is CallExpr,
        chain_rel(ts, p, m, *e->CallExpr_0.function_name),
        args_rel(ts, m, end, e->CallExpr_0.args@),
    ensures
        chain_rel(ts, p, end, e),
{
    assert(seam(p, m));
}

/// A chain that nothing extends — or a bare integer literal — is a
/// primary expression.
pub proof fn lemma_primary_of_chain(ts: Seq<TokenView>, p: int, end: int, e: Expr)
    requires
        chain_rel(ts, p, end, e),
        e is I64Literal || !chain_continues(ts, end),
    ensures
        primary_rel(ts, p, end, e),
{
}

/// A parenthesized expression is a primary expression.
pub proof fn lemma_primary_paren(ts: Seq<TokenView>, p: int, end: int, e: Expr)
    requires
        0 <= p,
        p < ts.len(),
        ts[p] is LParen,
        p + 1 < end - 1,
        end - 1 < ts.len(),
        expr_rel(ts, p + 1, end - 1, e),
        ts[end - 1] is RParen,
    ensures
        primary_rel(ts, p, end, e),
{
}

/// A primary expression opens a multiplicative fold.
pub proof fn lemma_mul_fold_of_primary(ts: Seq<TokenView>, p: int, end: int, e: Expr)
    requires
        primary_rel(ts, p, end, e),
    ensures
        mul_fold_rel(ts, p, end, e),
{
}

/// Extending a multiplicative fold by one operator and factor.
pub proof fn lemma_mul_fold_compose(ts: Seq<TokenView>, p: int, m: int, end: int, e: Expr)
    requires
        p < m,
        m < ts.len(),
        e is BinExpr,
        mul_fold_rel(ts, p, m, *e->BinExpr_0.left),
        mul_op(ts[m]) == Some(e->BinExpr_0.operator),
        primary_rel(ts, m + 1, end, *e->BinExpr_0.right),
    ensures
        mul_fold_rel(ts, p, end, e),
{
    assert(seam(p, m));
}

/// A fold that no further `*` or `/` extends is a whole multiplicative
/// expression.
pub proof fn lemma_mul_of_fold(ts: Seq<TokenView>, p: int, end: int, e: Expr)
    requires
        mul_fold_rel(ts, p, end, e),
        end >= ts.len() || mul_op(ts[end]) is None,
    ensures
        mul_rel(ts, p, end, e),
{
}

/// A multiplicative expression opens an additive fold.
pub proof fn lemma_add_fold_of_mul(ts: Seq<TokenView>, p: int, end: int, e: Expr)
    requires
        mul_rel(ts, p, end, e),
    ensures
        add_fold_rel(ts, p, end, e),
{
}

/// Extending an additive fold by one operator and term.
pub proof fn lemma_add_fold_compose(ts: Seq<TokenView>, p: int, m: int, end: int, e: Expr)
    requires
        p < m,
        m < ts.len(),
        e is BinExpr,
        add_fold_rel(ts, p, m, *e->BinExpr_0.left),
        add_op(ts[m]) == Some(e->BinExpr_0.operator),
        mul_rel(ts, m + 1, end, *e->BinExpr_0.right),
    ensures
        add_fold_rel(ts, p, end, e),
{
    assert(seam(p, m));
}

/// A fold that no further `+` or `-` extends is a whole additive
/// expression.
pub proof fn lemma_add_of_fold(ts: Seq<TokenView>, p: int, end: int, e: Expr)
    requires
        add_fold_rel(ts, p, end, e),
        end >= ts.len() || add_op(ts[end]) is None,
    ensures
        add_rel(ts, p, end, e),
{
}

/// An additive expression not followed by a comparison operator stands at
/// the comparison tier.
pub proof fn lemma_cmp_of_add(ts: Seq<TokenView>, p: int, end: int, e: Expr)
    requires
        add_rel(ts, p, end, e),
        end >= ts.len() || cmp_op(ts[end]) is None,
    ensures
        cmp_rel(ts, p, end, e),
{
}

/// One comparison of two additive expressions, not followed by another
/// comparison operator.
pub proof fn lemma_cmp_compose(ts: Seq<TokenView>, p: int, m: int, end: int, e: Expr)
    requires
        p < m,
        m < ts.len(),
        e is BinExpr,
        add_rel(ts, p, m, *e->BinExpr_0.left),
        cmp_op(ts[m]) == Some(e->BinExpr_0.operator),
        add_rel(ts, m + 1, end, *e->BinExpr_0.right),
        end >= ts.len() || cmp_op(ts[end]) is None,
    ensures
        cmp_rel(ts, p, end, e),
{
    assert(seam(p, m));
}

/// A comparison tier expression not followed by an assignment operator
/// stands at the assignment tier.
pub proof fn lemma_assign_of_cmp(ts: Seq<TokenView>, p: int, end: int, e: Expr)
    requires
        cmp_rel(ts, p, end, e),
        end >= ts.len() || assign_op(ts[end]) is None,
    ensures
        assign_rel(ts, p, end, e),
{
}

/// An assignment of an assignment tier expression to a comparison tier
/// one.
pub proof fn lemma_assign_compose(ts: Seq<TokenView>, p: int, m: int, end: int, e: Expr)
    requires
        p < m,
        m < ts.len(),
        e is BinExpr,
        cmp_rel(ts, p, m, *e->BinExpr_0.left),
        assign_op(ts[m]) == Some(e->BinExpr_0.operator),
        assign_rel(ts, m + 1, end, *e->BinExpr_0.right),
    ensures
        assign_rel(ts, p, end, e),
{
    assert(seam(p, m));
}

/// An assignment tier expression is a whole expression.
pub proof fn lemma_expr_of_assign(ts: Seq<TokenView>, p: int, end: int, e: Expr)
    requires
        assign_rel(ts, p, end, e),
    ensures
        expr_rel(ts, p, end, e),
{
}

/// An empty pair of parentheses is an empty argument list.
pub proof fn lemma_args_empty(ts: Seq<TokenView>, p: int)
    requires
        0 <= p,
        p + 1 < ts.len(),
        ts[p] is LParen,
        ts[p + 1] is RParen,
    ensures
        args_rel(ts, p, p + 2, Seq::<Expr>::empty()),
{
}

/// A last argument followed by the closing parenthesis.
#[verifier::rlimit(50)]
pub proof fn lemma_args_items_single(ts: Seq<TokenView>, p: int, m: int, e: Expr)
    requires
        0 <= p,
        p < m,
        m < ts.len(),
        expr_rel(ts, p, m, e),
        ts[m] is RParen,
    ensures
        args_items_rel(ts, p, m + 1, seq![e]),
{
    assert(seq![e][0] == e);
    assert(seam(p, m));
}

/// An argument, a comma, and further argument items.
pub proof fn lemma_args_items_cons(
    ts: Seq<TokenView>,
    p: int,
    m: int,
    end: int,
    e: Expr,
    rest: Seq<Expr>,
)
    requires
        0 <= p,
        p < m,
        m < ts.len(),
        expr_rel(ts, p, m, e),
        ts[m] is Comma,
        args_items_rel(ts, m + 1, end, rest),
    ensures
        args_items_rel(ts, p, end, seq![e] + rest),
{
    let args = seq![e] + rest;
    assert(args.len() == 1 + rest.len());
    assert(args[0] == e);
    assert(args.drop_first() =~= rest);
    assert(seam(p, m));
}

/// Argument items behind an opening parenthesis are an argument list.
pub proof fn lemma_args_wrap(ts: Seq<TokenView>, p: int, end: int, args: Seq<Expr>)
    requires
        0 <= p,
        p < ts.len(),
        ts[p] is LParen,
        args.len() >= 1,
        args_items_rel(ts, p + 1, end, args),
    ensures
        args_rel(ts, p, end, args),
{
}

/// A statement's substance with its trivia and terminator is a statement.
pub proof fn lemma_stmt_full(ts: Seq<TokenView>, p: int, m: int, end: int, st: Statement)
    requires
        0 <= p,
        p <= ts.len(),
        skip_trivia(ts, p) < m,
        m <= ts.len(),
        stmt_core_rel(ts, skip_trivia(ts, p), m, st),
        if m == ts.len() {
            end == m
        } else {
            ts[m] is Newline && end == m + 1
        },
    ensures
        stmt_rel(ts, p, end, st),
{
    lemma_skip_trivia(ts, p);
    assert(seam(skip_trivia(ts, p), m));
}

/// A closing brace alone closes an empty block.
pub proof fn lemma_body_items_empty(ts: Seq<TokenView>, p: int)
    requires
        0 <= p,
        p < ts.len(),
        ts[p] is RSquirly,
    ensures
        body_items_rel(ts, p, p + 1, Seq::<Statement>::empty()),
{
}

/// A statement followed by further block items.
pub proof fn lemma_body_items_cons(
    ts: Seq<TokenView>,
    p: int,
    m: int,
    end: int,
    st: Statement,
    rest: Seq<Statement>,
)
    requires
        0 <= p,
        p < ts.len(),
        !(ts[p] is RSquirly),
        p < m,
        m <= ts.len(),
        stmt_rel(ts, p, m, st),
        body_items_rel(ts, m, end, rest),
    ensures
        body_items_rel(ts, p, end, seq![st] + rest),
{
    let stmts = seq![st] + rest;
    assert(stmts.len() == 1 + rest.len());
    assert(stmts[0] == st);
    assert(stmts.drop_first() =~= rest);
    assert(seam(p, m));
}

/// Block items behind an opening brace are a braced block.
pub proof fn lemma_body_wrap(ts: Seq<TokenView>, p: int, end: int, stmts: Seq<Statement>)
    requires
        0 <= p,
        p < ts.len(),
        ts[p] is LSquirly,
        body_items_rel(ts, p + 1, end, stmts),
    ensures
        body_rel(ts, p, end, stmts),
{
}

/// An empty pair of parentheses is an empty parameter list.
pub proof fn lemma_params_empty(ts: Seq<TokenView>, p: int)
    requires
        0 <= p,
        p + 1 < ts.len(),
        ts[p] is LParen,
        ts[p + 1] is RParen,
    ensures
        params_rel(ts, p, p + 2, Seq::<FuncParam>::empty()),
{
}

/// A last parameter followed by the closing parenthesis.
pub proof fn lemma_params_items_single(ts: Seq<TokenView>, p: int, fp: FuncParam)
    requires
        0 <= p,
        p + 2 < ts.len(),
        ts[p] == TokenView::Type(fp.param_type),
        ts[p + 1] == TokenView::Identifier(fp.param_name@),
        ts[p + 2] is RParen,
    ensures
        params_items_rel(ts, p, p + 3, seq![fp]),
{
    let params = seq![fp];
    let end = p + 3;
    assert(params.len() == 1);
    assert(params[0] == fp);
    assert(params_items_rel(ts, p, end, params));
}

/// A parameter, a comma, and further parameter items.
pub proof fn lemma_params_items_cons(
    ts: Seq<TokenView>,
    p: int,
    end: int,
    fp: FuncParam,
    rest: Seq<FuncParam>,
)
    requires
        0 <= p,
        p + 2 < ts.len(),
        ts[p] == TokenView::Type(fp.param_type),
        ts[p + 1] == TokenView::Identifier(fp.param_name@),
        ts[p + 2] is Comma,
        params_items_rel(ts, p + 3, end, rest),
    ensures
        params_items_rel(ts, p, end, seq![fp] + rest),
{
    let params = seq![fp] + rest;
    assert(params.len() == 1 + rest.len());
    assert(params[0] == fp);
    assert(params.drop_first() =~= rest);
    assert(params_items_rel(ts, p, end, params));
}

/// Parameter items behind an opening parenthesis are a parameter list.
pub proof fn lemma_params_wrap(ts: Seq<TokenView>, p: int, end: int, params: Seq<FuncParam>)
    requires
        0 <= p,
        p < ts.len(),
        ts[p] is LParen,
        params.len() >= 1,
        params_items_rel(ts, p + 1, end, params),
    ensures
        params_rel(ts, p, end, params),
{
}

/// The pieces of a function definition in order make one.
pub proof fn lemma_func_def_compose(ts: Seq<TokenView>, p: int, m: int, end: int, f: FuncDef)
    requires
        0 <= p,
        p <= ts.len(),
        skip_trivia(ts, p) + 1 < ts.len(),
        ts[skip_trivia(ts, p)] is Fn,
        ts[skip_trivia(ts, p) + 1] == TokenView::Identifier(f.name@),
        skip_trivia(ts, p) + 1 < m,
        m < ts.len(),
        params_rel(ts, skip_trivia(ts, p) + 2, m, f.params@),
        if ts[m] is LSquirly {
            f.return_type == Type::Void && body_rel(ts, m, end, f.body@)
        } else {
            ts[m] == TokenView::Type(f.return_type) && m + 1 < ts.len() && body_rel(
                ts,
                m + 1,
                end,
                f.body@,
            )
        },
    ensures
        func_def_rel(ts, p, end, f),
{
    lemma_skip_trivia(ts, p);
    assert(seam(skip_trivia(ts, p), m));
}

/// Only trivia left: no further function definitions.
pub proof fn lemma_program_items_empty(ts: Seq<TokenView>, p: int)
    requires
        skip_trivia(ts, p) == ts.len(),
    ensures
        program_items_rel(ts, p, Seq::<FuncDef>::empty()),
{
}

/// A function definition followed by the rest of the program.
pub proof fn lemma_program_items_cons(
    ts: Seq<TokenView>,
    p: int,
    m: int,
    f: FuncDef,
    rest: Seq<FuncDef>,
)
    requires
        p < m,
        func_def_rel(ts, p, m, f),
        program_items_rel(ts, m, rest),
    ensures
        program_items_rel(ts, p, seq![f] + rest),
{
    let fds = seq![f] + rest;
    assert(fds.len() == 1 + rest.len());
    assert(fds[0] == f);
    assert(fds.drop_first() =~= rest);
    assert(seam(p, m));
}


/// Outcome of scanning for a statement or function definition: the
/// stream was exhausted (after trivia), the piece ends at this position,
/// or no parse exists.
pub enum ScanEnd {
    Exhausted,
    At(int),
    Failed,
}

/// Where the atom starting at `p` ends, if one starts there.
///
/// The `sp_..._end` family is a total, deterministic scanner for the
/// grammar: each function gives the exact end position of the production
/// starting at `p`, or `None` when parsing it fails. The parser's
/// contracts are an iff against this scanner, so success is owed exactly
/// where the scanner succeeds. The arithmetic guards on recursive
/// positions only serve termination; scans always move forward, so they
/// never bind.
pub open spec fn sp_atom_end(ts: Seq<TokenView>, p: int) -> Option<int> {
    if p < ts.len() && (ts[p] is Identifier || ts[p] is I64Literal) {
        Some(p + 1)
    } else {
        None
    }
}

/// Where the call applications layered from `q` on end; a bracket opens
/// an index application, which never parses.
pub open spec fn sp_links_end(ts: Seq<TokenView>, q: int) -> Option<int>
    decreases ts.len() - q, 3int,
{
    if q >= ts.len() {
        Some(q)
    } else if ts[q] is LParen {
        match sp_args_end(ts, q) {
            None => None,
            Some(q2) => if q < q2 && q2 <= ts.len() {
                sp_links_end(ts, q2)
            } else {
                None
            },
        }
    } else if ts[q] is LSquare {
        None
    } else {
        Some(q)
    }
}

/// Where the call chain starting at `p` ends.
pub open spec fn sp_chain_end(ts: Seq<TokenView>, p: int) -> Option<int>
    decreases ts.len() - p, 4int,
{
    match sp_atom_end(ts, p) {
        None => None,
        Some(q) => if p < q && q <= ts.len() {
            sp_links_end(ts, q)
        } else {
            None
        },
    }
}

/// Where the parenthesized argument list starting at `p` ends.
pub open spec fn sp_args_end(ts: Seq<TokenView>, p: int) -> Option<int>
    decreases ts.len() - p, 2int,
{
    if p < ts.len() && ts[p] is LParen {
        if p + 1 < ts.len() && ts[p + 1] is RParen {
            Some(p + 2)
        } else {
            sp_args_items_end(ts, p + 1)
        }
    } else {
        None
    }
}

/// Where the comma-separated arguments starting at `q` end, the closing
/// parenthesis included.
pub open spec fn sp_args_items_end(ts: Seq<TokenView>, q: int) -> Option<int>
    decreases ts.len() - q, 11int,
{
    match sp_expr_end(ts, q) {
        None => None,
        Some(m) => if m < ts.len() && ts[m] is RParen {
            Some(m + 1)
        } else if m < ts.len() && ts[m] is Comma && q <= m {
            sp_args_items_end(ts, m + 1)
        } else {
            None
        },
    }
}

/// Where the primary expression starting at `p` ends.
pub open spec fn sp_primary_end(ts: Seq<TokenView>, p: int) -> Option<int>
    decreases ts.len() - p, 5int,
{
    if p < ts.len() && ts[p] is LParen {
        match sp_expr_end(ts, p + 1) {
            None => None,
            Some(m) => if m < ts.len() && ts[m] is RParen {
                Some(m + 1)
            } else {
                None
            },
        }
    } else if p < ts.len() && ts[p] is Identifier && p + 1 < ts.len() && (ts[p + 1] is LParen
        || ts[p + 1] is LSquare) {
        sp_chain_end(ts, p)
    } else {
        sp_atom_end(ts, p)
    }
}

/// Where the multiplicative fold continues from `q` on.
pub open spec fn sp_mul_more(ts: Seq<TokenView>, q: int) -> Option<int>
    decreases ts.len() - q, 1int,
{
    if q < ts.len() && mul_op(ts[q]) is Some {
        match sp_primary_end(ts, q + 1) {
            None => None,
            Some(q2) => if q < q2 && q2 <= ts.len() {
                sp_mul_more(ts, q2)
            } else {
                None
            },
        }
    } else {
        Some(q)
    }
}

/// Where the multiplicative expression starting at `p` ends.
pub open spec fn sp_mul_end(ts: Seq<TokenView>, p: int) -> Option<int>
    decreases ts.len() - p, 6int,
{
    match sp_primary_end(ts, p) {
        None => None,
        Some(m) => if p <= m && m <= ts.len() {
            sp_mul_more(ts, m)
        } else {
            None
        },
    }
}

/// Where the additive fold continues from `q` on.
pub open spec fn sp_add_more(ts: Seq<TokenView>, q: int) -> Option<int>
    decreases ts.len() - q, 1int,
{
    if q < ts.len() && add_op(ts[q]) is Some {
        match sp_mul_end(ts, q + 1) {
            None => None,
            Some(q2) => if q < q2 && q2 <= ts.len() {
                sp_add_more(ts, q2)
            } else {
                None
            },
        }
    } else {
        Some(q)
    }
}

/// Where the additive expression starting at `p` ends.
pub open spec fn sp_add_end(ts: Seq<TokenView>, p: int) -> Option<int>
    decreases ts.len() - p, 7int,
{
    match sp_mul_end(ts, p) {
        None => None,
        Some(m) => if p <= m && m <= ts.len() {
            sp_add_more(ts, m)
        } else {
            None
        },
    }
}

/// Where the comparison tier expression starting at `p` ends; a second
/// comparison operator after the right operand is the fatal chaining
/// error.
pub open spec fn sp_cmp_end(ts: Seq<TokenView>, p: int) -> Option<int>
    decreases ts.len() - p, 8int,
{
    match sp_add_end(ts, p) {
        None => None,
        Some(m) => if !(p <= m && m <= ts.len()) {
            None
        } else if m < ts.len() && cmp_op(ts[m]) is Some {
            match sp_add_end(ts, m + 1) {
                None => None,
                Some(m2) => if m2 < ts.len() && cmp_op(ts[m2]) is Some {
                    None
                } else {
                    Some(m2)
                },
            }
        } else {
            Some(m)
        },
    }
}

/// Where the assignment tier expression starting at `p` ends.
pub open spec fn sp_assign_end(ts: Seq<TokenView>, p: int) -> Option<int>
    decreases ts.len() - p, 9int,
{
    match sp_cmp_end(ts, p) {
        None => None,
        Some(m) => if !(p <= m && m <= ts.len()) {
            None
        } else if m < ts.len() && assign_op(ts[m]) is Some {
            sp_assign_end(ts, m + 1)
        } else {
            Some(m)
        },
    }
}

/// Where the expression starting at `p` ends.
pub open spec fn sp_expr_end(ts: Seq<TokenView>, p: int) -> Option<int>
    decreases ts.len() - p, 10int,
{
    sp_assign_end(ts, p)
}

/// Where the variable declaration starting at `q` ends.
pub open spec fn sp_var_dec_end(ts: Seq<TokenView>, q: int) -> Option<int>
    decreases ts.len() - q, 12int,
{
    if q < ts.len() && ts[q] is Type && q + 1 < ts.len() && ts[q + 1] is Identifier && q + 2
        < ts.len() && ts[q + 2] == TokenView::OperatorSymbol(OperatorSymbol::Assign) {
        sp_expr_end(ts, q + 3)
    } else {
        None
    }
}

/// Where the while loop starting at `q` ends.
pub open spec fn sp_while_end(ts: Seq<TokenView>, q: int) -> Option<int>
    decreases ts.len() - q, 12int,
{
    if q < ts.len() && ts[q] is While {
        match sp_expr_end(ts, q + 1) {
            None => None,
            Some(m) => if q < m && m <= ts.len() {
                sp_body_end(ts, m)
            } else {
                None
            },
        }
    } else {
        None
    }
}

/// Where the return statement starting at `q` ends: a bare return ends
/// right after the keyword when the statement ends there.
pub open spec fn sp_ret_end(ts: Seq<TokenView>, q: int) -> Option<int>
    decreases ts.len() - q, 12int,
{
    if q < ts.len() && ts[q] is Ret {
        if q + 1 >= ts.len() || ts[q + 1] is Newline {
            Some(q + 1)
        } else {
            sp_expr_end(ts, q + 1)
        }
    } else {
        None
    }
}

/// Where the statement's substance starting at `q` ends, by the leading
/// token's dispatch; a nested function definition never parses.
pub open spec fn sp_stmt_core_end(ts: Seq<TokenView>, q: int) -> Option<int>
    decreases ts.len() - q, 13int,
{
    if q >= ts.len() {
        None
    } else if ts[q] is Type {
        sp_var_dec_end(ts, q)
    } else if ts[q] is While {
        sp_while_end(ts, q)
    } else if ts[q] is Fn {
        None
    } else if ts[q] is Ret {
        sp_ret_end(ts, q)
    } else {
        sp_expr_end(ts, q)
    }
}

/// What scanning for a statement at `p` yields: trivia is skipped; an
/// exhausted stream is no error; otherwise the substance must follow and
/// end at a newline or the end of the stream.
pub open spec fn sp_stmt_end(ts: Seq<TokenView>, p: int) -> ScanEnd
    decreases ts.len() - p, 14int,
{
    let q = skip_trivia(ts, p);
    if !(p <= q && q <= ts.len()) {
        ScanEnd::Failed
    } else if q >= ts.len() {
        ScanEnd::Exhausted
    } else {
        match sp_stmt_core_end(ts, q) {
            None => ScanEnd::Failed,
            Some(m) => if m == ts.len() {
                ScanEnd::At(m)
            } else if 0 <= m && m < ts.len() && ts[m] is Newline {
                ScanEnd::At(m + 1)
            } else {
                ScanEnd::Failed
            },
        }
    }
}

/// Where the block items starting at `q` end, the closing brace
/// included. The brace check comes before trivia skipping, exactly as
/// the parser peeks.
pub open spec fn sp_body_items_end(ts: Seq<TokenView>, q: int) -> Option<int>
    decreases ts.len() - q, 15int,
{
    if q >= ts.len() {
        None
    } else if ts[q] is RSquirly {
        Some(q + 1)
    } else {
        match sp_stmt_end(ts, q) {
            ScanEnd::Exhausted => None,
            ScanEnd::Failed => None,
            ScanEnd::At(m) => if q < m && m <= ts.len() {
                sp_body_items_end(ts, m)
            } else {
                None
            },
        }
    }
}

/// Where the braced block starting at `p` ends.
pub open spec fn sp_body_end(ts: Seq<TokenView>, p: int) -> Option<int>
    decreases ts.len() - p, 16int,
{
    if p < ts.len() && ts[p] is LSquirly {
        sp_body_items_end(ts, p + 1)
    } else {
        None
    }
}

/// Where the parameter starting at `q` ends.
pub open spec fn sp_param_end(ts: Seq<TokenView>, q: int) -> Option<int> {
    if q < ts.len() && ts[q] is Type && q + 1 < ts.len() && ts[q + 1] is Identifier {
        Some(q + 2)
    } else {
        None
    }
}

/// Where the comma-separated parameters starting at `q` end, the closing
/// parenthesis included.
pub open spec fn sp_params_items_end(ts: Seq<TokenView>, q: int) -> Option<int>
    decreases ts.len() - q, 18int,
{
    match sp_param_end(ts, q) {
        None => None,
        Some(m) => if m < ts.len() && ts[m] is RParen {
            Some(m + 1)
        } else if m < ts.len() && ts[m] is Comma && q <= m {
            sp_params_items_end(ts, m + 1)
        } else {
            None
        },
    }
}

/// Where the parenthesized parameter list starting at `p` ends.
pub open spec fn sp_params_end(ts: Seq<TokenView>, p: int) -> Option<int>
    decreases ts.len() - p, 19int,
{
    if p < ts.len() && ts[p] is LParen {
        if p + 1 < ts.len() && ts[p + 1] is RParen {
            Some(p + 2)
        } else {
            sp_params_items_end(ts, p + 1)
        }
    } else {
        None
    }
}

/// What scanning for a function definition at `p` yields: trivia is
/// skipped; an exhausted stream is no error; otherwise `fn`, a name, the
/// parameters, the optional return type — void when the body follows at
/// once — and the body must follow.
pub open spec fn sp_func_end(ts: Seq<TokenView>, p: int) -> ScanEnd
    decreases ts.len() - p, 20int,
{
    let q = skip_trivia(ts, p);
    if !(p <= q && q <= ts.len()) {
        ScanEnd::Failed
    } else if q >= ts.len() {
        ScanEnd::Exhausted
    } else if !(ts[q] is Fn) {
        ScanEnd::Failed
    } else if !(q + 1 < ts.len() && ts[q + 1] is Identifier) {
        ScanEnd::Failed
    } else {
        match sp_params_end(ts, q + 2) {
            None => ScanEnd::Failed,
            Some(m) => if !(q + 1 < m && m <= ts.len()) {
                ScanEnd::Failed
            } else if m < ts.len() && ts[m] is LSquirly {
                match sp_body_end(ts, m) {
                    None => ScanEnd::Failed,
                    Some(end) => ScanEnd::At(end),
                }
            } else if m < ts.len() && ts[m] is Type {
                match sp_body_end(ts, m + 1) {
                    None => ScanEnd::Failed,
                    Some(end) => ScanEnd::At(end),
                }
            } else {
                ScanEnd::Failed
            },
        }
    }
}

/// Whether the whole stream from `p` on reads as a program: function
/// definitions until only trivia remains.
pub open spec fn sp_program_ok(ts: Seq<TokenView>, p: int) -> bool
    decreases ts.len() - p, 21int,
{
    match sp_func_end(ts, p) {
        ScanEnd::Exhausted => true,
        ScanEnd::Failed => false,
        ScanEnd::At(m) => if p < m && m <= ts.len() {
            sp_program_ok(ts, m)
        } else {
            false
        },
    }
}

/// A fatal parse error: the grammar was violated, and the whole
/// compilation stops with it.
#[derive(Debug, Clone, PartialEq, Eq)]
pub enum ParseError {
    /// One fixed token was demanded; `found` is what stood there, `None`
    /// when the tokens ended first.
    ExpectedToken { expected: Token, found: Option<Token> },
    ExpectedType { found: Option<Token> },
    ExpectedIdentifier { found: Option<Token> },
    ExpectedReturnType { function: Vec<char>, found: Option<Token> },
    ExpectedAtom { found: Option<Token> },
    ExpectedStatementEnd { found: Token },
    BodyNotClosed,
    ComparisonChained,
    NestedFunction,
    IndexingNotImplemented,
}

/// Copy of a parser token.
fn copy_token(t: &Token) -> (out: Token)
    ensures
        out@ == t@,
{
    match t {
        Token::Identifier(v) => Token::Identifier(copy_chars(v)),
        Token::I64Literal(n) => Token::I64Literal(*n),
        Token::StrLiteral(v) => Token::StrLiteral(copy_chars(v)),
        Token::FloatLiteral(v) => Token::FloatLiteral(copy_chars(v)),
        Token::Type(t) => Token::Type(*t),
        Token::OperatorSymbol(op) => Token::OperatorSymbol(*op),
        Token::Fn => Token::Fn,
        Token::Ret => Token::Ret,
        Token::While => Token::While,
        Token::LParen => Token::LParen,
        Token::RParen => Token::RParen,
        Token::LSquirly => Token::LSquirly,
        Token::RSquirly => Token::RSquirly,
        Token::LSquare => Token::LSquare,
        Token::RSquare => Token::RSquare,
        Token::Comma => Token::Comma,
        Token::Newline => Token::Newline,
        Token::Comment(v) => Token::Comment(copy_chars(v)),
        Token::Docstring(v) => Token::Docstring(copy_chars(v)),
        Token::Keyword(k) => Token::Keyword(*k),
        Token::Punct(p) => Token::Punct(*p),
    }
}

/// Whether two tokens are the same token with the same payload.
fn token_eq(a: &Token, b: &Token) -> (r: bool)
    ensures
        r == (a@ == b@),
{
    match (a, b) {
        (Token::Identifier(x), Token::Identifier(y)) => same_text(x, y),
        (Token::I64Literal(x), Token::I64Literal(y)) => *x == *y,
        (Token::StrLiteral(x), Token::StrLiteral(y)) => same_text(x, y),
        (Token::FloatLiteral(x), Token::FloatLiteral(y)) => same_text(x, y),
        (Token::Type(x), Token::Type(y)) => *x == *y,
        (Token::OperatorSymbol(x), Token::OperatorSymbol(y)) => *x == *y,
        (Token::Fn, Token::Fn) => true,
        (Token::Ret, Token::Ret) => true,
        (Token::While, Token::While) => true,
        (Token::LParen, Token::LParen) => true,
        (Token::RParen, Token::RParen) => true,
        (Token::LSquirly, Token::LSquirly) => true,
        (Token::RSquirly, Token::RSquirly) => true,
        (Token::LSquare, Token::LSquare) => true,
        (Token::RSquare, Token::RSquare) => true,
        (Token::Comma, Token::Comma) => true,
        (Token::Newline, Token::Newline) => true,
        (Token::Comment(x), Token::Comment(y)) => same_text(x, y),
        (Token::Docstring(x), Token::Docstring(y)) => same_text(x, y),
        (Token::Keyword(x), Token::Keyword(y)) => *x == *y,
        (Token::Punct(x), Token::Punct(y)) => *x == *y,
        _ => false,
    }
}

/// The parser: the scanned tokens and a cursor over them.
#[derive(Debug)]
pub struct Parser {
    pub tokens: Vec<Token>,
    pub cursor: usize,
}

impl Parser {
    /// The cursor never stands past the end of the tokens.
    pub open spec fn wf(&self) -> bool {
        self.cursor <= self.tokens.len()
    }

    /// The views of this parser's tokens.
    pub open spec fn toks(&self) -> Seq<TokenView> {
        views(self.tokens@)
    }

    /// A parser over the given tokens.
    pub fn new(tokens: Vec<Token>) -> (p: Parser)
        ensures
            p.wf(),
            p.tokens == tokens,
            p.cursor == 0,
    {
        Parser { tokens, cursor: 0 }
    }

    /// The token `n - 1` places past the cursor, without advancing.
    pub fn peek_token(&self, n: usize) -> (r: Option<&Token>)
        requires
            self.wf(),
            1 <= n,
        ensures
            r is Some <==> self.cursor + n - 1 < self.tokens.len(),
            r is Some ==> *r->0 == self.tokens@[self.cursor + n - 1],
    {
        if n - 1 < self.tokens.len() - self.cursor {
            Some(&self.tokens[self.cursor + (n - 1)])
        } else {
            None
        }
    }

    /// A copy of the token at the cursor, the cursor advanced past it;
    /// `None` at the end of the tokens.
    pub fn next_token(&mut self) -> (r: Option<Token>)
        requires
            old(self).wf(),
        ensures
            final(self).wf(),
            final(self).tokens == old(self).tokens,
            r is Some <==> old(self).cursor < old(self).tokens.len(),
            r is Some ==> r->0@ == old(self).toks()[old(self).cursor as int] && final(self).cursor
                == old(self).cursor + 1,
            r is None ==> final(self).cursor == old(self).cursor,
    {
        if self.cursor < self.tokens.len() {
            let t = copy_token(&self.tokens[self.cursor]);
            self.cursor = self.cursor + 1;
            Some(t)
        } else {
            None
        }
    }

    /// Advance the cursor past one token.
    pub fn skip_token(&mut self)
        requires
            old(self).wf(),
            old(self).cursor < old(self).tokens.len(),
        ensures
            final(self).wf(),
            final(self).tokens == old(self).tokens,
            final(self).cursor == old(self).cursor + 1,
    {
        self.cursor = self.cursor + 1;
    }

    /// Pass over newlines, comments and docstrings.
    pub fn skip_newlines_comments_and_docstrings(&mut self)
        requires
            old(self).wf(),
        ensures
            final(self).wf(),
            final(self).tokens == old(self).tokens,
            final(self).cursor == skip_trivia(old(self).toks(), old(self).cursor as int),
    {
        let ghost ts = self.toks();
        loop
            invariant
                self.wf(),
                self.tokens == old(self).tokens,
                ts == self.toks(),
                old(self).cursor <= self.cursor,
                skip_trivia(ts, old(self).cursor as int) == skip_trivia(ts, self.cursor as int),
            decreases self.tokens.len() - self.cursor,
        {
            if self.cursor >= self.tokens.len() {
                return ;
            }
            let is_trivial = match &self.tokens[self.cursor] {
                Token::Newline => true,
                Token::Comment(_) => true,
                Token::Docstring(_) => true,
                _ => false,
            };
            if !is_trivial {
                return ;
            }
            self.cursor = self.cursor + 1;
        }
    }

    /// Demand one fixed token at the cursor and consume it; anything else
    /// is a fatal error.
    pub fn assert_next_token(&mut self, expected: Token) -> (r: Result<(), ParseError>)
        requires
            old(self).wf(),
        ensures
            final(self).wf(),
            final(self).tokens == old(self).tokens,
            r is Ok <==> old(self).cursor < old(self).tokens.len() && old(self).toks()[old(
                self,
            ).cursor as int] == expected@,
            r is Ok ==> final(self).cursor == old(self).cursor + 1,
    {
        if self.cursor >= self.tokens.len() {
            return Err(ParseError::ExpectedToken { expected, found: None });
        }
        if token_eq(&self.tokens[self.cursor], &expected) {
            self.cursor = self.cursor + 1;
            Ok(())
        } else {
            let found = copy_token(&self.tokens[self.cursor]);
            Err(ParseError::ExpectedToken { expected, found: Some(found) })
        }
    }

    /// Demand a type token and give its type.
    pub fn parse_type(&mut self) -> (r: Result<Type, ParseError>)
        requires
            old(self).wf(),
        ensures
            final(self).wf(),
            final(self).tokens == old(self).tokens,
            r is Ok <==> old(self).cursor < old(self).tokens.len() && old(self).toks()[old(
                self,
            ).cursor as int] is Type,
            r is Ok ==> old(self).toks()[old(self).cursor as int] == TokenView::Type(r->Ok_0)
                && final(self).cursor == old(self).cursor + 1,
    {
        match self.next_token() {
            Some(Token::Type(t)) => Ok(t),
            Some(t) => {
                self.cursor = self.cursor - 1;
                Err(ParseError::ExpectedType { found: Some(t) })
            },
            None => Err(ParseError::ExpectedType { found: None }),
        }
    }

    /// Demand an identifier token and give its name.
    pub fn parse_identifier(&mut self) -> (r: Result<Vec<char>, ParseError>)
        requires
            old(self).wf(),
        ensures
            final(self).wf(),
            final(self).tokens == old(self).tokens,
            r is Ok <==> old(self).cursor < old(self).tokens.len() && old(self).toks()[old(
                self,
            ).cursor as int] is Identifier,
            r is Ok ==> old(self).toks()[old(self).cursor as int] == TokenView::Identifier(
                r->Ok_0@,
            ) && final(self).cursor == old(self).cursor + 1,
    {
        match self.next_token() {
            Some(Token::Identifier(name)) => Ok(name),
            Some(t) => {
                self.cursor = self.cursor - 1;
                Err(ParseError::ExpectedIdentifier { found: Some(t) })
            },
            None => Err(ParseError::ExpectedIdentifier { found: None }),
        }
    }

    /// Demand an atom: an identifier or an integer literal.
    pub fn parse_atom(&mut self) -> (r: Result<Expr, ParseError>)
        requires
            old(self).wf(),
        ensures
            final(self).wf(),
            final(self).tokens == old(self).tokens,
            r is Ok <==> old(self).cursor < old(self).tokens.len() && (old(self).toks()[old(
                self,
            ).cursor as int] is Identifier || old(self).toks()[old(self).cursor as int]
                is I64Literal),
            r is Ok ==> atom_rel(
                old(self).toks(),
                old(self).cursor as int,
                final(self).cursor as int,
                r->Ok_0,
            ),
            match sp_atom_end(old(self).toks(), old(self).cursor as int) {
                Some(end) => r is Ok && final(self).cursor == end,
                None => r is Err,
            },
    {
        match self.next_token() {
            Some(Token::Identifier(name)) => Ok(Expr::Identifier(name)),
            Some(Token::I64Literal(n)) => Ok(Expr::I64Literal(n)),
            Some(t) => {
                self.cursor = self.cursor - 1;
                Err(ParseError::ExpectedAtom { found: Some(t) })
            },
            None => Err(ParseError::ExpectedAtom { found: None }),
        }
    }

    /// Index expressions are recognized but their index form is not
    /// implemented: raise a clear error rather than mis-parse.
    pub fn parse_index(&mut self) -> (r: Result<Expr, ParseError>)
        ensures
            *final(self) == *old(self),
            r is Err,
    {
        Err(ParseError::IndexingNotImplemented)
    }

    /// The operator symbol at the cursor, if one stands there.
    fn peek_operator(&self) -> (r: Option<OperatorSymbol>)
        requires
            self.wf(),
        ensures
            match r {
                Some(op) => self.cursor < self.tokens.len() && self.toks()[self.cursor as int]
                    == TokenView::OperatorSymbol(op),
                None => self.cursor >= self.tokens.len() || !(self.toks()[self.cursor as int]
                    is OperatorSymbol),
            },
    {
        if self.cursor < self.tokens.len() {
            match &self.tokens[self.cursor] {
                Token::OperatorSymbol(op) => Some(*op),
                _ => None,
            }
        } else {
            None
        }
    }

    /// Parse one whole expression.
    pub fn parse_expr(&mut self) -> (r: Result<Expr, ParseError>)
        requires
            old(self).wf(),
        ensures
            final(self).wf(),
            final(self).tokens == old(self).tokens,
            r is Ok ==> expr_rel(
                old(self).toks(),
                old(self).cursor as int,
                final(self).cursor as int,
                r->Ok_0,
            ),
            match sp_expr_end(old(self).toks(), old(self).cursor as int) {
                Some(end) => r is Ok && final(self).cursor == end,
                None => r is Err,
            },
        decreases old(self).tokens.len() - old(self).cursor, 9int,
    {
        let ghost ts = self.toks();
        let ghost p0 = self.cursor as int;
        let r = self.parse_assignment_expr();
        proof {
            if r is Ok {
                lemma_expr_of_assign(ts, p0, self.cursor as int, r->Ok_0);
            }
            assert(sp_expr_end(ts, p0) == sp_assign_end(ts, p0));
        }
        r
    }

    /// Parse an assignment tier expression: right-associative assignment
    /// and compound assignment over comparisons.
    pub fn parse_assignment_expr(&mut self) -> (r: Result<Expr, ParseError>)
        requires
            old(self).wf(),
        ensures
            final(self).wf(),
            final(self).tokens == old(self).tokens,
            r is Ok ==> assign_rel(
                old(self).toks(),
                old(self).cursor as int,
                final(self).cursor as int,
                r->Ok_0,
            ),
            match sp_assign_end(old(self).toks(), old(self).cursor as int) {
                Some(end) => r is Ok && final(self).cursor == end,
                None => r is Err,
            },
        decreases old(self).tokens.len() - old(self).cursor, 8int,
    {
        let ghost ts = self.toks();
        let ghost p0 = self.cursor as int;
        let left = self.parse_logical_or_expr()?;

        let operator = match self.peek_operator() {
            Some(sym) => match assign_symbol(sym) {
                Some(op) => op,
                None => {
                    proof {
                        lemma_assign_of_cmp(ts, p0, self.cursor as int, left);
                        let endq = self.cursor as int;
                        assert(sp_assign_end(ts, p0) == Some(endq));
                    }
                    return Ok(left);
                },
            },
            None => {
                proof {
                    lemma_assign_of_cmp(ts, p0, self.cursor as int, left);
                    let endq = self.cursor as int;
                    assert(sp_assign_end(ts, p0) == Some(endq));
                }
                return Ok(left);
            },
        };
        let ghost m = self.cursor as int;
        proof {
            assert(sp_assign_end(ts, p0) == sp_assign_end(ts, m + 1));
        }
        self.skip_token();
        let right = self.parse_assignment_expr()?;

        let ghost lv = left;
        let ghost rv = right;
        let result = Expr::BinExpr(
            BinExpr { left: Box::new(left), operator, right: Box::new(right) },
        );
        proof {
            lemma_assign_compose(ts, p0, m, self.cursor as int, result);
        }
        Ok(result)
    }

    /// Logical-or tier; no such operator exists yet, so it passes
    /// through.
    pub fn parse_logical_or_expr(&mut self) -> (r: Result<Expr, ParseError>)
        requires
            old(self).wf(),
        ensures
            final(self).wf(),
            final(self).tokens == old(self).tokens,
            r is Ok ==> cmp_rel(
                old(self).toks(),
                old(self).cursor as int,
                final(self).cursor as int,
                r->Ok_0,
            ),
            match sp_cmp_end(old(self).toks(), old(self).cursor as int) {
                Some(end) => r is Ok && final(self).cursor == end,
                None => r is Err,
            },
        decreases old(self).tokens.len() - old(self).cursor, 7int,
    {
        self.parse_logical_and_expr()
    }

    /// Logical-and tier; no such operator exists yet, so it passes
    /// through.
    pub fn parse_logical_and_expr(&mut self) -> (r: Result<Expr, ParseError>)
        requires
            old(self).wf(),
        ensures
            final(self).wf(),
            final(self).tokens == old(self).tokens,
            r is Ok ==> cmp_rel(
                old(self).toks(),
                old(self).cursor as int,
                final(self).cursor as int,
                r->Ok_0,
            ),
            match sp_cmp_end(old(self).toks(), old(self).cursor as int) {
                Some(end) => r is Ok && final(self).cursor == end,
                None => r is Err,
            },
        decreases old(self).tokens.len() - old(self).cursor, 6int,
    {
        self.parse_comparison_expression()
    }

    /// Parse a comparison tier expression: at most one comparison of two
    /// additive expressions; a second comparison operator is the fatal
    /// chaining error.
    pub fn parse_comparison_expression(&mut self) -> (r: Result<Expr, ParseError>)
        requires
            old(self).wf(),
        ensures
            final(self).wf(),
            final(self).tokens == old(self).tokens,
            r is Ok ==> cmp_rel(
                old(self).toks(),
                old(self).cursor as int,
                final(self).cursor as int,
                r->Ok_0,
            ),
            match sp_cmp_end(old(self).toks(), old(self).cursor as int) {
                Some(end) => r is Ok && final(self).cursor == end,
                None => r is Err,
            },
        decreases old(self).tokens.len() - old(self).cursor, 5int,
    {
        let ghost ts = self.toks();
        let ghost p0 = self.cursor as int;
        let left = self.parse_add_sub_expr()?;

        let operator = match self.peek_operator() {
            Some(sym) => match cmp_symbol(sym) {
                Some(op) => op,
                None => {
                    proof {
                        lemma_cmp_of_add(ts, p0, self.cursor as int, left);
                        let endq = self.cursor as int;
                        assert(sp_cmp_end(ts, p0) == Some(endq));
                    }
                    return Ok(left);
                },
            },
            None => {
                proof {
                    lemma_cmp_of_add(ts, p0, self.cursor as int, left);
                    let endq = self.cursor as int;
                    assert(sp_cmp_end(ts, p0) == Some(endq));
                }
                return Ok(left);
            },
        };
        let ghost m = self.cursor as int;
        self.skip_token();
        let right = self.parse_add_sub_expr()?;

        match self.peek_operator() {
            Some(sym) => {
                if cmp_symbol(sym).is_some() {
                    proof {
                        let endq = self.cursor as int;
                        assert(sp_cmp_end(ts, p0) is None);
                    }
                    return Err(ParseError::ComparisonChained);
                }
            },
            None => {},
        }
        proof {
            let endq = self.cursor as int;
            assert(sp_cmp_end(ts, p0) == Some(endq));
        }

        let ghost lv = left;
        let ghost rv = right;
        let result = Expr::BinExpr(
            BinExpr { left: Box::new(left), operator, right: Box::new(right) },
        );
        proof {
            lemma_cmp_compose(ts, p0, m, self.cursor as int, result);
        }
        Ok(result)
    }

    /// Parse an additive expression: a left-associative fold of
    /// multiplicative ones.
    #[verifier::loop_isolation(false)]
    pub fn parse_add_sub_expr(&mut self) -> (r: Result<Expr, ParseError>)
        requires
            old(self).wf(),
        ensures
            final(self).wf(),
            final(self).tokens == old(self).tokens,
            r is Ok ==> add_rel(
                old(self).toks(),
                old(self).cursor as int,
                final(self).cursor as int,
                r->Ok_0,
            ),
            match sp_add_end(old(self).toks(), old(self).cursor as int) {
                Some(end) => r is Ok && final(self).cursor == end,
                None => r is Err,
            },
        decreases old(self).tokens.len() - old(self).cursor, 4int,
    {
        let ghost ts = self.toks();
        let ghost p0 = self.cursor as int;
        let mut left_expr_so_far = self.parse_mul_div_expr()?;
        proof {
            lemma_add_fold_of_mul(ts, p0, self.cursor as int, left_expr_so_far);
            let m0 = self.cursor as int;
            assert(sp_add_end(ts, p0) == sp_add_more(ts, m0));
        }

        loop
            invariant
                self.wf(),
                self.tokens == old(self).tokens,
                p0 < self.cursor as int,
                add_fold_rel(ts, p0, self.cursor as int, left_expr_so_far),
                sp_add_end(ts, p0) == sp_add_more(ts, self.cursor as int),
            decreases self.tokens.len() - self.cursor,
        {
            let operator = match self.peek_operator() {
                Some(sym) => match add_symbol(sym) {
                    Some(op) => op,
                    None => {
                        proof {
                            lemma_add_of_fold(ts, p0, self.cursor as int, left_expr_so_far);
                            let endq = self.cursor as int;
                            assert(sp_add_more(ts, endq) == Some(endq));
                        }
                        return Ok(left_expr_so_far);
                    },
                },
                None => {
                    proof {
                        lemma_add_of_fold(ts, p0, self.cursor as int, left_expr_so_far);
                        let endq = self.cursor as int;
                        assert(sp_add_more(ts, endq) == Some(endq));
                    }
                    return Ok(left_expr_so_far);
                },
            };
            let ghost m = self.cursor as int;
            self.skip_token();
            let right = self.parse_mul_div_expr()?;
            proof {
                let q2 = self.cursor as int;
                assert(sp_add_more(ts, m) == sp_add_more(ts, q2));
            }

            let ghost lv = left_expr_so_far;
            let ghost rv = right;
            left_expr_so_far = Expr::BinExpr(
                BinExpr { left: Box::new(left_expr_so_far), operator, right: Box::new(right) },
            );
            proof {
                lemma_add_fold_compose(ts, p0, m, self.cursor as int, left_expr_so_far);
            }
        }
    }

    /// Parse a multiplicative expression: a left-associative fold of
    /// primary ones.
    #[verifier::loop_isolation(false)]
    pub fn parse_mul_div_expr(&mut self) -> (r: Result<Expr, ParseError>)
        requires
            old(self).wf(),
        ensures
            final(self).wf(),
            final(self).tokens == old(self).tokens,
            r is Ok ==> mul_rel(
                old(self).toks(),
                old(self).cursor as int,
                final(self).cursor as int,
                r->Ok_0,
            ),
            match sp_mul_end(old(self).toks(), old(self).cursor as int) {
                Some(end) => r is Ok && final(self).cursor == end,
                None => r is Err,
            },
        decreases old(self).tokens.len() - old(self).cursor, 3int,
    {
        let ghost ts = self.toks();
        let ghost p0 = self.cursor as int;
        let mut left_expr_so_far = self.parse_primary_expr()?;
        proof {
            lemma_mul_fold_of_primary(ts, p0, self.cursor as int, left_expr_so_far);
            let m0 = self.cursor as int;
            assert(sp_mul_end(ts, p0) == sp_mul_more(ts, m0));
        }

        loop
            invariant
                self.wf(),
                self.tokens == old(self).tokens,
                p0 < self.cursor as int,
                mul_fold_rel(ts, p0, self.cursor as int, left_expr_so_far),
                sp_mul_end(ts, p0) == sp_mul_more(ts, self.cursor as int),
            decreases self.tokens.len() - self.cursor,
        {
            let operator = match self.peek_operator() {
                Some(sym) => match mul_symbol(sym) {
                    Some(op) => op,
                    None => {
                        proof {
                            lemma_mul_of_fold(ts, p0, self.cursor as int, left_expr_so_far);
                            let endq = self.cursor as int;
                            assert(sp_mul_more(ts, endq) == Some(endq));
                        }
                        return Ok(left_expr_so_far);
                    },
                },
                None => {
                    proof {
                        lemma_mul_of_fold(ts, p0, self.cursor as int, left_expr_so_far);
                        let endq = self.cursor as int;
                        assert(sp_mul_more(ts, endq) == Some(endq));
                    }
                    return Ok(left_expr_so_far);
                },
            };
            let ghost m = self.cursor as int;
            self.skip_token();
            let right = self.parse_primary_expr()?;
            proof {
                let q2 = self.cursor as int;
                assert(sp_mul_more(ts, m) == sp_mul_more(ts, q2));
            }

            let ghost lv = left_expr_so_far;
            let ghost rv = right;
            left_expr_so_far = Expr::BinExpr(
                BinExpr { left: Box::new(left_expr_so_far), operator, right: Box::new(right) },
            );
            proof {
                lemma_mul_fold_compose(ts, p0, m, self.cursor as int, left_expr_so_far);
            }
        }
    }

    /// Parse a primary expression: a parenthesized expression, a call
    /// chain opened by an identifier, or a bare atom.
    pub fn parse_primary_expr(&mut self) -> (r: Result<Expr, ParseError>)
        requires
            old(self).wf(),
        ensures
            final(self).wf(),
            final(self).tokens == old(self).tokens,
            r is Ok ==> primary_rel(
                old(self).toks(),
                old(self).cursor as int,
                final(self).cursor as int,
                r->Ok_0,
            ),
            match sp_primary_end(old(self).toks(), old(self).cursor as int) {
                Some(end) => r is Ok && final(self).cursor == end,
                None => r is Err,
            },
        decreases old(self).tokens.len() - old(self).cursor, 2int,
    {
        let ghost ts = self.toks();
        let ghost p0 = self.cursor as int;

        let first_is_lparen = match self.peek_token(1) {
            Some(Token::LParen) => true,
            _ => false,
        };
        if first_is_lparen {
            self.skip_token();
            let expr = self.parse_expr()?;
            let ghost m = self.cursor as int;
            self.assert_next_token(Token::RParen)?;
            proof {
                lemma_primary_paren(ts, p0, self.cursor as int, expr);
                let endq = self.cursor as int;
                assert(sp_primary_end(ts, p0) == Some(endq));
            }
            return Ok(expr);
        }

        let first_is_ident = match self.peek_token(1) {
            Some(Token::Identifier(_)) => true,
            _ => false,
        };
        let second_opens = match self.peek_token(2) {
            Some(Token::LParen) => true,
            Some(Token::LSquare) => true,
            _ => false,
        };
        if first_is_ident && second_opens {
            let e = self.parse_call_expr()?;
            proof {
                lemma_primary_of_chain(ts, p0, self.cursor as int, e);
                let endq = self.cursor as int;
                assert(sp_primary_end(ts, p0) == Some(endq));
            }
            return Ok(e);
        }

        let e = self.parse_atom()?;
        proof {
            lemma_chain_of_atom(ts, p0, p0 + 1, e);
            if !(e is I64Literal) {
                assert(ts[p0] is Identifier);
                assert(!chain_continues(ts, p0 + 1));
            }
            lemma_primary_of_chain(ts, p0, self.cursor as int, e);
            let endq = self.cursor as int;
            assert(sp_primary_end(ts, p0) == sp_atom_end(ts, p0));
        }
        Ok(e)
    }

    /// Parse an atom and layer call applications onto it while an opening
    /// parenthesis or bracket follows; the bracket form never parses.
    #[verifier::loop_isolation(false)]
    pub fn parse_call_expr(&mut self) -> (r: Result<Expr, ParseError>)
        requires
            old(self).wf(),
        ensures
            final(self).wf(),
            final(self).tokens == old(self).tokens,
            r is Ok ==> chain_rel(
                old(self).toks(),
                old(self).cursor as int,
                final(self).cursor as int,
                r->Ok_0,
            ) && !chain_continues(old(self).toks(), final(self).cursor as int),
            match sp_chain_end(old(self).toks(), old(self).cursor as int) {
                Some(end) => r is Ok && final(self).cursor == end,
                None => r is Err,
            },
        decreases old(self).tokens.len() - old(self).cursor, 1int,
    {
        let ghost ts = self.toks();
        let ghost p0 = self.cursor as int;
        let mut expr_so_far = self.parse_atom()?;
        proof {
            lemma_chain_of_atom(ts, p0, self.cursor as int, expr_so_far);
            let q0 = self.cursor as int;
            assert(sp_chain_end(ts, p0) == sp_links_end(ts, q0));
        }

        loop
            invariant
                self.wf(),
                self.tokens == old(self).tokens,
                chain_rel(ts, p0, self.cursor as int, expr_so_far),
                sp_chain_end(ts, p0) == sp_links_end(ts, self.cursor as int),
            decreases self.tokens.len() - self.cursor,
        {
            if self.cursor >= self.tokens.len() {
                proof {
                    let q = self.cursor as int;
                    assert(sp_links_end(ts, q) == Some(q));
                }
                return Ok(expr_so_far);
            }
            let opens_call = match &self.tokens[self.cursor] {
                Token::LParen => true,
                _ => false,
            };
            let opens_index = match &self.tokens[self.cursor] {
                Token::LSquare => true,
                _ => false,
            };
            if opens_call {
                let ghost m = self.cursor as int;
                let ghost prev = expr_so_far;
                let args = self.parse_args()?;
                let ghost av = args@;
                expr_so_far = Expr::CallExpr(
                    CallExpr { function_name: Box::new(expr_so_far), args },
                );
                proof {
                    lemma_chain_compose(ts, p0, m, self.cursor as int, expr_so_far);
                    let q2 = self.cursor as int;
                    assert(sp_links_end(ts, m) == sp_links_end(ts, q2));
                }
            } else if opens_index {
                proof {
                    let q = self.cursor as int;
                    assert(sp_links_end(ts, q) is None);
                }
                return self.parse_index();
            } else {
                proof {
                    let q = self.cursor as int;
                    assert(sp_links_end(ts, q) == Some(q));
                }
                return Ok(expr_so_far);
            }
        }
    }

    /// Parse a parenthesized, comma-separated argument list.
    #[verifier::loop_isolation(false)]
    pub fn parse_args(&mut self) -> (r: Result<Vec<Expr>, ParseError>)
        requires
            old(self).wf(),
        ensures
            final(self).wf(),
            final(self).tokens == old(self).tokens,
            r is Ok ==> args_rel(
                old(self).toks(),
                old(self).cursor as int,
                final(self).cursor as int,
                r->Ok_0@,
            ),
            match sp_args_end(old(self).toks(), old(self).cursor as int) {
                Some(end) => r is Ok && final(self).cursor == end,
                None => r is Err,
            },
        decreases old(self).tokens.len() - old(self).cursor, 10int,
    {
        let ghost ts = self.toks();
        let ghost p0 = self.cursor as int;
        self.assert_next_token(Token::LParen)?;

        let mut args: Vec<Expr> = Vec::new();

        let next_is_rparen = match self.peek_token(1) {
            Some(Token::RParen) => true,
            _ => false,
        };
        if next_is_rparen {
            self.skip_token();
            proof {
                lemma_args_empty(ts, p0);
                assert(args@ =~= Seq::<Expr>::empty());
                assert(sp_args_end(ts, p0) == Some(p0 + 2));
            }
            return Ok(args);
        }

        proof {
            assert forall|end2: int, rest: Seq<Expr>|
                #[trigger] args_items_rel(ts, self.cursor as int, end2, rest) implies args_items_rel(
                ts,
                p0 + 1,
                end2,
                args@ + rest,
            ) by {
                assert(args@ + rest =~= rest);
            }
            assert(sp_args_end(ts, p0) == sp_args_items_end(ts, p0 + 1));
        }

        loop
            invariant
                self.wf(),
                self.tokens == old(self).tokens,
                p0 + 1 <= self.cursor as int,
                forall|end2: int, rest: Seq<Expr>|
                    #[trigger] args_items_rel(ts, self.cursor as int, end2, rest)
                        ==> args_items_rel(ts, p0 + 1, end2, args@ + rest),
                sp_args_end(ts, p0) == sp_args_items_end(ts, self.cursor as int),
            decreases self.tokens.len() - self.cursor,
        {
            let ghost c0 = self.cursor as int;
            let ghost done = args@;
            let e = self.parse_expr()?;
            let ghost ev = e;
            let ghost m = self.cursor as int;
            args.push(e);

            match self.next_token() {
                Some(Token::RParen) => {
                    proof {
                        lemma_args_items_single(ts, c0, m, ev);
                        assert(done + seq![ev] =~= args@);
                        assert(args_items_rel(ts, p0 + 1, m + 1, args@));
                        lemma_args_wrap(ts, p0, m + 1, args@);
                        assert(sp_args_items_end(ts, c0) == Some(m + 1));
                    }
                    return Ok(args);
                },
                Some(Token::Comma) => {
                    proof {
                        assert forall|end2: int, rest: Seq<Expr>|
                            #[trigger] args_items_rel(ts, m + 1, end2, rest) implies args_items_rel(
                            ts,
                            p0 + 1,
                            end2,
                            args@ + rest,
                        ) by {
                            lemma_args_items_cons(ts, c0, m, end2, ev, rest);
                            assert(done + (seq![ev] + rest) =~= args@ + rest);
                        }
                        assert(sp_args_items_end(ts, c0) == sp_args_items_end(ts, m + 1));
                    }
                },
                Some(t) => {
                    proof {
                        assert(sp_args_items_end(ts, c0) is None);
                    }
                    return Err(
                        ParseError::ExpectedToken { expected: Token::RParen, found: Some(t) },
                    );
                },
                None => {
                    proof {
                        assert(sp_args_items_end(ts, c0) is None);
                    }
                    return Err(ParseError::ExpectedToken { expected: Token::RParen, found: None });
                },
            }
        }
    }

    /// Parse one statement with its newline or end-of-input terminator;
    /// `None` when only trivia remains.
    #[verifier::rlimit(60)]
    pub fn parse_statement(&mut self) -> (r: Result<Option<Statement>, ParseError>)
        requires
            old(self).wf(),
        ensures
            final(self).wf(),
            final(self).tokens == old(self).tokens,
            match r {
                Ok(None) => skip_trivia(old(self).toks(), old(self).cursor as int) == old(
                    self,
                ).toks().len() && final(self).cursor == old(self).tokens.len(),
                Ok(Some(st)) => stmt_rel(
                    old(self).toks(),
                    old(self).cursor as int,
                    final(self).cursor as int,
                    st,
                ),
                Err(_) => true,
            },
            match sp_stmt_end(old(self).toks(), old(self).cursor as int) {
                ScanEnd::Exhausted => r is Ok && r->Ok_0 is None,
                ScanEnd::At(end) => r is Ok && r->Ok_0 is Some && final(self).cursor == end,
                ScanEnd::Failed => r is Err,
            },
            ({
                let q = skip_trivia(old(self).toks(), old(self).cursor as int);
                q < old(self).toks().len() && old(self).toks()[q] is Fn
            }) ==> r == Err::<Option<Statement>, ParseError>(ParseError::NestedFunction),
        decreases old(self).tokens.len() - old(self).cursor, 14int,
    {
        let ghost ts = self.toks();
        let ghost p0 = self.cursor as int;
        self.skip_newlines_comments_and_docstrings();
        proof {
            lemma_skip_trivia(ts, p0);
        }
        let ghost q = self.cursor as int;

        if self.cursor >= self.tokens.len() {
            proof {
                assert(sp_stmt_end(ts, p0) is Exhausted);
            }
            return Ok(None);
        }

        let kind: u8 = match &self.tokens[self.cursor] {
            Token::Type(_) => 0,
            Token::While => 1,
            Token::Fn => 2,
            Token::Ret => 3,
            _ => 4,
        };
        if kind == 2 {
            proof {
                assert(sp_stmt_core_end(ts, q) is None);
                assert(sp_stmt_end(ts, p0) is Failed);
            }
            return Err(ParseError::NestedFunction);
        }
        let statement = if kind == 0 {
            Statement::VarDeclaration(self.parse_var_dec()?)
        } else if kind == 1 {
            Statement::WhileLoop(self.parse_while_loop()?)
        } else if kind == 3 {
            Statement::ReturnStatement(self.parse_return_statement()?)
        } else {
            Statement::ExprStatement(self.parse_expr()?)
        };
        let ghost m = self.cursor as int;
        proof {
            assert(stmt_core_rel(ts, q, m, statement));
            assert(sp_stmt_core_end(ts, q) == Some(m));
        }

        match self.next_token() {
            Some(Token::Newline) => {
                proof {
                    lemma_stmt_full(ts, p0, m, self.cursor as int, statement);
                    assert(sp_stmt_end(ts, p0) == ScanEnd::At(m + 1));
                }
                Ok(Some(statement))
            },
            None => {
                proof {
                    lemma_stmt_full(ts, p0, m, self.cursor as int, statement);
                    assert(sp_stmt_end(ts, p0) == ScanEnd::At(m));
                }
                Ok(Some(statement))
            },
            Some(t) => {
                proof {
                    assert(sp_stmt_end(ts, p0) is Failed);
                }
                Err(ParseError::ExpectedStatementEnd { found: t })
            },
        }
    }

    /// Parse a variable declaration: a type, a name, `=`, and the
    /// initializing expression.
    pub fn parse_var_dec(&mut self) -> (r: Result<VarDeclaration, ParseError>)
        requires
            old(self).wf(),
        ensures
            final(self).wf(),
            final(self).tokens == old(self).tokens,
            r is Ok ==> {
                let ts = old(self).toks();
                let p0 = old(self).cursor as int;
                let vd = r->Ok_0;
                &&& p0 + 2 < ts.len()
                &&& ts[p0] == TokenView::Type(vd.var_type)
                &&& ts[p0 + 1] == TokenView::Identifier(vd.var_name@)
                &&& assign_op(ts[p0 + 2]) == Some(BinaryOperator::Assign)
                &&& expr_rel(ts, p0 + 3, final(self).cursor as int, vd.var_value)
            },
            match sp_var_dec_end(old(self).toks(), old(self).cursor as int) {
                Some(end) => r is Ok && final(self).cursor == end,
                None => r is Err,
            },
    {
        let var_type = self.parse_type()?;
        let var_name = self.parse_identifier()?;
        self.assert_next_token(Token::OperatorSymbol(OperatorSymbol::Assign))?;
        let var_value = self.parse_expr()?;
        Ok(VarDeclaration { var_name, var_type, var_value })
    }

    /// Parse a while loop: the keyword, a condition, and a braced body.
    #[verifier::rlimit(30)]
    pub fn parse_while_loop(&mut self) -> (r: Result<WhileLoop, ParseError>)
        requires
            old(self).wf(),
        ensures
            final(self).wf(),
            final(self).tokens == old(self).tokens,
            r is Ok ==> {
                let ts = old(self).toks();
                let p0 = old(self).cursor as int;
                let w = r->Ok_0;
                &&& p0 < ts.len()
                &&& ts[p0] is While
                &&& exists|m: int|
                    p0 + 1 < m < ts.len() && #[trigger] expr_rel(ts, p0 + 1, m, w.condition)
                        && body_rel(ts, m, final(self).cursor as int, w.body@)
            },
            match sp_while_end(old(self).toks(), old(self).cursor as int) {
                Some(end) => r is Ok && final(self).cursor == end,
                None => r is Err,
            },
        decreases old(self).tokens.len() - old(self).cursor, 12int,
    {
        let ghost ts = self.toks();
        let ghost p0 = self.cursor as int;
        self.assert_next_token(Token::While)?;
        let condition = self.parse_expr()?;
        let ghost m = self.cursor as int;
        let body = self.parse_body()?;
        let ghost cv = condition;
        let ghost bv = body@;
        let w = WhileLoop { condition, body };
        proof {
            assert(expr_rel(ts, p0 + 1, m, cv));
            assert(body_rel(ts, m, self.cursor as int, bv));
            let endq = self.cursor as int;
            assert(sp_while_end(ts, p0) == Some(endq));
        }
        Ok(w)
    }

    /// Parse a return statement: `ret`, then the returned expression
    /// unless the statement ends right away — a bare return returns void.
    pub fn parse_return_statement(&mut self) -> (r: Result<Option<Expr>, ParseError>)
        requires
            old(self).wf(),
        ensures
            final(self).wf(),
            final(self).tokens == old(self).tokens,
            r is Ok ==> {
                let ts = old(self).toks();
                let p0 = old(self).cursor as int;
                &&& p0 < ts.len()
                &&& ts[p0] is Ret
                &&& match r->Ok_0 {
                    Some(e) => p0 + 1 < ts.len() && !(ts[p0 + 1] is Newline) && expr_rel(
                        ts,
                        p0 + 1,
                        final(self).cursor as int,
                        e,
                    ),
                    None => final(self).cursor == p0 + 1 && (p0 + 1 >= ts.len() || ts[p0 + 1]
                        is Newline),
                }
            },
            match sp_ret_end(old(self).toks(), old(self).cursor as int) {
                Some(end) => r is Ok && final(self).cursor == end,
                None => r is Err,
            },
    {
        self.assert_next_token(Token::Ret)?;
        let ends = match self.peek_token(1) {
            None => true,
            Some(Token::Newline) => true,
            _ => false,
        };
        if ends {
            return Ok(None);
        }
        let e = self.parse_expr()?;
        Ok(Some(e))
    }

    /// Parse a braced statement block.
    #[verifier::loop_isolation(false)]
    pub fn parse_body(&mut self) -> (r: Result<Vec<Statement>, ParseError>)
        requires
            old(self).wf(),
        ensures
            final(self).wf(),
            final(self).tokens == old(self).tokens,
            r is Ok ==> body_rel(
                old(self).toks(),
                old(self).cursor as int,
                final(self).cursor as int,
                r->Ok_0@,
            ),
            match sp_body_end(old(self).toks(), old(self).cursor as int) {
                Some(end) => r is Ok && final(self).cursor == end,
                None => r is Err,
            },
        decreases old(self).tokens.len() - old(self).cursor, 16int,
    {
        let ghost ts = self.toks();
        let ghost p0 = self.cursor as int;
        self.assert_next_token(Token::LSquirly)?;

        let mut body: Vec<Statement> = Vec::new();
        proof {
            assert forall|end2: int, rest: Seq<Statement>|
                #[trigger] body_items_rel(ts, self.cursor as int, end2, rest) implies body_items_rel(
                ts,
                p0 + 1,
                end2,
                body@ + rest,
            ) by {
                assert(body@ + rest =~= rest);
            }
            assert(sp_body_end(ts, p0) == sp_body_items_end(ts, p0 + 1));
        }

        loop
            invariant
                self.wf(),
                self.tokens == old(self).tokens,
                p0 + 1 <= self.cursor as int,
                forall|end2: int, rest: Seq<Statement>|
                    #[trigger] body_items_rel(ts, self.cursor as int, end2, rest)
                        ==> body_items_rel(ts, p0 + 1, end2, body@ + rest),
                sp_body_end(ts, p0) == sp_body_items_end(ts, self.cursor as int),
            decreases self.tokens.len() - self.cursor,
        {
            if self.cursor >= self.tokens.len() {
                proof {
                    let q = self.cursor as int;
                    assert(sp_body_items_end(ts, q) is None);
                }
                return Err(ParseError::BodyNotClosed);
            }
            let closes = match &self.tokens[self.cursor] {
                Token::RSquirly => true,
                _ => false,
            };
            let ghost c0 = self.cursor as int;
            let ghost done = body@;
            if closes {
                self.skip_token();
                proof {
                    lemma_body_items_empty(ts, c0);
                    assert(done + Seq::<Statement>::empty() =~= body@);
                    assert(body_items_rel(ts, p0 + 1, c0 + 1, body@));
                    lemma_body_wrap(ts, p0, c0 + 1, body@);
                    assert(sp_body_items_end(ts, c0) == Some(c0 + 1));
                }
                return Ok(body);
            }
            match self.parse_statement()? {
                Some(st) => {
                    let ghost sv = st;
                    let ghost m = self.cursor as int;
                    body.push(st);
                    proof {
                        assert(sp_body_items_end(ts, c0) == sp_body_items_end(ts, m));
                        assert forall|end2: int, rest: Seq<Statement>|
                            #[trigger] body_items_rel(ts, m, end2, rest) implies body_items_rel(
                            ts,
                            p0 + 1,
                            end2,
                            body@ + rest,
                        ) by {
                            lemma_body_items_cons(ts, c0, m, end2, sv, rest);
                            assert(done + (seq![sv] + rest) =~= body@ + rest);
                        }
                    }
                },
                None => {
                    proof {
                        assert(sp_body_items_end(ts, c0) is None);
                    }
                    return Err(ParseError::BodyNotClosed);
                },
            }
        }
    }

    /// Parse one parameter: a type and a name.
    pub fn parse_func_param(&mut self) -> (r: Result<FuncParam, ParseError>)
        requires
            old(self).wf(),
        ensures
            final(self).wf(),
            final(self).tokens == old(self).tokens,
            r is Ok ==> {
                let ts = old(self).toks();
                let p0 = old(self).cursor as int;
                let fp = r->Ok_0;
                &&& p0 + 1 < ts.len()
                &&& ts[p0] == TokenView::Type(fp.param_type)
                &&& ts[p0 + 1] == TokenView::Identifier(fp.param_name@)
                &&& final(self).cursor == p0 + 2
            },
            match sp_param_end(old(self).toks(), old(self).cursor as int) {
                Some(end) => r is Ok && final(self).cursor == end,
                None => r is Err,
            },
    {
        let param_type = self.parse_type()?;
        let param_name = self.parse_identifier()?;
        Ok(FuncParam { param_type, param_name })
    }

    /// Parse a parenthesized, comma-separated parameter list.
    #[verifier::loop_isolation(false)]
    pub fn parse_func_params(&mut self) -> (r: Result<Vec<FuncParam>, ParseError>)
        requires
            old(self).wf(),
        ensures
            final(self).wf(),
            final(self).tokens == old(self).tokens,
            r is Ok ==> params_rel(
                old(self).toks(),
                old(self).cursor as int,
                final(self).cursor as int,
                r->Ok_0@,
            ),
            match sp_params_end(old(self).toks(), old(self).cursor as int) {
                Some(end) => r is Ok && final(self).cursor == end,
                None => r is Err,
            },
    {
        let ghost ts = self.toks();
        let ghost p0 = self.cursor as int;
        self.assert_next_token(Token::LParen)?;

        let mut params: Vec<FuncParam> = Vec::new();

        let next_is_rparen = match self.peek_token(1) {
            Some(Token::RParen) => true,
            _ => false,
        };
        if next_is_rparen {
            self.skip_token();
            proof {
                lemma_params_empty(ts, p0);
                assert(params@ =~= Seq::<FuncParam>::empty());
                assert(sp_params_end(ts, p0) == Some(p0 + 2));
            }
            return Ok(params);
        }

        proof {
            assert forall|end2: int, rest: Seq<FuncParam>|
                #[trigger] params_items_rel(ts, self.cursor as int, end2, rest)
                    implies params_items_rel(ts, p0 + 1, end2, params@ + rest) by {
                assert(params@ + rest =~= rest);
            }
            assert(sp_params_end(ts, p0) == sp_params_items_end(ts, p0 + 1));
        }

        loop
            invariant
                self.wf(),
                self.tokens == old(self).tokens,
                p0 + 1 <= self.cursor as int,
                forall|end2: int, rest: Seq<FuncParam>|
                    #[trigger] params_items_rel(ts, self.cursor as int, end2, rest)
                        ==> params_items_rel(ts, p0 + 1, end2, params@ + rest),
                sp_params_end(ts, p0) == sp_params_items_end(ts, self.cursor as int),
            decreases self.tokens.len() - self.cursor,
        {
            let ghost c0 = self.cursor as int;
            let ghost done = params@;
            let fp = self.parse_func_param()?;
            let ghost fv = fp;
            params.push(fp);

            match self.next_token() {
                Some(Token::RParen) => {
                    proof {
                        lemma_params_items_single(ts, c0, fv);
                        assert(done + seq![fv] =~= params@);
                        assert(params_items_rel(ts, p0 + 1, c0 + 3, params@));
                        lemma_params_wrap(ts, p0, c0 + 3, params@);
                        assert(sp_params_items_end(ts, c0) == Some(c0 + 3));
                    }
                    return Ok(params);
                },
                Some(Token::Comma) => {
                    proof {
                        assert forall|end2: int, rest: Seq<FuncParam>|
                            #[trigger] params_items_rel(ts, c0 + 3, end2, rest)
                                implies params_items_rel(ts, p0 + 1, end2, params@ + rest) by {
                            lemma_params_items_cons(ts, c0, end2, fv, rest);
                            assert(done + (seq![fv] + rest) =~= params@ + rest);
                        }
                        assert(sp_params_items_end(ts, c0) == sp_params_items_end(ts, c0 + 3));
                    }
                },
                Some(t) => {
                    proof {
                        assert(sp_params_items_end(ts, c0) is None);
                    }
                    return Err(
                        ParseError::ExpectedToken { expected: Token::RParen, found: Some(t) },
                    );
                },
                None => {
                    proof {
                        assert(sp_params_items_end(ts, c0) is None);
                    }
                    return Err(ParseError::ExpectedToken { expected: Token::RParen, found: None });
                },
            }
        }
    }

    /// Parse one function definition after any leading trivia; `None`
    /// when only trivia remains.
    #[verifier::rlimit(100)]
    pub fn parse_func_def(&mut self) -> (r: Result<Option<FuncDef>, ParseError>)
        requires
            old(self).wf(),
        ensures
            final(self).wf(),
            final(self).tokens == old(self).tokens,
            match r {
                Ok(None) => skip_trivia(old(self).toks(), old(self).cursor as int) == old(
                    self,
                ).toks().len() && final(self).cursor == old(self).tokens.len(),
                Ok(Some(f)) => func_def_rel(
                    old(self).toks(),
                    old(self).cursor as int,
                    final(self).cursor as int,
                    f,
                ),
                Err(_) => true,
            },
            match sp_func_end(old(self).toks(), old(self).cursor as int) {
                ScanEnd::Exhausted => r is Ok && r->Ok_0 is None,
                ScanEnd::At(end) => r is Ok && r->Ok_0 is Some && final(self).cursor == end,
                ScanEnd::Failed => r is Err,
            },
    {
        let ghost ts = self.toks();
        let ghost p0 = self.cursor as int;
        self.skip_newlines_comments_and_docstrings();
        proof {
            lemma_skip_trivia(ts, p0);
        }
        let ghost q = self.cursor as int;

        if self.cursor >= self.tokens.len() {
            proof {
                assert(sp_func_end(ts, p0) is Exhausted);
            }
            return Ok(None);
        }
        let opens_fn = match &self.tokens[self.cursor] {
            Token::Fn => true,
            _ => false,
        };
        if !opens_fn {
            proof {
                assert(sp_func_end(ts, p0) is Failed);
            }
            let found = copy_token(&self.tokens[self.cursor]);
            return Err(ParseError::ExpectedToken { expected: Token::Fn, found: Some(found) });
        }
        self.skip_token();

        let name = self.parse_identifier()?;
        let params = self.parse_func_params()?;
        let ghost m = self.cursor as int;
        proof {
            assert(sp_params_end(ts, q + 2) == Some(m));
        }

        let next_is_lsquirly = match self.peek_token(1) {
            Some(Token::LSquirly) => true,
            _ => false,
        };
        let next_is_type = match self.peek_token(1) {
            Some(Token::Type(_)) => true,
            _ => false,
        };
        let return_type = if next_is_lsquirly {
            Type::Void
        } else if next_is_type {
            self.parse_type()?
        } else {
            proof {
                assert(sp_func_end(ts, p0) is Failed);
            }
            match self.peek_token(1) {
                Some(t) => {
                    let found = copy_token(t);
                    return Err(
                        ParseError::ExpectedReturnType {
                            function: name,
                            found: Some(found),
                        },
                    );
                },
                None => {
                    return Err(ParseError::ExpectedReturnType { function: name, found: None });
                },
            }
        };

        let body = self.parse_body()?;
        proof {
            let endq = self.cursor as int;
            assert(sp_func_end(ts, p0) == ScanEnd::At(endq));
        }

        let ghost nv = name@;
        let ghost pv = params@;
        let ghost bv = body@;
        let f = FuncDef { name, params, return_type, body };
        proof {
            assert(ts[q] is Fn);
            assert(ts[q + 1] == TokenView::Identifier(nv));
            assert(params_rel(ts, q + 2, m, pv));
            lemma_func_def_compose(ts, p0, m, self.cursor as int, f);
        }
        Ok(Some(f))
    }

    /// Parse a whole program: function definitions until only trivia
    /// remains, consuming the tokens to their end.
    #[verifier::loop_isolation(false)]
    #[verifier::rlimit(60)]
    pub fn parse_program(&mut self) -> (r: Result<Program, ParseError>)
        requires
            old(self).wf(),
        ensures
            final(self).wf(),
            final(self).tokens == old(self).tokens,
            r is Ok ==> program_items_rel(
                old(self).toks(),
                old(self).cursor as int,
                r->Ok_0.func_defs@,
            ),
            r is Ok <==> sp_program_ok(old(self).toks(), old(self).cursor as int),
    {
        let ghost ts = self.toks();
        let ghost p0 = self.cursor as int;
        let mut func_defs: Vec<FuncDef> = Vec::new();

        proof {
            assert forall|rest: Seq<FuncDef>|
                #[trigger] program_items_rel(ts, self.cursor as int, rest) implies program_items_rel(
                ts,
                p0,
                func_defs@ + rest,
            ) by {
                assert(func_defs@ + rest =~= rest);
            }
        }

        loop
            invariant
                self.wf(),
                self.tokens == old(self).tokens,
                forall|rest: Seq<FuncDef>|
                    #[trigger] program_items_rel(ts, self.cursor as int, rest)
                        ==> program_items_rel(ts, p0, func_defs@ + rest),
                sp_program_ok(ts, p0) == sp_program_ok(ts, self.cursor as int),
            decreases self.tokens.len() - self.cursor,
        {
            let ghost c0 = self.cursor as int;
            let ghost done = func_defs@;
            let next = match self.parse_func_def() {
                Ok(o) => o,
                Err(err) => {
                    proof {
                        assert(!sp_program_ok(ts, c0));
                    }
                    return Err(err);
                },
            };
            match next {
                Some(f) => {
                    let ghost fv = f;
                    let ghost m = self.cursor as int;
                    func_defs.push(f);
                    proof {
                        assert forall|rest: Seq<FuncDef>|
                            #[trigger] program_items_rel(ts, m, rest) implies program_items_rel(
                            ts,
                            p0,
                            func_defs@ + rest,
                        ) by {
                            lemma_program_items_cons(ts, c0, m, fv, rest);
                            assert(done + (seq![fv] + rest) =~= func_defs@ + rest);
                        }
                        assert(sp_program_ok(ts, c0) == sp_program_ok(ts, m));
                    }
                },
                None => {
                    proof {
                        lemma_program_items_empty(ts, c0);
                        assert(done + Seq::<FuncDef>::empty() =~= done);
                        assert(program_items_rel(ts, p0, func_defs@));
                        assert(sp_program_ok(ts, c0));
                    }
                    return Ok(Program { func_defs });
                },
            }
        }
    }
}

/// The assignment operator an operator symbol stands for, if any.
fn assign_symbol(op: OperatorSymbol) -> (r: Option<BinaryOperator>)
    ensures
        r == assign_op(TokenView::OperatorSymbol(op)),
{
    match op {
        OperatorSymbol::Assign => Some(BinaryOperator::Assign),
        OperatorSymbol::PlusEq => Some(BinaryOperator::PlusEq),
        OperatorSymbol::MinusEq => Some(BinaryOperator::MinusEq),
        OperatorSymbol::TimesEq => Some(BinaryOperator::TimesEq),
        OperatorSymbol::DivideEq => Some(BinaryOperator::DivideEq),
        _ => None,
    }
}

/// The comparison operator an operator symbol stands for, if any.
fn cmp_symbol(op: OperatorSymbol) -> (r: Option<BinaryOperator>)
    ensures
        r == cmp_op(TokenView::OperatorSymbol(op)),
{
    match op {
        OperatorSymbol::EqualTo => Some(BinaryOperator::EqualTo),
        OperatorSymbol::NotEqualTo => Some(BinaryOperator::NotEqualTo),
        OperatorSymbol::LessThan => Some(BinaryOperator::LessThan),
        OperatorSymbol::LessOrEqualTo => Some(BinaryOperator::LessOrEqualTo),
        OperatorSymbol::GreaterThan => Some(BinaryOperator::GreaterThan),
        OperatorSymbol::GreaterOrEqualTo => Some(BinaryOperator::GreaterOrEqualTo),
        _ => None,
    }
}

/// The additive operator an operator symbol stands for, if any.
fn add_symbol(op: OperatorSymbol) -> (r: Option<BinaryOperator>)
    ensures
        r == add_op(TokenView::OperatorSymbol(op)),
{
    match op {
        OperatorSymbol::Plus => Some(BinaryOperator::Add),
        OperatorSymbol::Minus => Some(BinaryOperator::Subtract),
        _ => None,
    }
}

/// The multiplicative operator an operator symbol stands for, if any.
fn mul_symbol(op: OperatorSymbol) -> (r: Option<BinaryOperator>)
    ensures
        r == mul_op(TokenView::OperatorSymbol(op)),
{
    match op {
        OperatorSymbol::Asterisk => Some(BinaryOperator::Multiply),
        OperatorSymbol::Slash => Some(BinaryOperator::Divide),
        _ => None,
    }
}

} // verus!
