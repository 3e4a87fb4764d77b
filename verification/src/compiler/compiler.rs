//! The code generator.
//!
//! `emit_expr` and its companions say, for any expression or statement,
//! exactly which instructions the generator appends, which value handle
//! it returns, and how the scope changes — or which semantic error stops
//! the compilation. The executable generator is proved to follow them.
//!
//! Lowering a while loop is not implemented; it raises an error rather
//! than guess control-flow semantics.

use vstd::prelude::*;

use crate::chars::{copy_chars, same_text};
use crate::compiler::ast::{
    Assign, Binary, Call, Expr, FuncDef, FuncParam, Program, Statement, VarDeclaration,
};
use crate::compiler::ir::{instrs_view, Instr, InstrView, IrFunction, IrFunctionView, IrModule,
    Value};
use crate::compiler::scope_manager::{scopes_lookup, FrameView, ScopeManager, ScopesView};
use crate::token::Type;

verus! {

/// A fatal semantic error; it aborts the whole compilation.
#[derive(Debug, PartialEq, Eq)]
pub enum CompileError {
    /// A function of this name is already defined.
    Redefinition(Vec<char>),
    /// An identifier that no visible declaration binds.
    UndefinedIdentifier(Vec<char>),
    /// A call of a function the module does not know.
    UnknownFunction(Vec<char>),
    /// A call whose argument count differs from the parameter count.
    ArgumentCount(Vec<char>),
    /// An assignment to a name that was never declared.
    AssignUndeclared(Vec<char>),
    /// Lowering a while loop is not implemented.
    WhileNotImplemented,
}

/// Spec-level view of a semantic error.
pub enum CompileErrorView {
    Redefinition(Seq<char>),
    UndefinedIdentifier(Seq<char>),
    UnknownFunction(Seq<char>),
    ArgumentCount(Seq<char>),
    AssignUndeclared(Seq<char>),
    WhileNotImplemented,
}

impl View for CompileError {
    type V = CompileErrorView;

    open spec fn view(&self) -> CompileErrorView {
        match self {
            CompileError::Redefinition(n) => CompileErrorView::Redefinition(n@),
            CompileError::UndefinedIdentifier(n) => CompileErrorView::UndefinedIdentifier(n@),
            CompileError::UnknownFunction(n) => CompileErrorView::UnknownFunction(n@),
            CompileError::ArgumentCount(n) => CompileErrorView::ArgumentCount(n@),
            CompileError::AssignUndeclared(n) => CompileErrorView::AssignUndeclared(n@),
            CompileError::WhileNotImplemented => CompileErrorView::WhileNotImplemented,
        }
    }
}

/// A module's callable surface: each function's name and parameter count,
/// in definition order. Appending instructions to a body leaves it
/// unchanged.
pub open spec fn sigs_of(funcs: Seq<IrFunctionView>) -> Seq<(Seq<char>, int)> {
    funcs.map_values(|f: IrFunctionView| (f.name, f.param_types.len() as int))
}

/// The first function of this name at or after position `i`.
pub open spec fn find_sig_from(sigs: Seq<(Seq<char>, int)>, name: Seq<char>, i: int) -> Option<int>
    decreases sigs.len() - i,
{
    if i >= sigs.len() {
        None
    } else if sigs[i].0 == name {
        Some(i)
    } else {
        find_sig_from(sigs, name, i + 1)
    }
}

/// The first function of this name, if any.
pub open spec fn find_sig(sigs: Seq<(Seq<char>, int)>, name: Seq<char>) -> Option<int> {
    find_sig_from(sigs, name, 0)
}

/// What emitting an expression yields: the instructions appended — the
/// first landing at index `at` of the function's body — and the value
/// handle of the expression's result.
pub open spec fn emit_expr(
    sigs: Seq<(Seq<char>, int)>,
    scopes: ScopesView,
    e: Expr,
    at: int,
) -> Result<(Seq<InstrView>, Value), CompileErrorView>
    decreases e,
{
    match e {
        Expr::Identifier(n) => match scopes_lookup(scopes, n@) {
            Some(slot) => Ok((seq![InstrView::Load { slot }], Value::Instr(at as usize))),
            None => Err(CompileErrorView::UndefinedIdentifier(n@)),
        },
        Expr::I64Literal(x) => Ok((Seq::empty(), Value::ConstI64(x))),
        Expr::Binary(b) => emit_binary(sigs, scopes, b, at),
        Expr::Call(c) => emit_call(sigs, scopes, c, at),
        Expr::Assign(a) => emit_assign(sigs, scopes, a, at),
    }
}

/// Emit a binary expression: the left operand, the right operand, then
/// the arithmetic or signed-comparison instruction over their values.
pub open spec fn emit_binary(
    sigs: Seq<(Seq<char>, int)>,
    scopes: ScopesView,
    b: Binary,
    at: int,
) -> Result<(Seq<InstrView>, Value), CompileErrorView>
    decreases b,
{
    match emit_expr(sigs, scopes, *b.left, at) {
        Ok(l) => match emit_expr(sigs, scopes, *b.right, at + l.0.len()) {
            Ok(r) => Ok(
                (
                    l.0 + r.0 + seq![
                        InstrView::BinOp { op: b.operator, left: l.1, right: r.1 },
                    ],
                    Value::Instr((at + l.0.len() + r.0.len()) as usize),
                ),
            ),
            Err(er) => Err(er),
        },
        Err(er) => Err(er),
    }
}

/// Emit a call: resolve the callee by name, demand the exact argument
/// count, emit the arguments left to right, then the call instruction.
pub open spec fn emit_call(
    sigs: Seq<(Seq<char>, int)>,
    scopes: ScopesView,
    c: Call,
    at: int,
) -> Result<(Seq<InstrView>, Value), CompileErrorView>
    decreases c,
{
    match find_sig(sigs, c.function_name@) {
        None => Err(CompileErrorView::UnknownFunction(c.function_name@)),
        Some(idx) => if sigs[idx].1 != c.args@.len() {
            Err(CompileErrorView::ArgumentCount(c.function_name@))
        } else {
            match emit_args(sigs, scopes, c.args@, at) {
                Ok(a) => Ok(
                    (
                        a.0 + seq![InstrView::Call { callee: idx as usize, args: a.1 }],
                        Value::Instr((at + a.0.len()) as usize),
                    ),
                ),
                Err(er) => Err(er),
            }
        },
    }
}

/// Emit arguments left to right, collecting their values.
pub open spec fn emit_args(
    sigs: Seq<(Seq<char>, int)>,
    scopes: ScopesView,
    es: Seq<Expr>,
    at: int,
) -> Result<(Seq<InstrView>, Seq<Value>), CompileErrorView>
    decreases es,
{
    if es.len() == 0 {
        Ok((Seq::empty(), Seq::empty()))
    } else {
        match emit_expr(sigs, scopes, es[0], at) {
            Ok(e0) => match emit_args(sigs, scopes, es.drop_first(), at + e0.0.len()) {
                Ok(rest) => Ok((e0.0 + rest.0, seq![e0.1] + rest.1)),
                Err(er) => Err(er),
            },
            Err(er) => Err(er),
        }
    }
}

/// Emit an assignment: the value, then a store into the target's
/// existing slot; the assignment's value is the stored value. Assigning
/// to an undeclared name is an error — assignment never declares.
pub open spec fn emit_assign(
    sigs: Seq<(Seq<char>, int)>,
    scopes: ScopesView,
    a: Assign,
    at: int,
) -> Result<(Seq<InstrView>, Value), CompileErrorView>
    decreases a,
{
    match emit_expr(sigs, scopes, *a.value, at) {
        Ok(v) => match scopes_lookup(scopes, a.name@) {
            Some(slot) => Ok((v.0 + seq![InstrView::Store { value: v.1, slot }], v.1)),
            None => Err(CompileErrorView::AssignUndeclared(a.name@)),
        },
        Err(er) => Err(er),
    }
}

/// Emit one declaration list: for each variable an alloca bound in the
/// innermost scope, then — when an initializer is given — its value and
/// a store. The initializer is emitted under the new binding, exactly as
/// the generator resolves it.
pub open spec fn emit_var_decls(
    sigs: Seq<(Seq<char>, int)>,
    scopes: ScopesView,
    ds: Seq<VarDeclaration>,
    at: int,
) -> Result<(Seq<InstrView>, ScopesView), CompileErrorView>
    decreases ds,
{
    if ds.len() == 0 {
        Ok((Seq::empty(), scopes))
    } else {
        let d = ds[0];
        let slot = at as usize;
        let scopes2 = scopes.update(scopes.len() - 1, scopes.last().push((d.var_name@, slot)));
        let alloca = seq![InstrView::Alloca { name: d.var_name@ }];
        match d.var_value {
            None => match emit_var_decls(sigs, scopes2, ds.drop_first(), at + 1) {
                Ok(rest) => Ok((alloca + rest.0, rest.1)),
                Err(er) => Err(er),
            },
            Some(e) => match emit_expr(sigs, scopes2, e, at + 1) {
                Ok(v) => {
                    let ins = alloca + v.0 + seq![InstrView::Store { value: v.1, slot }];
                    match emit_var_decls(sigs, scopes2, ds.drop_first(), at + ins.len()) {
                        Ok(rest) => Ok((ins + rest.0, rest.1)),
                        Err(er) => Err(er),
                    }
                },
                Err(er) => Err(er),
            },
        }
    }
}

/// What emitting one statement yields: the appended instructions and the
/// scopes afterwards. A while loop is not implemented.
pub open spec fn emit_stmt(
    sigs: Seq<(Seq<char>, int)>,
    scopes: ScopesView,
    s: Statement,
    at: int,
) -> Result<(Seq<InstrView>, ScopesView), CompileErrorView>
    decreases s,
{
    match s {
        Statement::VarDeclarations(ds) => emit_var_decls(sigs, scopes, ds@, at),
        Statement::WhileLoop(_) => Err(CompileErrorView::WhileNotImplemented),
        Statement::Expr(e) => match emit_expr(sigs, scopes, e, at) {
            Ok(r) => Ok((r.0, scopes)),
            Err(er) => Err(er),
        },
        Statement::Return(v) => match v {
            Some(e) => match emit_expr(sigs, scopes, e, at) {
                Ok(r) => Ok((r.0 + seq![InstrView::Ret { value: Some(r.1) }], scopes)),
                Err(er) => Err(er),
            },
            None => Ok((seq![InstrView::Ret { value: None }], scopes)),
        },
    }
}

/// Emit a statement list in order, threading the scopes through.
pub open spec fn emit_stmts(
    sigs: Seq<(Seq<char>, int)>,
    scopes: ScopesView,
    ss: Seq<Statement>,
    at: int,
) -> Result<(Seq<InstrView>, ScopesView), CompileErrorView>
    decreases ss,
{
    if ss.len() == 0 {
        Ok((Seq::empty(), scopes))
    } else {
        match emit_stmt(sigs, scopes, ss[0], at) {
            Ok(first) => match emit_stmts(sigs, first.1, ss.drop_first(), at + first.0.len()) {
                Ok(rest) => Ok((first.0 + rest.0, rest.1)),
                Err(er) => Err(er),
            },
            Err(er) => Err(er),
        }
    }
}

/// The prologue binding each parameter to a fresh stack slot: for the
/// parameter with index `i`, an alloca at body index `2 * i` and a store
/// of the incoming value, so parameters are mutable locals.
pub open spec fn param_prologue(params: Seq<FuncParam>, i: int) -> Seq<InstrView>
    decreases params.len() - i,
{
    if i < 0 || i >= params.len() {
        Seq::empty()
    } else {
        seq![
            InstrView::Alloca { name: params[i].param_name@ },
            InstrView::Store { value: Value::Param(i as usize), slot: (2 * i) as usize },
        ] + param_prologue(params, i + 1)
    }
}

/// The function scope frame after the prologue: each parameter bound to
/// its slot.
pub open spec fn param_frame(params: Seq<FuncParam>) -> FrameView {
    Seq::new(params.len(), |i: int| (params[i].param_name@, (2 * i) as usize))
}

/// What generating one function yields, given the functions defined so
/// far: its signature with the requested linkage, the parameter
/// prologue, the body's statements in order, and — only when the body
/// does not already end in an explicit return — an appended implicit
/// void return. Redefining a name is an error.
pub open spec fn emit_func_def(funcs: Seq<IrFunctionView>, f: FuncDef) -> Result<
    IrFunctionView,
    CompileErrorView,
>  {
    if find_sig(sigs_of(funcs), f.name@) is Some {
        Err(CompileErrorView::Redefinition(f.name@))
    } else {
        let header = IrFunctionView {
            name: f.name@,
            param_types: Seq::new(f.params@.len(), |i: int| f.params@[i].param_type),
            param_names: Seq::new(f.params@.len(), |i: int| f.params@[i].param_name@),
            return_type: f.return_type,
            is_public: f.is_public,
            body: Seq::empty(),
        };
        let sigs = sigs_of(funcs.push(header));
        let scopes0 = seq![param_frame(f.params@)];
        let pstart = 2 * f.params@.len() as int;
        match emit_stmts(sigs, scopes0, f.body@, pstart) {
            Ok(pr) => {
                let stmts_ins = pr.0;
                let explicit = f.body@.len() > 0 && f.body@.last() is Return;
                let body = if explicit {
                    param_prologue(f.params@, 0) + stmts_ins
                } else {
                    param_prologue(f.params@, 0) + stmts_ins + seq![
                        InstrView::Ret { value: None },
                    ]
                };
                Ok(IrFunctionView { body, ..header })
            },
            Err(er) => Err(er),
        }
    }
}

/// What compiling a whole program yields: each function generated in
/// order against the module built so far.
pub open spec fn emit_program(funcs: Seq<IrFunctionView>, fds: Seq<FuncDef>) -> Result<
    Seq<IrFunctionView>,
    CompileErrorView,
>
    decreases fds.len(),
{
    if fds.len() == 0 {
        Ok(funcs)
    } else {
        match emit_func_def(funcs, fds[0]) {
            Ok(fv) => emit_program(funcs.push(fv), fds.drop_first()),
            Err(er) => Err(er),
        }
    }
}

/// The new module is the old with exactly `ins` appended to its last
/// function's body; everything else is unchanged.
pub open spec fn module_extended(
    olds: Seq<IrFunctionView>,
    news: Seq<IrFunctionView>,
    ins: Seq<InstrView>,
) -> bool {
    &&& olds.len() > 0
    &&& news.len() == olds.len()
    &&& forall|i: int| 0 <= i < olds.len() - 1 ==> news[i] == olds[i]
    &&& news.last().name == olds.last().name
    &&& news.last().param_types == olds.last().param_types
    &&& news.last().param_names == olds.last().param_names
    &&& news.last().return_type == olds.last().return_type
    &&& news.last().is_public == olds.last().is_public
    &&& news.last().body == olds.last().body + ins
}

/// The new module is the old with something appended to its last
/// function's body; everything else is unchanged.
pub open spec fn module_grown(olds: Seq<IrFunctionView>, news: Seq<IrFunctionView>) -> bool {
    &&& olds.len() > 0
    &&& news.len() == olds.len()
    &&& forall|i: int| 0 <= i < olds.len() - 1 ==> news[i] == olds[i]
    &&& news.last().name == olds.last().name
    &&& news.last().param_types == olds.last().param_types
    &&& news.last().param_names == olds.last().param_names
    &&& news.last().return_type == olds.last().return_type
    &&& news.last().is_public == olds.last().is_public
    &&& olds.last().body.len() <= news.last().body.len()
    &&& news.last().body.subrange(0, olds.last().body.len() as int) == olds.last().body
}

/// Extending twice extends by the concatenation.
pub proof fn lemma_extend_trans(
    a: Seq<IrFunctionView>,
    b: Seq<IrFunctionView>,
    c: Seq<IrFunctionView>,
    i1: Seq<InstrView>,
    i2: Seq<InstrView>,
)
    requires
        module_extended(a, b, i1),
        module_extended(b, c, i2),
    ensures
        module_extended(a, c, i1 + i2),
{
    assert(c.last().body =~= a.last().body + (i1 + i2));
}

/// An extension grows the module.
pub proof fn lemma_extend_grows(a: Seq<IrFunctionView>, b: Seq<IrFunctionView>, ins: Seq<InstrView>)
    requires
        module_extended(a, b, ins),
    ensures
        module_grown(a, b),
        b.last().body.len() == a.last().body.len() + ins.len(),
{
    assert(b.last().body.subrange(0, a.last().body.len() as int) =~= a.last().body);
}

/// Growing twice grows.
pub proof fn lemma_grow_trans(a: Seq<IrFunctionView>, b: Seq<IrFunctionView>, c: Seq<IrFunctionView>)
    requires
        module_grown(a, b),
        module_grown(b, c),
    ensures
        module_grown(a, c),
{
    assert(c.last().body.subrange(0, a.last().body.len() as int) =~= a.last().body);
}

/// A module's callable surface is untouched by growing a body.
pub proof fn lemma_grow_keeps_sigs(a: Seq<IrFunctionView>, b: Seq<IrFunctionView>)
    requires
        module_grown(a, b),
    ensures
        sigs_of(a) == sigs_of(b),
{
    assert(sigs_of(a) =~= sigs_of(b));
}

/// The code generator: the module built so far and the scope tracker.
#[derive(Debug)]
pub struct Compiler {
    pub module: IrModule,
    pub scope_manager: ScopeManager,
}

impl Compiler {
    /// A fresh generator: an empty module, no scopes entered.
    pub fn new() -> (c: Compiler)
        ensures
            c.module@ =~= Seq::<IrFunctionView>::empty(),
            c.scope_manager@ =~= Seq::<FrameView>::empty(),
    {
        let c = Compiler {
            module: IrModule { functions: Vec::new() },
            scope_manager: ScopeManager::new(),
        };
        proof {
            assert(c.module@ =~= Seq::<IrFunctionView>::empty());
        }
        c
    }

    /// The index of the function being generated: the last one.
    pub fn get_cur_function(&self) -> (i: usize)
        requires
            self.module.functions.len() > 0,
        ensures
            i == self.module.functions.len() - 1,
    {
        self.module.functions.len() - 1
    }

    /// How many instructions the current function holds.
    fn cur_len(&self) -> (n: usize)
        requires
            self.module.functions.len() > 0,
        ensures
            n == self.module@.last().body.len(),
    {
        let i = self.module.functions.len() - 1;
        self.module.functions[i].body.len()
    }

    /// Append one instruction to the current function.
    fn push_instr(&mut self, ins: Instr)
        requires
            old(self).module.functions.len() > 0,
        ensures
            module_extended(old(self).module@, final(self).module@, seq![ins@]),
            final(self).scope_manager == old(self).scope_manager,
    {
        let ghost iv = ins@;
        let mut f = self.module.functions.pop().unwrap();
        f.body.push(ins);
        self.module.functions.push(f);
        proof {
            let olds = old(self).module@;
            let news = self.module@;
            assert(news.len() == olds.len());
            assert forall|i: int| 0 <= i < olds.len() - 1 implies news[i] == olds[i] by {
                assert(self.module.functions@[i] == old(self).module.functions@[i]);
            }
            assert(news.last().body =~= olds.last().body + seq![iv]);
        }
    }

    /// Allocate one named stack slot in the current function and give its
    /// handle.
    pub fn create_entry_block_alloca(&mut self, var_name: &Vec<char>) -> (slot: usize)
        requires
            old(self).module.functions.len() > 0,
        ensures
            module_extended(
                old(self).module@,
                final(self).module@,
                seq![InstrView::Alloca { name: var_name@ }],
            ),
            final(self).scope_manager == old(self).scope_manager,
            slot == old(self).module@.last().body.len(),
    {
        let slot = self.cur_len();
        self.push_instr(Instr::Alloca { name: copy_chars(var_name) });
        slot
    }

    /// The constant value for a 64-bit integer literal.
    pub fn compile_i64_literal(&self, x: i64) -> (v: Value)
        ensures
            v == Value::ConstI64(x),
    {
        Value::ConstI64(x)
    }

    /// Load an identifier from its resolved slot; an identifier that no
    /// visible declaration binds is a fatal error.
    pub fn compile_identifier(&mut self, id: &Vec<char>) -> (r: Result<Value, CompileError>)
        requires
            old(self).module.functions.len() > 0,
        ensures
            final(self).scope_manager == old(self).scope_manager,
            match scopes_lookup(old(self).scope_manager@, id@) {
                Some(slot) => r == Ok::<Value, CompileError>(
                    Value::Instr(old(self).module@.last().body.len() as usize),
                ) && module_extended(
                    old(self).module@,
                    final(self).module@,
                    seq![InstrView::Load { slot }],
                ),
                None => r is Err && r->Err_0@ == CompileErrorView::UndefinedIdentifier(id@)
                    && final(self).module == old(self).module,
            },
    {
        match self.scope_manager.get_var(id) {
            Some(slot) => {
                let at = self.cur_len();
                self.push_instr(Instr::Load { slot });
                Ok(Value::Instr(at))
            },
            None => Err(CompileError::UndefinedIdentifier(copy_chars(id))),
        }
    }

    /// Lower one expression into the current function, giving the value
    /// handle of its result.
    pub fn compile_expr(&mut self, expr: &Expr) -> (r: Result<Value, CompileError>)
        requires
            old(self).module.functions.len() > 0,
        ensures
            final(self).scope_manager == old(self).scope_manager,
            module_grown(old(self).module@, final(self).module@),
            match emit_expr(
                sigs_of(old(self).module@),
                old(self).scope_manager@,
                *expr,
                old(self).module@.last().body.len() as int,
            ) {
                Ok(pr) => r == Ok::<Value, CompileError>(pr.1) && module_extended(
                    old(self).module@,
                    final(self).module@,
                    pr.0,
                ),
                Err(ev) => r is Err && r->Err_0@ == ev,
            },
        decreases *expr,
    {
        proof {
            lemma_extend_grows(
                old(self).module@,
                old(self).module@,
                Seq::<InstrView>::empty(),
            );
            assert(old(self).module@.last().body + Seq::<InstrView>::empty()
                =~= old(self).module@.last().body);
        }
        match expr {
            Expr::Identifier(n) => {
                let r = self.compile_identifier(n);
                proof {
                    if r is Ok {
                        lemma_extend_grows(
                            old(self).module@,
                            self.module@,
                            seq![
                                InstrView::Load {
                                    slot: scopes_lookup(
                                        old(self).scope_manager@,
                                        n@,
                                    )->0,
                                },
                            ],
                        );
                    }
                }
                r
            },
            Expr::I64Literal(x) => {
                proof {
                    assert(module_extended(
                        old(self).module@,
                        self.module@,
                        Seq::<InstrView>::empty(),
                    ));
                }
                Ok(self.compile_i64_literal(*x))
            },
            Expr::Binary(b) => self.compile_bin_expr(b),
            Expr::Call(c) => self.compile_call_expr(c),
            Expr::Assign(a) => self.compile_assignment(a),
        }
    }

    /// Lower a binary expression: both operands, then the instruction
    /// matching the operator.
    pub fn compile_bin_expr(&mut self, bin_expr: &Binary) -> (r: Result<Value, CompileError>)
        requires
            old(self).module.functions.len() > 0,
        ensures
            final(self).scope_manager == old(self).scope_manager,
            module_grown(old(self).module@, final(self).module@),
            match emit_binary(
                sigs_of(old(self).module@),
                old(self).scope_manager@,
                *bin_expr,
                old(self).module@.last().body.len() as int,
            ) {
                Ok(pr) => r == Ok::<Value, CompileError>(pr.1) && module_extended(
                    old(self).module@,
                    final(self).module@,
                    pr.0,
                ),
                Err(ev) => r is Err && r->Err_0@ == ev,
            },
        decreases *bin_expr,
    {
        let ghost m0 = old(self).module@;
        let lhs = self.compile_expr(&bin_expr.left)?;
        let ghost m1 = self.module@;
        proof {
            lemma_grow_keeps_sigs(m0, m1);
        }
        let rhs = match self.compile_expr(&bin_expr.right) {
            Ok(v) => v,
            Err(err) => {
                proof {
                    lemma_grow_trans(m0, m1, self.module@);
                }
                return Err(err);
            },
        };
        let ghost m2 = self.module@;
        let at = self.cur_len();
        self.push_instr(
            Instr::BinOp { op: bin_expr.operator, left: lhs, right: rhs },
        );
        proof {
            let sigs = sigs_of(m0);
            let smv = old(self).scope_manager@;
            let a0 = m0.last().body.len() as int;
            let l = emit_expr(sigs, smv, *bin_expr.left, a0)->Ok_0;
            let rr = emit_expr(sigs, smv, *bin_expr.right, a0 + l.0.len())->Ok_0;
            lemma_extend_trans(m0, m1, m2, l.0, rr.0);
            lemma_extend_trans(
                m0,
                m2,
                self.module@,
                l.0 + rr.0,
                seq![InstrView::BinOp { op: bin_expr.operator, left: lhs, right: rhs }],
            );
            assert(l.0 + rr.0 + seq![
                InstrView::BinOp { op: bin_expr.operator, left: lhs, right: rhs },
            ] =~= (l.0 + rr.0) + seq![
                InstrView::BinOp { op: bin_expr.operator, left: lhs, right: rhs },
            ]);
            lemma_extend_grows(
                m0,
                self.module@,
                (l.0 + rr.0) + seq![
                    InstrView::BinOp { op: bin_expr.operator, left: lhs, right: rhs },
                ],
            );
        }
        Ok(Value::Instr(at))
    }

    /// The first function of this name in the module, if any.
    fn find_named(&self, name: &Vec<char>) -> (r: Option<usize>)
        ensures
            match r {
                Some(i) => find_sig(sigs_of(self.module@), name@) == Some(i as int) && i
                    < self.module.functions.len(),
                None => find_sig(sigs_of(self.module@), name@) is None,
            },
    {
        let ghost sigs = sigs_of(self.module@);
        let mut i: usize = 0;
        while i < self.module.functions.len()
            invariant
                i <= self.module.functions.len(),
                sigs == sigs_of(self.module@),
                sigs.len() == self.module.functions.len(),
                find_sig_from(sigs, name@, 0) == find_sig_from(sigs, name@, i as int),
            decreases self.module.functions.len() - i,
        {
            if same_text(&self.module.functions[i].name, name) {
                proof {
                    assert(sigs[i as int].0 == name@);
                }
                return Some(i);
            }
            proof {
                assert(sigs[i as int].0 != name@);
            }
            i = i + 1;
        }
        None
    }

    /// Lower a call: resolve the callee by name, demand the exact
    /// argument count, lower the arguments, then the call instruction.
    #[verifier::loop_isolation(false)]
    pub fn compile_call_expr(&mut self, call_expr: &Call) -> (r: Result<Value, CompileError>)
        requires
            old(self).module.functions.len() > 0,
        ensures
            final(self).scope_manager == old(self).scope_manager,
            module_grown(old(self).module@, final(self).module@),
            match emit_call(
                sigs_of(old(self).module@),
                old(self).scope_manager@,
                *call_expr,
                old(self).module@.last().body.len() as int,
            ) {
                Ok(pr) => r == Ok::<Value, CompileError>(pr.1) && module_extended(
                    old(self).module@,
                    final(self).module@,
                    pr.0,
                ),
                Err(ev) => r is Err && r->Err_0@ == ev,
            },
        decreases *call_expr,
    {
        let ghost m0 = self.module@;
        let ghost sigs = sigs_of(m0);
        let ghost smv = self.scope_manager@;
        let ghost a0 = m0.last().body.len() as int;
        proof {
            assert(m0.last().body.subrange(0, m0.last().body.len() as int) =~= m0.last().body);
        }

        let idx = match self.find_named(&call_expr.function_name) {
            Some(i) => i,
            None => {
                return Err(CompileError::UnknownFunction(copy_chars(&call_expr.function_name)));
            },
        };
        let expected = self.module.functions[idx].param_types.len();
        if expected != call_expr.args.len() {
            return Err(CompileError::ArgumentCount(copy_chars(&call_expr.function_name)));
        }

        let mut arg_values: Vec<Value> = Vec::new();
        let mut i: usize = 0;
        let ghost mut done: Seq<InstrView> = Seq::empty();
        proof {
            assert(m0.last().body + done =~= m0.last().body);
            assert(call_expr.args@.skip(0) =~= call_expr.args@);
            let t0 = emit_args(sigs, smv, call_expr.args@, a0);
            if t0 is Ok {
                assert(done + t0->Ok_0.0 =~= t0->Ok_0.0);
                assert(arg_values@ + t0->Ok_0.1 =~= t0->Ok_0.1);
            }
        }
        while i < call_expr.args.len()
            invariant
                i <= call_expr.args.len(),
                self.module.functions.len() > 0,
                arg_values@.len() == i,
                self.scope_manager == old(self).scope_manager,
                module_extended(m0, self.module@, done),
                emit_args(sigs, smv, call_expr.args@, a0) == match emit_args(
                    sigs,
                    smv,
                    call_expr.args@.skip(i as int),
                    a0 + done.len(),
                ) {
                    Ok(rest) => Ok::<(Seq<InstrView>, Seq<Value>), CompileErrorView>(
                        (done + rest.0, arg_values@ + rest.1),
                    ),
                    Err(er) => Err(er),
                },
            decreases call_expr.args.len() - i,
        {
            let ghost mb = self.module@;
            let ghost vals0 = arg_values@;
            let ghost done0 = done;
            proof {
                lemma_extend_grows(m0, mb, done);
                lemma_grow_keeps_sigs(m0, mb);
                assert(call_expr.args@.skip(i as int)[0] == call_expr.args@[i as int]);
            }
            let v = match self.compile_expr(&call_expr.args[i]) {
                Ok(v) => v,
                Err(err) => {
                    proof {
                        lemma_extend_grows(m0, mb, done);
                        lemma_grow_trans(m0, mb, self.module@);
                    }
                    return Err(err);
                },
            };
            arg_values.push(v);
            proof {
                let e0 = emit_expr(sigs, smv, call_expr.args@[i as int], a0 + done0.len())->Ok_0;
                lemma_extend_trans(m0, mb, self.module@, done0, e0.0);
                assert(call_expr.args@.skip(i as int).drop_first() =~= call_expr.args@.skip(
                    i + 1,
                ));
                done = done0 + e0.0;
                let tail = emit_args(sigs, smv, call_expr.args@.skip(i + 1), a0 + done.len());
                if tail is Ok {
                    assert(done0 + (e0.0 + tail->Ok_0.0) =~= done + tail->Ok_0.0);
                    assert(vals0 + (seq![v] + tail->Ok_0.1) =~= arg_values@ + tail->Ok_0.1);
                }
            }
            i = i + 1;
        }
        proof {
            assert(call_expr.args@.skip(i as int) =~= Seq::<Expr>::empty());
            assert(done + Seq::<InstrView>::empty() =~= done);
            assert(arg_values@ + Seq::<Value>::empty() =~= arg_values@);
        }

        let at = self.cur_len();
        let ghost mc = self.module@;
        let call_ins = Instr::Call { callee: idx, args: arg_values };
        let ghost cv = call_ins@;
        self.push_instr(call_ins);
        proof {
            lemma_extend_trans(m0, mc, self.module@, done, seq![cv]);
            lemma_extend_grows(m0, self.module@, done + seq![cv]);
        }
        Ok(Value::Instr(at))
    }

    /// Lower an assignment: the value, then a store into the target's
    /// existing slot; assigning to an undeclared name is a fatal error.
    pub fn compile_assignment(&mut self, assign: &Assign) -> (r: Result<Value, CompileError>)
        requires
            old(self).module.functions.len() > 0,
        ensures
            final(self).scope_manager == old(self).scope_manager,
            module_grown(old(self).module@, final(self).module@),
            match emit_assign(
                sigs_of(old(self).module@),
                old(self).scope_manager@,
                *assign,
                old(self).module@.last().body.len() as int,
            ) {
                Ok(pr) => r == Ok::<Value, CompileError>(pr.1) && module_extended(
                    old(self).module@,
                    final(self).module@,
                    pr.0,
                ),
                Err(ev) => r is Err && r->Err_0@ == ev,
            },
        decreases *assign,
    {
        let ghost m0 = old(self).module@;
        let value = self.compile_expr(&assign.value)?;
        let ghost m1 = self.module@;
        match self.scope_manager.get_var(&assign.name) {
            Some(slot) => {
                self.push_instr(Instr::Store { value, slot });
                proof {
                    let v = emit_expr(
                        sigs_of(m0),
                        old(self).scope_manager@,
                        *assign.value,
                        m0.last().body.len() as int,
                    )->Ok_0;
                    lemma_extend_trans(
                        m0,
                        m1,
                        self.module@,
                        v.0,
                        seq![InstrView::Store { value, slot }],
                    );
                    lemma_extend_grows(
                        m0,
                        self.module@,
                        v.0 + seq![InstrView::Store { value, slot }],
                    );
                }
                Ok(value)
            },
            None => Err(CompileError::AssignUndeclared(copy_chars(&assign.name))),
        }
    }

    /// Lower one declaration list: for each variable a fresh slot bound
    /// in the innermost scope, then — when an initializer is given — its
    /// value and a store into the new slot.
    #[verifier::loop_isolation(false)]
    pub fn compile_var_declarations(&mut self, var_declarations: &Vec<VarDeclaration>) -> (r:
        Result<(), CompileError>)
        requires
            old(self).module.functions.len() > 0,
            old(self).scope_manager@.len() > 0,
        ensures
            final(self).scope_manager@.len() == old(self).scope_manager@.len(),
            module_grown(old(self).module@, final(self).module@),
            match emit_var_decls(
                sigs_of(old(self).module@),
                old(self).scope_manager@,
                var_declarations@,
                old(self).module@.last().body.len() as int,
            ) {
                Ok(pr) => r is Ok && module_extended(old(self).module@, final(self).module@, pr.0)
                    && final(self).scope_manager@ == pr.1,
                Err(ev) => r is Err && r->Err_0@ == ev,
            },
    {
        let ghost m0 = self.module@;
        let ghost sigs = sigs_of(m0);
        let ghost smv0 = self.scope_manager@;
        let ghost a0 = m0.last().body.len() as int;
        let ghost ds = var_declarations@;

        let mut i: usize = 0;
        let ghost mut done: Seq<InstrView> = Seq::empty();
        proof {
            assert(m0.last().body + done =~= m0.last().body);
            assert(ds.skip(0) =~= ds);
            let t0 = emit_var_decls(sigs, smv0, ds, a0);
            if t0 is Ok {
                assert(done + t0->Ok_0.0 =~= t0->Ok_0.0);
            }
        }
        while i < var_declarations.len()
            invariant
                i <= var_declarations.len(),
                self.module.functions.len() > 0,
                self.scope_manager@.len() == smv0.len(),
                module_extended(m0, self.module@, done),
                emit_var_decls(sigs, smv0, ds, a0) == match emit_var_decls(
                    sigs,
                    self.scope_manager@,
                    ds.skip(i as int),
                    a0 + done.len(),
                ) {
                    Ok(rest) => Ok::<(Seq<InstrView>, ScopesView), CompileErrorView>(
                        (done + rest.0, rest.1),
                    ),
                    Err(er) => Err(er),
                },
            decreases var_declarations.len() - i,
        {
            let ghost mb = self.module@;
            let ghost smb = self.scope_manager@;
            let ghost done0 = done;
            proof {
                lemma_extend_grows(m0, mb, done);
                lemma_grow_keeps_sigs(m0, mb);
                assert(ds.skip(i as int)[0] == ds[i as int]);
                assert(ds.skip(i as int).drop_first() =~= ds.skip(i + 1));
            }
            let d = &var_declarations[i];
            let slot = self.create_entry_block_alloca(&d.var_name);
            self.scope_manager.set_var(copy_chars(&d.var_name), slot);
            let ghost mc = self.module@;
            let ghost smc = self.scope_manager@;

            match &d.var_value {
                None => {
                    proof {
                        lemma_extend_trans(
                            m0,
                            mb,
                            mc,
                            done0,
                            seq![InstrView::Alloca { name: d.var_name@ }],
                        );
                        done = done0 + seq![InstrView::Alloca { name: d.var_name@ }];
                        let tail = emit_var_decls(sigs, smc, ds.skip(i + 1), a0 + done.len());
                        if tail is Ok {
                            assert(done0 + (seq![InstrView::Alloca { name: d.var_name@ }]
                                + tail->Ok_0.0) =~= done + tail->Ok_0.0);
                        }
                    }
                },
                Some(value_expr) => {
                    proof {
                        lemma_extend_trans(
                            m0,
                            mb,
                            mc,
                            done0,
                            seq![InstrView::Alloca { name: d.var_name@ }],
                        );
                        lemma_extend_grows(m0, mc, done0 + seq![
                            InstrView::Alloca { name: d.var_name@ },
                        ]);
                        lemma_grow_keeps_sigs(m0, mc);
                    }
                    let value = match self.compile_expr(value_expr) {
                        Ok(v) => v,
                        Err(err) => {
                            proof {
                                lemma_extend_grows(m0, mc, done0 + seq![
                                    InstrView::Alloca { name: d.var_name@ },
                                ]);
                                lemma_grow_trans(m0, mc, self.module@);
                            }
                            return Err(err);
                        },
                    };
                    let ghost md = self.module@;
                    self.push_instr(Instr::Store { value, slot });
                    proof {
                        let alloca = seq![InstrView::Alloca { name: d.var_name@ }];
                        let v = emit_expr(sigs, smc, d.var_value->0, a0 + done0.len() + 1)->Ok_0;
                        lemma_extend_trans(m0, mc, md, done0 + alloca, v.0);
                        lemma_extend_trans(
                            m0,
                            md,
                            self.module@,
                            (done0 + alloca) + v.0,
                            seq![InstrView::Store { value, slot }],
                        );
                        let ins = alloca + v.0 + seq![InstrView::Store { value, slot }];
                        assert(((done0 + alloca) + v.0) + seq![InstrView::Store { value, slot }]
                            =~= done0 + ins);
                        done = done0 + ins;
                        let tail = emit_var_decls(sigs, smc, ds.skip(i + 1), a0 + done.len());
                        if tail is Ok {
                            assert(done0 + (ins + tail->Ok_0.0) =~= done + tail->Ok_0.0);
                        }
                    }
                },
            }
            i = i + 1;
        }
        proof {
            assert(ds.skip(i as int) =~= Seq::<VarDeclaration>::empty());
            assert(done + Seq::<InstrView>::empty() =~= done);
            lemma_extend_grows(m0, self.module@, done);
        }
        Ok(())
    }

    /// Lower an expression statement: the expression for its side
    /// effect, its value discarded.
    pub fn compile_expr_statement(&mut self, expr: &Expr) -> (r: Result<(), CompileError>)
        requires
            old(self).module.functions.len() > 0,
        ensures
            final(self).scope_manager == old(self).scope_manager,
            module_grown(old(self).module@, final(self).module@),
            match emit_expr(
                sigs_of(old(self).module@),
                old(self).scope_manager@,
                *expr,
                old(self).module@.last().body.len() as int,
            ) {
                Ok(pr) => r is Ok && module_extended(
                    old(self).module@,
                    final(self).module@,
                    pr.0,
                ),
                Err(ev) => r is Err && r->Err_0@ == ev,
            },
    {
        let _ = self.compile_expr(expr)?;
        Ok(())
    }

    /// Lower a return statement: the returned value when one is given,
    /// then the return instruction.
    pub fn compile_ret_statement(&mut self, ret_value: &Option<Expr>) -> (r: Result<
        (),
        CompileError,
    >)
        requires
            old(self).module.functions.len() > 0,
        ensures
            final(self).scope_manager == old(self).scope_manager,
            module_grown(old(self).module@, final(self).module@),
            match *ret_value {
                Some(e) => match emit_expr(
                    sigs_of(old(self).module@),
                    old(self).scope_manager@,
                    e,
                    old(self).module@.last().body.len() as int,
                ) {
                    Ok(pr) => r is Ok && module_extended(
                        old(self).module@,
                        final(self).module@,
                        pr.0 + seq![InstrView::Ret { value: Some(pr.1) }],
                    ),
                    Err(ev) => r is Err && r->Err_0@ == ev,
                },
                None => r is Ok && module_extended(
                    old(self).module@,
                    final(self).module@,
                    seq![InstrView::Ret { value: None }],
                ),
            },
    {
        let ghost m0 = old(self).module@;
        match ret_value {
            Some(e) => {
                let v = self.compile_expr(e)?;
                let ghost m1 = self.module@;
                self.push_instr(Instr::Ret { value: Some(v) });
                proof {
                    let pr = emit_expr(
                        sigs_of(m0),
                        old(self).scope_manager@,
                        *e,
                        m0.last().body.len() as int,
                    )->Ok_0;
                    lemma_extend_trans(
                        m0,
                        m1,
                        self.module@,
                        pr.0,
                        seq![InstrView::Ret { value: Some(v) }],
                    );
                    lemma_extend_grows(
                        m0,
                        self.module@,
                        pr.0 + seq![InstrView::Ret { value: Some(v) }],
                    );
                }
                Ok(())
            },
            None => {
                self.push_instr(Instr::Ret { value: None });
                proof {
                    lemma_extend_grows(m0, self.module@, seq![InstrView::Ret { value: None }]);
                }
                Ok(())
            },
        }
    }

    /// Lowering a while loop is not implemented: raise a clear error
    /// rather than guess control-flow semantics.
    pub fn compile_while_loop(&self, while_loop: &crate::compiler::ast::WhileLoop) -> (r: Result<
        (),
        CompileError,
    >)
        ensures
            r is Err,
            r->Err_0@ == CompileErrorView::WhileNotImplemented,
    {
        Err(CompileError::WhileNotImplemented)
    }

    /// Lower one statement in order against the current scopes.
    pub fn compile_statement(&mut self, statement: &Statement) -> (r: Result<(), CompileError>)
        requires
            old(self).module.functions.len() > 0,
            old(self).scope_manager@.len() > 0,
        ensures
            final(self).scope_manager@.len() == old(self).scope_manager@.len(),
            module_grown(old(self).module@, final(self).module@),
            match emit_stmt(
                sigs_of(old(self).module@),
                old(self).scope_manager@,
                *statement,
                old(self).module@.last().body.len() as int,
            ) {
                Ok(pr) => r is Ok && module_extended(old(self).module@, final(self).module@, pr.0)
                    && final(self).scope_manager@ == pr.1,
                Err(ev) => r is Err && r->Err_0@ == ev,
            },
    {
        proof {
            assert(old(self).module@.last().body.subrange(
                0,
                old(self).module@.last().body.len() as int,
            ) =~= old(self).module@.last().body);
        }
        match statement {
            Statement::VarDeclarations(v) => self.compile_var_declarations(v),
            Statement::WhileLoop(w) => self.compile_while_loop(w),
            Statement::Expr(e) => self.compile_expr_statement(e),
            Statement::Return(rv) => self.compile_ret_statement(rv),
        }
    }

    /// Generate one function: demand a fresh name, add its signature with
    /// the requested linkage, bind each incoming parameter to a fresh
    /// stack slot in a new scope frame, lower the body's statements in
    /// order, and append an implicit void return only when the body does
    /// not already end in an explicit return. The frame is popped again
    /// whatever happens.
    #[verifier::loop_isolation(false)]
    #[verifier::rlimit(80)]
    pub fn compile_func_def(&mut self, func_def: &FuncDef) -> (r: Result<(), CompileError>)
        requires
            old(self).scope_manager@.len() == 0,
        ensures
            final(self).scope_manager@.len() == 0,
            match emit_func_def(old(self).module@, *func_def) {
                Ok(fv) => r is Ok && final(self).module@ == old(self).module@.push(fv),
                Err(ev) => r is Err && r->Err_0@ == ev && final(self).module@ == old(
                    self,
                ).module@,
            },
    {
        let ghost m0 = self.module@;
        if let Some(_) = self.find_named(&func_def.name) {
            return Err(CompileError::Redefinition(copy_chars(&func_def.name)));
        }

        let mut param_types: Vec<Type> = Vec::new();
        let mut param_names: Vec<Vec<char>> = Vec::new();
        let mut i: usize = 0;
        while i < func_def.params.len()
            invariant
                i <= func_def.params.len(),
                param_types@.len() == i,
                param_names@.len() == i,
                forall|j: int| 0 <= j < i ==> param_types@[j] == func_def.params@[j].param_type,
                forall|j: int|
                    0 <= j < i ==> (#[trigger] param_names@[j])@ == func_def.params@[
                        j
                    ].param_name@,
            decreases func_def.params.len() - i,
        {
            param_types.push(func_def.params[i].param_type);
            param_names.push(copy_chars(&func_def.params[i].param_name));
            i = i + 1;
        }

        let f = IrFunction {
            name: copy_chars(&func_def.name),
            param_types,
            param_names,
            return_type: func_def.return_type,
            is_public: func_def.is_public,
            body: Vec::new(),
        };
        let ghost header = f@;
        self.module.functions.push(f);
        let ghost mpush = self.module@;
        proof {
            assert(mpush =~= m0.push(header));
            assert(header =~~= IrFunctionView {
                name: func_def.name@,
                param_types: Seq::new(
                    func_def.params@.len(),
                    |j: int| func_def.params@[j].param_type,
                ),
                param_names: Seq::new(
                    func_def.params@.len(),
                    |j: int| func_def.params@[j].param_name@,
                ),
                return_type: func_def.return_type,
                is_public: func_def.is_public,
                body: Seq::empty(),
            });
        }
        let ghost sigs = sigs_of(mpush);

        self.scope_manager.enter_scope();
        proof {
            assert(self.scope_manager@ =~= seq![Seq::<(Seq<char>, usize)>::empty()]);
            assert(param_frame(func_def.params@).subrange(0, 0)
                =~= Seq::<(Seq<char>, usize)>::empty());
        }

        let mut k: usize = 0;
        let ghost mut done: Seq<InstrView> = Seq::empty();
        proof {
            assert(mpush.last().body + done =~= mpush.last().body);
            assert(done + param_prologue(func_def.params@, 0) =~= param_prologue(
                func_def.params@,
                0,
            ));
        }
        while k < func_def.params.len()
            invariant
                k <= func_def.params.len(),
                self.module.functions.len() > 0,
                module_extended(mpush, self.module@, done),
                done.len() == 2 * k,
                done + param_prologue(func_def.params@, k as int) == param_prologue(
                    func_def.params@,
                    0,
                ),
                self.scope_manager@ == seq![param_frame(func_def.params@).subrange(0, k as int)],
            decreases func_def.params.len() - k,
        {
            let ghost mb = self.module@;
            let ghost done0 = done;
            let p = &func_def.params[k];
            let slot = self.create_entry_block_alloca(&p.param_name);
            let ghost mc = self.module@;
            self.push_instr(Instr::Store { value: Value::Param(k), slot });
            self.scope_manager.set_var(copy_chars(&p.param_name), slot);
            proof {
                let a = InstrView::Alloca { name: p.param_name@ };
                let st = InstrView::Store { value: Value::Param(k as usize), slot: slot };
                lemma_extend_trans(mpush, mb, mc, done0, seq![a]);
                lemma_extend_trans(mpush, mc, self.module@, done0 + seq![a], seq![st]);
                assert((done0 + seq![a]) + seq![st] =~= done0 + seq![a, st]);
                done = done0 + seq![a, st];
                assert(param_prologue(func_def.params@, k as int) == seq![a, st]
                    + param_prologue(func_def.params@, k + 1));
                assert(done0 + (seq![a, st] + param_prologue(func_def.params@, k + 1)) =~= done
                    + param_prologue(func_def.params@, k + 1));
                assert(param_frame(func_def.params@).subrange(0, k as int).push(
                    (p.param_name@, slot),
                ) =~= param_frame(func_def.params@).subrange(0, k + 1));
                assert(seq![param_frame(func_def.params@).subrange(0, k as int)].update(
                    0,
                    param_frame(func_def.params@).subrange(0, k as int).push(
                        (p.param_name@, slot),
                    ),
                ) =~= seq![param_frame(func_def.params@).subrange(0, k + 1)]);
            }
            k = k + 1;
        }
        proof {
            assert(done + param_prologue(func_def.params@, k as int) =~= done);
            assert(param_frame(func_def.params@).subrange(0, k as int) =~= param_frame(
                func_def.params@,
            ));
        }
        let ghost mpro = self.module@;
        let ghost scopes0 = seq![param_frame(func_def.params@)];
        let ghost pstart = 2 * func_def.params@.len() as int;
        proof {
            lemma_extend_grows(mpush, mpro, done);
        }

        let mut s: usize = 0;
        let ghost mut sdone: Seq<InstrView> = Seq::empty();
        proof {
            assert(mpro.last().body + sdone =~= mpro.last().body);
            assert(func_def.body@.skip(0) =~= func_def.body@);
            let t0 = emit_stmts(sigs, scopes0, func_def.body@, pstart);
            if t0 is Ok {
                assert(sdone + t0->Ok_0.0 =~= t0->Ok_0.0);
            }
        }
        while s < func_def.body.len()
            invariant
                s <= func_def.body.len(),
                self.module.functions.len() > 0,
                self.scope_manager@.len() == 1,
                module_extended(mpro, self.module@, sdone),
                emit_stmts(sigs, scopes0, func_def.body@, pstart) == match emit_stmts(
                    sigs,
                    self.scope_manager@,
                    func_def.body@.skip(s as int),
                    pstart + sdone.len(),
                ) {
                    Ok(rest) => Ok::<(Seq<InstrView>, ScopesView), CompileErrorView>(
                        (sdone + rest.0, rest.1),
                    ),
                    Err(er) => Err(er),
                },
            decreases func_def.body.len() - s,
        {
            let ghost mb = self.module@;
            let ghost smb = self.scope_manager@;
            let ghost sdone0 = sdone;
            proof {
                lemma_extend_grows(mpro, mb, sdone);
                lemma_grow_trans(mpush, mpro, mb);
                lemma_grow_keeps_sigs(mpush, mb);
                assert(func_def.body@.skip(s as int)[0] == func_def.body@[s as int]);
                assert(func_def.body@.skip(s as int).drop_first() =~= func_def.body@.skip(s + 1));
            }
            match self.compile_statement(&func_def.body[s]) {
                Ok(u) => {
                    proof {
                        let first = emit_stmt(
                            sigs,
                            smb,
                            func_def.body@[s as int],
                            pstart + sdone0.len(),
                        )->Ok_0;
                        lemma_extend_trans(mpro, mb, self.module@, sdone0, first.0);
                        sdone = sdone0 + first.0;
                        let tail = emit_stmts(
                            sigs,
                            self.scope_manager@,
                            func_def.body@.skip(s + 1),
                            pstart + sdone.len(),
                        );
                        if tail is Ok {
                            assert(sdone0 + (first.0 + tail->Ok_0.0) =~= sdone + tail->Ok_0.0);
                        }
                    }
                },
                Err(err) => {
                    let ghost merr = self.module@;
                    let _ = self.module.functions.pop();
                    self.scope_manager.exit_scope();
                    proof {
                        lemma_grow_trans(mpush, mb, merr);
                        assert(self.module@ =~= merr.drop_last());
                        assert(self.module@ =~~= m0);
                    }
                    return Err(err);
                },
            }
            s = s + 1;
        }
        proof {
            assert(func_def.body@.skip(s as int) =~= Seq::<Statement>::empty());
            assert(sdone + Seq::<InstrView>::empty() =~= sdone);
        }

        let explicit: bool = if func_def.body.len() == 0 {
            false
        } else {
            match &func_def.body[func_def.body.len() - 1] {
                Statement::Return(_) => true,
                _ => false,
            }
        };
        if !explicit {
            self.push_instr(Instr::Ret { value: None });
        }
        self.scope_manager.exit_scope();
        proof {
            let fv = emit_func_def(m0, *func_def)->Ok_0;
            if explicit {
                assert(self.module@.last().body =~= done + sdone);
            } else {
                assert(self.module@.last().body =~= (done + sdone) + seq![
                    InstrView::Ret { value: None },
                ]);
                assert((done + sdone) + seq![InstrView::Ret { value: None }] =~= done + (sdone
                    + seq![InstrView::Ret { value: None }]));
            }
            assert(done + sdone + seq![InstrView::Ret { value: None }] =~= done + (sdone + seq![
                InstrView::Ret { value: None },
            ]));
            assert(self.module@ =~~= m0.push(fv));
        }
        Ok(())
    }

    /// Compile a whole program: generate each function definition in
    /// order; the first semantic error aborts the compilation.
    #[verifier::loop_isolation(false)]
    pub fn compile(&mut self, program: &Program) -> (r: Result<(), CompileError>)
        requires
            old(self).scope_manager@.len() == 0,
        ensures
            final(self).scope_manager@.len() == 0,
            match emit_program(old(self).module@, program.func_defs@) {
                Ok(funcs) => r is Ok && final(self).module@ == funcs,
                Err(ev) => r is Err && r->Err_0@ == ev,
            },
    {
        let ghost m0 = self.module@;
        let ghost fds = program.func_defs@;
        let mut i: usize = 0;
        proof {
            assert(fds.skip(0) =~= fds);
        }
        while i < program.func_defs.len()
            invariant
                i <= program.func_defs.len(),
                self.scope_manager@.len() == 0,
                fds == program.func_defs@,
                emit_program(m0, fds) == emit_program(self.module@, fds.skip(i as int)),
            decreases program.func_defs.len() - i,
        {
            proof {
                assert(fds.skip(i as int)[0] == fds[i as int]);
                assert(fds.skip(i as int).drop_first() =~= fds.skip(i + 1));
            }
            match self.compile_func_def(&program.func_defs[i]) {
                Ok(u) => {},
                Err(err) => {
                    return Err(err);
                },
            }
            i = i + 1;
        }
        proof {
            assert(fds.skip(i as int) =~= Seq::<FuncDef>::empty());
        }
        Ok(())
    }
}

/// A successfully emitted statement list whose last statement is a
/// return produces instructions ending in a return instruction.
proof fn lemma_stmts_end_in_ret(
    sigs: Seq<(Seq<char>, int)>,
    scopes: ScopesView,
    ss: Seq<Statement>,
    at: int,
)
    requires
        ss.len() > 0,
        ss.last() is Return,
        emit_stmts(sigs, scopes, ss, at) is Ok,
    ensures
        emit_stmts(sigs, scopes, ss, at)->Ok_0.0.len() > 0,
        emit_stmts(sigs, scopes, ss, at)->Ok_0.0.last() is Ret,
    decreases ss.len(),
{
    let first = emit_stmt(sigs, scopes, ss[0], at)->Ok_0;
    if ss.len() == 1 {
        assert(ss[0] == ss.last());
        assert(ss.drop_first() =~= Seq::<Statement>::empty());
    } else {
        assert(ss.drop_first().last() == ss.last());
        lemma_stmts_end_in_ret(sigs, first.1, ss.drop_first(), at + first.0.len());
    }
}

/// Law: a function whose body's last statement is an explicit return
/// gets no implicit void return — its instructions are exactly the
/// parameter prologue and its statements' instructions, which already
/// end in a return; a function whose body is empty or ends otherwise
/// gets one synthesized void return appended.
pub proof fn lemma_implicit_return(funcs: Seq<IrFunctionView>, f: FuncDef)
    requires
        emit_func_def(funcs, f) is Ok,
    ensures
        ({
            let fv = emit_func_def(funcs, f)->Ok_0;
            let header = IrFunctionView {
                name: f.name@,
                param_types: Seq::new(f.params@.len(), |i: int| f.params@[i].param_type),
                param_names: Seq::new(f.params@.len(), |i: int| f.params@[i].param_name@),
                return_type: f.return_type,
                is_public: f.is_public,
                body: Seq::empty(),
            };
            let stmts_ins = emit_stmts(
                sigs_of(funcs.push(header)),
                seq![param_frame(f.params@)],
                f.body@,
                2 * f.params@.len() as int,
            )->Ok_0.0;
            &&& (f.body@.len() > 0 && f.body@.last() is Return) ==> fv.body == param_prologue(
                f.params@,
                0,
            ) + stmts_ins && fv.body.len() > 0 && fv.body.last() is Ret
            &&& !(f.body@.len() > 0 && f.body@.last() is Return) ==> fv.body == param_prologue(
                f.params@,
                0,
            ) + stmts_ins + seq![InstrView::Ret { value: None }] && fv.body.last()
                == InstrView::Ret { value: None }
        }),
{
    let header = IrFunctionView {
        name: f.name@,
        param_types: Seq::new(f.params@.len(), |i: int| f.params@[i].param_type),
        param_names: Seq::new(f.params@.len(), |i: int| f.params@[i].param_name@),
        return_type: f.return_type,
        is_public: f.is_public,
        body: Seq::empty(),
    };
    let sigs = sigs_of(funcs.push(header));
    let scopes0 = seq![param_frame(f.params@)];
    let pstart = 2 * f.params@.len() as int;
    if f.body@.len() > 0 && f.body@.last() is Return {
        lemma_stmts_end_in_ret(sigs, scopes0, f.body@, pstart);
    }
}

/// A name found among the signatures is still found after another
/// function is appended.
proof fn lemma_find_sig_push(sigs: Seq<(Seq<char>, int)>, name: Seq<char>, x: (Seq<char>, int), i: int)
    requires
        0 <= i,
        find_sig_from(sigs, name, i) is Some,
    ensures
        find_sig_from(sigs.push(x), name, i) is Some,
    decreases sigs.len() - i,
{
    if i < sigs.len() && sigs[i].0 != name {
        lemma_find_sig_push(sigs, name, x, i + 1);
    }
}

/// A just-appended name is found among the signatures.
proof fn lemma_find_sig_last(sigs: Seq<(Seq<char>, int)>, name: Seq<char>, c: int, i: int)
    requires
        0 <= i <= sigs.len(),
    ensures
        find_sig_from(sigs.push((name, c)), name, i) is Some,
    decreases sigs.len() - i,
{
    if i < sigs.len() && sigs[i].0 != name {
        lemma_find_sig_last(sigs, name, c, i + 1);
    }
}

/// A program with a later function whose name the module already knows
/// never compiles.
proof fn lemma_known_name_rejected(funcs: Seq<IrFunctionView>, fds: Seq<FuncDef>, j: int)
    requires
        0 <= j < fds.len(),
        find_sig(sigs_of(funcs), fds[j].name@) is Some,
    ensures
        emit_program(funcs, fds) is Err,
    decreases j,
{
    match emit_func_def(funcs, fds[0]) {
        Ok(fv) => {
            if j == 0 {
                assert(false);
            } else {
                let header_types = Seq::new(
                    fds[0].params@.len(),
                    |i: int| fds[0].params@[i].param_type,
                );
                assert(fv.name == fds[0].name@ && fv.param_types == header_types);
                assert(sigs_of(funcs.push(fv)) =~= sigs_of(funcs).push(
                    (fv.name, fv.param_types.len() as int),
                ));
                lemma_find_sig_push(
                    sigs_of(funcs),
                    fds[j].name@,
                    (fv.name, fv.param_types.len() as int),
                    0,
                );
                assert(fds.drop_first()[j - 1] == fds[j]);
                lemma_known_name_rejected(funcs.push(fv), fds.drop_first(), j - 1);
            }
        },
        Err(_) => {},
    }
}

/// Law: two function definitions of the same name in one program raise a
/// semantic error — the second one is a redefinition.
pub proof fn lemma_redefinition_rejected(funcs: Seq<IrFunctionView>, fds: Seq<FuncDef>, i: int, j: int)
    requires
        0 <= i < j < fds.len(),
        fds[i].name@ == fds[j].name@,
    ensures
        emit_program(funcs, fds) is Err,
    decreases i,
{
    match emit_func_def(funcs, fds[0]) {
        Ok(fv) => {
            let sig = (fv.name, fv.param_types.len() as int);
            assert(sigs_of(funcs.push(fv)) =~= sigs_of(funcs).push(sig));
            assert(fds.drop_first()[j - 1] == fds[j]);
            if i == 0 {
                assert(fv.name == fds[0].name@);
                lemma_find_sig_last(sigs_of(funcs), fv.name, sig.1, 0);
                lemma_known_name_rejected(funcs.push(fv), fds.drop_first(), j - 1);
            } else {
                assert(fds.drop_first()[i - 1] == fds[i]);
                lemma_redefinition_rejected(funcs.push(fv), fds.drop_first(), i - 1, j - 1);
            }
        },
        Err(_) => {},
    }
}

/// Law: calling a known function with the wrong number of arguments is
/// exactly the argument-count error.
pub proof fn lemma_call_arity_rejected(
    sigs: Seq<(Seq<char>, int)>,
    scopes: ScopesView,
    c: Call,
    at: int,
)
    requires
        find_sig(sigs, c.function_name@) is Some,
        sigs[find_sig(sigs, c.function_name@)->0].1 != c.args@.len(),
    ensures
        emit_call(sigs, scopes, c, at) == Err::<(Seq<InstrView>, Value), CompileErrorView>(
            CompileErrorView::ArgumentCount(c.function_name@),
        ),
{
}

/// Law: assignment never declares. Assigning to a name no active scope
/// frame binds emits nothing and is an error; when the value itself is
/// sound, it is exactly the undeclared-assignment error.
pub proof fn lemma_assign_never_declares(
    sigs: Seq<(Seq<char>, int)>,
    scopes: ScopesView,
    a: Assign,
    at: int,
)
    requires
        scopes_lookup(scopes, a.name@) is None,
    ensures
        emit_assign(sigs, scopes, a, at) is Err,
        emit_expr(sigs, scopes, *a.value, at) is Ok ==> emit_assign(sigs, scopes, a, at)
            == Err::<(Seq<InstrView>, Value), CompileErrorView>(
            CompileErrorView::AssignUndeclared(a.name@),
        ),
{
}

} // verus!
