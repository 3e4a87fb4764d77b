use flick::compiler::ast as gen_ast;
use flick::compiler::compiler::{CompileError, Compiler};
use flick::compiler::ir::{Instr, Value};
use flick::compiler::lower::{lower_program, lower_statement};
use flick::compiler::scope_manager::ScopeManager;
use flick::parser::Parser;
use flick::token::Lexer;

fn cs(s: &str) -> Vec<char> {
    s.chars().collect()
}

fn build(source: &str) -> (Compiler, Result<(), CompileError>) {
    let tokens = Lexer::new(cs(source)).tokenize().unwrap();
    let mut parser = Parser::new(tokens);
    let program = parser.parse_program().unwrap();
    let lowered = lower_program(&program).unwrap();
    let mut compiler = Compiler::new();
    let result = compiler.compile(&lowered);
    (compiler, result)
}

#[test]
fn redefining_a_function_is_an_error() {
    let (_, result) = build("fn twice() {}\nfn twice() {}");
    assert_eq!(result, Err(CompileError::Redefinition(cs("twice"))));
}

#[test]
fn wrong_argument_count_is_an_error() {
    let source = "fn f(i64 a) i64 {\nret a\n}\nfn main() {\nf(1, 2)\n}";
    let (_, result) = build(source);
    assert_eq!(result, Err(CompileError::ArgumentCount(cs("f"))));
}

#[test]
fn assigning_to_an_undeclared_name_is_an_error() {
    let (_, result) = build("fn main() {\nx = 5\n}");
    assert_eq!(result, Err(CompileError::AssignUndeclared(cs("x"))));
}

#[test]
fn undefined_identifier_is_an_error() {
    let (_, result) = build("fn main() {\nret y\n}");
    assert_eq!(result, Err(CompileError::UndefinedIdentifier(cs("y"))));
}

#[test]
fn unknown_function_is_an_error() {
    let (_, result) = build("fn main() {\ng()\n}");
    assert_eq!(result, Err(CompileError::UnknownFunction(cs("g"))));
}

#[test]
fn while_lowering_is_not_implemented() {
    let (_, result) = build("fn main() {\nwhile 1 < 2 {}\n}");
    assert_eq!(result, Err(CompileError::WhileNotImplemented));
}

#[test]
fn explicit_return_gets_no_implicit_void_return() {
    let (compiler, result) = build("fn f() i64 {\nret 5\n}");
    assert_eq!(result, Ok(()));
    let body = &compiler.module.functions[0].body;
    let rets = body.iter().filter(|i| matches!(i, Instr::Ret { .. })).count();
    assert_eq!(rets, 1);
    assert_eq!(body.last(), Some(&Instr::Ret { value: Some(Value::ConstI64(5)) }));
}

#[test]
fn other_endings_get_an_implicit_void_return() {
    let (compiler, result) = build("fn g() {\n1 + 2\n}");
    assert_eq!(result, Ok(()));
    let body = &compiler.module.functions[0].body;
    assert_eq!(body.last(), Some(&Instr::Ret { value: None }));

    let (compiler2, result2) = build("fn empty() {}");
    assert_eq!(result2, Ok(()));
    assert_eq!(compiler2.module.functions[0].body, vec![Instr::Ret { value: None }]);
}

#[test]
fn parameters_become_mutable_locals() {
    let (compiler, result) = build("fn inc(i64 a) i64 {\na = a + 1\nret a\n}");
    assert_eq!(result, Ok(()));
    let f = &compiler.module.functions[0];
    assert_eq!(f.param_types.len(), 1);
    assert!(f.is_public);
    assert_eq!(f.body[0], Instr::Alloca { name: cs("a") });
    assert_eq!(f.body[1], Instr::Store { value: Value::Param(0), slot: 0 });
}

#[test]
fn recursion_and_declared_calls_resolve() {
    let source = "fn f(i64 a) i64 {\nret f(a - 1)\n}";
    let (compiler, result) = build(source);
    assert_eq!(result, Ok(()));
    let f = &compiler.module.functions[0];
    assert!(f.body.iter().any(|i| matches!(i, Instr::Call { callee: 0, .. })));
}

#[test]
fn declaration_initializer_is_stored() {
    let (compiler, result) = build("fn main() {\ni64 x = 7\nret x\n}");
    assert_eq!(result, Ok(()));
    let body = &compiler.module.functions[0].body;
    assert_eq!(body[0], Instr::Alloca { name: cs("x") });
    assert_eq!(body[1], Instr::Store { value: Value::ConstI64(7), slot: 0 });
    assert_eq!(body[2], Instr::Load { slot: 0 });
    assert_eq!(body[3], Instr::Ret { value: Some(Value::Instr(2)) });
}

#[test]
fn compound_assignment_desugars_to_assignment_of_a_binary() {
    let tokens = Lexer::new(cs("x += 5")).tokenize().unwrap();
    let mut parser = Parser::new(tokens);
    let st = parser.parse_statement().unwrap().unwrap();
    let lowered = lower_statement(&st).unwrap();
    let expected = gen_ast::Statement::Expr(gen_ast::Expr::Assign(gen_ast::Assign {
        name: cs("x"),
        value: Box::new(gen_ast::Expr::Binary(gen_ast::Binary {
            left: Box::new(gen_ast::Expr::Identifier(cs("x"))),
            operator: gen_ast::BinaryOperator::Add,
            right: Box::new(gen_ast::Expr::I64Literal(5)),
        })),
    }));
    assert_eq!(lowered, expected);
}

#[test]
fn scope_lookup_is_innermost_first() {
    let mut sm = ScopeManager::new();
    sm.enter_scope();
    sm.set_var(cs("a"), 0);
    sm.set_var(cs("b"), 1);
    sm.enter_scope();
    sm.set_var(cs("a"), 2);
    assert_eq!(sm.get_var(&cs("a")), Some(2));
    assert_eq!(sm.get_var(&cs("b")), Some(1));
    sm.exit_scope();
    assert_eq!(sm.get_var(&cs("a")), Some(0));
    assert_eq!(sm.get_var(&cs("c")), None);
}

#[test]
fn generated_program_lists_functions_in_order() {
    let (compiler, result) = build("fn one() {}\nfn two() {}\nfn three() {}");
    assert_eq!(result, Ok(()));
    let names: Vec<Vec<char>> =
        compiler.module.functions.iter().map(|f| f.name.clone()).collect();
    assert_eq!(names, vec![cs("one"), cs("two"), cs("three")]);
}

#[test]
fn bare_return_compiles_to_return_void_with_no_extra_return() {
    let (compiler, result) = build("fn f() {\nret\n}");
    assert_eq!(result, Ok(()));
    assert_eq!(compiler.module.functions[0].body, vec![Instr::Ret { value: None }]);
}
