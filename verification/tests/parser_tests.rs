use flick::ast::{
    BinExpr, BinaryOperator, CallExpr, Expr, FuncDef, FuncParam, Program, Statement,
    VarDeclaration, WhileLoop,
};
use flick::parser::Parser;
use flick::token::{Lexer, Type};

fn cs(s: &str) -> Vec<char> {
    s.chars().collect()
}

fn parser_for(source: &str) -> Parser {
    let tokens = Lexer::new(cs(source)).tokenize().unwrap();
    Parser::new(tokens)
}

#[test]
fn var_declaration() {
    let source_code = "i64 N = 5";
    let expected = Some(Statement::VarDeclaration(VarDeclaration {
        var_name: cs("N"),
        var_type: Type::I64,
        var_value: Expr::I64Literal(5),
    }));

    let mut parser = parser_for(source_code);
    let ast = parser.parse_statement().unwrap();
    assert_eq!(expected, ast);
}

#[test]
fn var_modification() {
    let source_code = "num = a = 10";
    let expected = Some(Statement::ExprStatement(Expr::BinExpr(BinExpr {
        left: Box::new(Expr::Identifier(cs("num"))),
        operator: BinaryOperator::Assign,
        right: Box::new(Expr::BinExpr(BinExpr {
            left: Box::new(Expr::Identifier(cs("a"))),
            operator: BinaryOperator::Assign,
            right: Box::new(Expr::I64Literal(10)),
        })),
    })));

    let mut parser = parser_for(source_code);
    let ast = parser.parse_statement().unwrap();
    assert_eq!(expected, ast);
}

#[test]
fn empty_while_loop() {
    let source_code = "while i <= N {}";
    let expected = Some(Statement::WhileLoop(WhileLoop {
        condition: Expr::BinExpr(BinExpr {
            left: Box::new(Expr::Identifier(cs("i"))),
            operator: BinaryOperator::LessOrEqualTo,
            right: Box::new(Expr::Identifier(cs("N"))),
        }),
        body: vec![],
    }));

    let mut parser = parser_for(source_code);
    let ast = parser.parse_statement().unwrap();
    assert_eq!(expected, ast);
}

#[test]
fn order_of_operations() {
    let source_code = "10 + 3 * 8 / 4 - 13 + 5";
    let expected = Some(Statement::ExprStatement(Expr::BinExpr(BinExpr {
        left: Box::new(Expr::BinExpr(BinExpr {
            left: Box::new(Expr::BinExpr(BinExpr {
                left: Box::new(Expr::I64Literal(10)),
                operator: BinaryOperator::Add,
                right: Box::new(Expr::BinExpr(BinExpr {
                    left: Box::new(Expr::BinExpr(BinExpr {
                        left: Box::new(Expr::I64Literal(3)),
                        operator: BinaryOperator::Multiply,
                        right: Box::new(Expr::I64Literal(8)),
                    })),
                    operator: BinaryOperator::Divide,
                    right: Box::new(Expr::I64Literal(4)),
                })),
            })),
            operator: BinaryOperator::Subtract,
            right: Box::new(Expr::I64Literal(13)),
        })),
        operator: BinaryOperator::Add,
        right: Box::new(Expr::I64Literal(5)),
    })));

    let mut parser = parser_for(source_code);
    let ast = parser.parse_statement().unwrap();
    assert_eq!(expected, ast);
}

#[test]
fn parenthetical_expression() {
    let source_code = "9*(2+3)";
    let expected = Some(Statement::ExprStatement(Expr::BinExpr(BinExpr {
        left: Box::new(Expr::I64Literal(9)),
        operator: BinaryOperator::Multiply,
        right: Box::new(Expr::BinExpr(BinExpr {
            left: Box::new(Expr::I64Literal(2)),
            operator: BinaryOperator::Add,
            right: Box::new(Expr::I64Literal(3)),
        })),
    })));

    let mut parser = parser_for(source_code);
    let ast = parser.parse_statement().unwrap();
    assert_eq!(expected, ast);
}

#[test]
fn spacing() {
    let source_code = "\n\n\n\t\t\ta\n\n";
    let expected = Some(Statement::ExprStatement(Expr::Identifier(cs("a"))));

    let mut parser = parser_for(source_code);
    let ast = parser.parse_statement().unwrap();
    assert_eq!(expected, ast);
}

#[test]
fn function_call() {
    let source_code = "print(f(1)(2), 10, 20)";
    let expected = Some(Statement::ExprStatement(Expr::CallExpr(CallExpr {
        function_name: Box::new(Expr::Identifier(cs("print"))),
        args: vec![
            Expr::CallExpr(CallExpr {
                function_name: Box::new(Expr::CallExpr(CallExpr {
                    function_name: Box::new(Expr::Identifier(cs("f"))),
                    args: vec![Expr::I64Literal(1)],
                })),
                args: vec![Expr::I64Literal(2)],
            }),
            Expr::I64Literal(10),
            Expr::I64Literal(20),
        ],
    })));

    let mut parser = parser_for(source_code);
    let ast = parser.parse_statement().unwrap();
    assert_eq!(expected, ast);
}

#[test]
fn function_definition() {
    let source_code = "fn test(i64 a) i64 {}";
    let expected = Program {
        func_defs: vec![FuncDef {
            name: cs("test"),
            params: vec![FuncParam { param_type: Type::I64, param_name: cs("a") }],
            return_type: Type::I64,
            body: vec![],
        }],
    };

    let mut parser = parser_for(source_code);
    let ast = parser.parse_program().unwrap();
    assert_eq!(expected, ast);
}

#[test]
fn return_statement() {
    let source_code = "ret x + 5";
    let expected = Some(Statement::ReturnStatement(Some(Expr::BinExpr(BinExpr {
        left: Box::new(Expr::Identifier(cs("x"))),
        operator: BinaryOperator::Add,
        right: Box::new(Expr::I64Literal(5)),
    }))));

    let mut parser = parser_for(source_code);
    let ast = parser.parse_statement().unwrap();
    assert_eq!(expected, ast);
}

#[test]
fn compound_assignment_parses_to_compound_operator() {
    let source_code = "x += 5";
    let expected = Some(Statement::ExprStatement(Expr::BinExpr(BinExpr {
        left: Box::new(Expr::Identifier(cs("x"))),
        operator: BinaryOperator::PlusEq,
        right: Box::new(Expr::I64Literal(5)),
    })));

    let mut parser = parser_for(source_code);
    let ast = parser.parse_statement().unwrap();
    assert_eq!(expected, ast);
}

#[test]
fn chained_comparison_is_fatal() {
    let mut parser = parser_for("1 < 2 < 3");
    assert!(parser.parse_statement().is_err());
}

#[test]
fn void_function_definition() {
    let source_code = "fn run() {}";
    let expected = Program {
        func_defs: vec![FuncDef {
            name: cs("run"),
            params: vec![],
            return_type: Type::Void,
            body: vec![],
        }],
    };

    let mut parser = parser_for(source_code);
    let ast = parser.parse_program().unwrap();
    assert_eq!(expected, ast);
}

#[test]
fn nested_function_definitions_are_fatal() {
    let mut parser = parser_for("fn outer() {\nfn inner() {}\n}");
    assert!(parser.parse_program().is_err());
}

#[test]
fn indexing_is_not_implemented() {
    let mut parser = parser_for("f[3]");
    assert!(parser.parse_statement().is_err());
}

#[test]
fn bare_return_is_return_void() {
    let mut parser = parser_for("ret");
    assert_eq!(parser.parse_statement().unwrap(), Some(Statement::ReturnStatement(None)));

    let mut parser2 = parser_for("ret\n");
    assert_eq!(parser2.parse_statement().unwrap(), Some(Statement::ReturnStatement(None)));
}
