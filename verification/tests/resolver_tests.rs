use std::rc::Rc;

use rlox::ast::{BinaryExpr, CallExpr, Expr, FunctionDecl, LiteralExpr, Program, Statement};
use rlox::parser;
use rlox::resolver::Resolver;
use rlox::scanner::{self, Token, TokenType};

/// For each token, the value of its text if it is a number literal.
fn numbers(tokens: &Vec<Token>) -> Vec<Option<u64>> {
    tokens
        .iter()
        .map(|token| {
            if token.type_ == TokenType::NumberLiteral {
                token.lexeme.parse::<f64>().ok().map(f64::to_bits)
            } else {
                None
            }
        })
        .collect()
}

fn resolve(src: &str) -> Program {
    let tokens = scanner::scan_tokens(src).unwrap();
    let mut program = Program {
        statements: parser::parse(&tokens, &numbers(&tokens)).unwrap(),
    };
    Resolver::new().resolve(&mut program).unwrap();
    program
}

#[test]
fn test_global_variable() {
    assert_eq!(
        resolve(
            r#"
                var a = 0;
                print a;
                {
                    print a;
                }
            "#
        ),
        Program {
            statements: vec![
                Statement::VariableDecl(
                    "a".to_owned(),
                    Some(Expr::Literal(LiteralExpr::Number(0.0_f64.to_bits())))
                ),
                Statement::Print(Expr::Identifier("a".to_owned(), Some(0))),
                Statement::Block(vec![Statement::Print(Expr::Identifier(
                    "a".to_owned(),
                    Some(1)
                ))])
            ]
        }
    );
}


#[test]
fn resolver_tests_test_simple_closure() {
    assert_eq!(
        resolve(
            r#"
                fun f() {
                    var i = 0;
                    fun g() {
                        i = i + 1;
                        print i;
                    }
                    g();
                }
                f();
            "#
        ),
        Program {
            statements: vec![
                Statement::FunDecl(Rc::new(FunctionDecl {
                    name: "f".to_owned(),
                    params: vec![],
                    body: vec![
                        Statement::VariableDecl(
                            "i".to_owned(),
                            Some(Expr::Literal(LiteralExpr::Number(0.0_f64.to_bits())))
                        ),
                        Statement::FunDecl(Rc::new(FunctionDecl {
                            name: "g".to_owned(),
                            params: vec![],
                            body: vec![
                                Statement::Expr(Expr::Assignment(
                                    "i".to_owned(),
                                    Some(1),
                                    Box::new(Expr::Binary(BinaryExpr {
                                        left: Box::new(Expr::Identifier("i".to_owned(), Some(1))),
                                        op: TokenType::Plus,
                                        right: Box::new(Expr::Literal(LiteralExpr::Number(1.0_f64.to_bits()))),
                                    }))
                                )),
                                Statement::Print(Expr::Identifier("i".to_owned(), Some(1)))
                            ]
                        })),
                        Statement::Expr(Expr::Call(CallExpr {
                            callee: Box::new(Expr::Identifier("g".to_owned(), Some(0))),
                            args: vec![],
                        }))
                    ],
                })),
                Statement::Expr(Expr::Call(CallExpr {
                    callee: Box::new(Expr::Identifier("f".to_owned(), Some(0))),
                    args: vec![],
                }))
            ]
        }
    );
}


#[test]
fn test_unknown_name_stays_unresolved() {
    assert_eq!(
        resolve("print b; fun f() { return later; }"),
        Program {
            statements: vec![
                Statement::Print(Expr::Identifier("b".to_owned(), None)),
                Statement::FunDecl(Rc::new(FunctionDecl {
                    name: "f".to_owned(),
                    params: vec![],
                    body: vec![Statement::Return(Some(Expr::Identifier(
                        "later".to_owned(),
                        None
                    )))],
                })),
            ]
        }
    );
}

#[test]
fn test_native_function_is_in_the_outermost_scope() {
    assert_eq!(
        resolve("{ clock(); }"),
        Program {
            statements: vec![Statement::Block(vec![Statement::Expr(Expr::Call(CallExpr {
                callee: Box::new(Expr::Identifier("clock".to_owned(), Some(1))),
                args: vec![],
            }))])]
        }
    );
}

#[test]
fn test_parameters_and_operands_are_resolved() {
    assert_eq!(
        resolve("fun f(x) { { return -x; } }"),
        Program {
            statements: vec![Statement::FunDecl(Rc::new(FunctionDecl {
                name: "f".to_owned(),
                params: vec!["x".to_owned()],
                body: vec![Statement::Block(vec![Statement::Return(Some(Expr::Unary(
                    rlox::ast::UnaryExpr {
                        op: TokenType::Minus,
                        expr: Box::new(Expr::Identifier("x".to_owned(), Some(1))),
                    }
                )))])],
            }))]
        }
    );
}

#[test]
fn test_a_declaration_is_in_scope_in_its_own_initializer() {
    assert_eq!(
        resolve("var a = 1; { var a = a; }"),
        Program {
            statements: vec![
                Statement::VariableDecl(
                    "a".to_owned(),
                    Some(Expr::Literal(LiteralExpr::Number(1.0_f64.to_bits())))
                ),
                Statement::Block(vec![Statement::VariableDecl(
                    "a".to_owned(),
                    Some(Expr::Identifier("a".to_owned(), Some(0)))
                )]),
            ]
        }
    );
}

#[test]
fn test_resolver_keeps_its_scopes() {
    let tokens = scanner::scan_tokens("var a; { a = 1; }").unwrap();
    let mut program = Program {
        statements: parser::parse(&tokens, &numbers(&tokens)).unwrap(),
    };
    let mut resolver = Resolver::new();
    resolver.resolve(&mut program).unwrap();
    assert!(resolver.scopes.is_empty());
    assert_eq!(resolver.find_resolving_depth(&"a".to_owned()), None);
}
