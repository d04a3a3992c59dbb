use rlox::ast::{
    clone_expr, clone_statements, BinaryExpr, Expr, LiteralExpr, Statement, WhileStatement,
};
use rlox::environment::{Environment, Value};
use rlox::error::{
    compilation_error, ice, runtime_error, CompilationError, ErrorOrEarlyReturn, RuntimeError, ICE,
};
use rlox::number;
use rlox::parser::{self, desugar_for, name_of, Parser, MAX_ARITY};
use rlox::scanner::{self, lines_fit, Token, TokenType};

fn numbers(tokens: &Vec<Token>) -> Vec<Option<u64>> {
    tokens
        .iter()
        .map(|token| {
            if token.type_ == TokenType::NumberLiteral {
                token.lexeme.parse::<f64>().ok().map(f64::to_bits)
            } else {
                None
            }
        })
        .collect()
}

fn parse_error(src: &str) -> CompilationError {
    let tokens = scanner::scan_tokens(src).unwrap();
    match parser::parse(&tokens, &numbers(&tokens)) {
        Err(ErrorOrEarlyReturn::CompilationError(error)) => error,
        other => panic!("no compilation error: {:?}", other),
    }
}

fn samples() -> Vec<f64> {
    vec![
        0.0,
        -0.0,
        1.0,
        -1.0,
        0.5,
        -0.5,
        2.0,
        1e300,
        -1e300,
        f64::MIN_POSITIVE,
        -f64::MIN_POSITIVE,
        5e-324,
        -5e-324,
        f64::MAX,
        f64::MIN,
        f64::INFINITY,
        f64::NEG_INFINITY,
        f64::NAN,
        -f64::NAN,
        f64::from_bits(0x7ff0_0000_0000_0001),
        f64::from_bits(0xfff8_0000_0000_0001),
    ]
}

#[test]
fn test_number_order_is_that_of_doubles() {
    for a in samples() {
        for b in samples() {
            assert_eq!(number::less(a.to_bits(), b.to_bits()), a < b, "{} < {}", a, b);
            assert_eq!(number::equal(a.to_bits(), b.to_bits()), a == b, "{} == {}", a, b);
        }
    }
}

#[test]
fn test_number_sign_and_zero_are_those_of_doubles() {
    for a in samples() {
        assert_eq!(number::is_zero(a.to_bits()), a == 0.0, "{}", a);
        assert_eq!(number::is_nan(a.to_bits()), a.is_nan(), "{}", a);
        assert_eq!(number::negate(a.to_bits()), (-a).to_bits(), "{}", a);
    }
    assert_eq!(number::negate(1.5_f64.to_bits()), (-1.5_f64).to_bits());
}

#[test]
fn test_environment_define_get_assign() {
    let a = "a".to_owned();
    let b = "b".to_owned();
    let c = "c".to_owned();
    let mut envs = vec![Environment::new(None)];
    assert_eq!(Environment::get(&envs, 0, &a, None), None);
    Environment::define(&mut envs, 0, &a, Value::Number(1));
    Environment::define(&mut envs, 0, &b, Value::Boolean(true));
    assert_eq!(Environment::get(&envs, 0, &a, None), Some(Value::Number(1)));
    Environment::define(&mut envs, 0, &a, Value::Nil);
    assert_eq!(Environment::get(&envs, 0, &a, None), Some(Value::Nil));
    assert_eq!(Environment::get(&envs, 0, &b, None), Some(Value::Boolean(true)));
    assert_eq!(envs[0].values.len(), 2);
    assert_eq!(envs[0].find(&b), 1);
    assert_eq!(envs[0].find(&c), 2);
    assert_eq!(Environment::assign(&mut envs, 0, &b, None, Value::Number(2)), Ok(()));
    assert_eq!(Environment::get(&envs, 0, &b, None), Some(Value::Number(2)));
    assert_eq!(
        Environment::assign(&mut envs, 0, &c, None, Value::Number(3)),
        Err(ErrorOrEarlyReturn::RuntimeError(
            RuntimeError::UndefinedVariable("c".to_owned())
        ))
    );
    assert_eq!(Environment::get(&envs, 0, &c, None), None);
    assert_eq!(envs[0].values.len(), 2);
}

#[test]
fn test_environment_chain() {
    let a = "a".to_owned();
    let b = "b".to_owned();
    let c = "c".to_owned();
    let mut envs = vec![
        Environment::new(None),
        Environment::new(Some(0)),
        Environment::new(Some(1)),
        Environment::new(Some(0)),
    ];
    Environment::define(&mut envs, 0, &a, Value::Number(0));
    Environment::define(&mut envs, 1, &a, Value::Number(1));
    Environment::define(&mut envs, 0, &b, Value::Number(10));
    assert_eq!(Environment::get(&envs, 2, &a, None), Some(Value::Number(1)));
    assert_eq!(Environment::get(&envs, 3, &a, None), Some(Value::Number(0)));
    assert_eq!(Environment::get(&envs, 2, &b, None), Some(Value::Number(10)));
    assert_eq!(Environment::get(&envs, 2, &c, None), None);
    assert_eq!(Environment::get(&envs, 2, &a, Some(2)), Some(Value::Number(0)));
    assert_eq!(Environment::get(&envs, 2, &a, Some(1)), Some(Value::Number(1)));
    assert_eq!(Environment::get(&envs, 2, &a, Some(0)), None);
    assert_eq!(Environment::get(&envs, 2, &a, Some(3)), None);
    assert_eq!(Environment::get(&envs, 9, &a, None), None);
    assert_eq!(Environment::find_target(&envs, 2, &b, None), Some(0));
    assert_eq!(Environment::find_target(&envs, 2, &b, Some(2)), Some(0));
    assert_eq!(Environment::find_target(&envs, 2, &b, Some(1)), None);

    assert!(Environment::assign(&mut envs, 2, &a, None, Value::Nil).is_ok());
    assert_eq!(Environment::get(&envs, 1, &a, None), Some(Value::Nil));
    assert_eq!(Environment::get(&envs, 0, &a, None), Some(Value::Number(0)));
    assert!(Environment::assign(&mut envs, 2, &a, Some(2), Value::Boolean(true)).is_ok());
    assert_eq!(Environment::get(&envs, 0, &a, None), Some(Value::Boolean(true)));
    assert!(Environment::assign(&mut envs, 2, &c, None, Value::Nil).is_err());
    assert!(Environment::assign(&mut envs, 2, &b, Some(0), Value::Nil).is_err());
    assert_eq!(Environment::get(&envs, 2, &c, None), None);
    assert!(envs[2].values.is_empty());

    Environment::define(&mut envs, 7, &c, Value::Nil);
    assert_eq!(envs.len(), 4);
}

#[test]
fn test_a_parent_that_does_not_come_before_is_not_followed() {
    let a = "a".to_owned();
    let mut envs = vec![Environment::new(Some(1)), Environment::new(Some(0))];
    Environment::define(&mut envs, 1, &a, Value::Nil);
    assert_eq!(Environment::get(&envs, 0, &a, None), None);
    assert_eq!(Environment::get(&envs, 1, &a, None), Some(Value::Nil));
}

#[test]
fn test_error_constructors() {
    assert_eq!(
        ice(ICE::Generic("x".to_owned())),
        ErrorOrEarlyReturn::ICE(ICE::Generic("x".to_owned()))
    );
    assert_eq!(
        compilation_error(CompilationError::UnterminatedString),
        ErrorOrEarlyReturn::CompilationError(CompilationError::UnterminatedString)
    );
    assert_eq!(
        runtime_error(RuntimeError::DivisionByZero),
        ErrorOrEarlyReturn::RuntimeError(RuntimeError::DivisionByZero)
    );
}

#[test]
fn test_expected_token_errors() {
    assert_eq!(
        parse_error("(1 + 2;"),
        CompilationError::ExpectedToken("RightParen".to_owned(), ";".to_owned())
    );
    assert_eq!(
        parse_error("print (1"),
        CompilationError::ExpectedToken("RightParen".to_owned(), "Eof".to_owned())
    );
    assert_eq!(
        parse_error("if true) print 1;"),
        CompilationError::ExpectedToken("LeftParen".to_owned(), "true".to_owned())
    );
    assert_eq!(
        parse_error("while (true print 1;"),
        CompilationError::ExpectedToken("RightParen".to_owned(), "print".to_owned())
    );
    assert_eq!(
        parse_error("fun () {}"),
        CompilationError::ExpectedToken("Identifier".to_owned(), "(".to_owned())
    );
    assert_eq!(
        parse_error("fun f {}"),
        CompilationError::ExpectedToken("LeftParen".to_owned(), "{".to_owned())
    );
    assert_eq!(
        parse_error("fun f () ;"),
        CompilationError::ExpectedToken("LeftBrace".to_owned(), ";".to_owned())
    );
    assert_eq!(
        parse_error("fun f (a b) {}"),
        CompilationError::ExpectedToken("RightParen".to_owned(), "b".to_owned())
    );
    assert_eq!(
        parse_error("f(a, b, c;"),
        CompilationError::ExpectedToken("RightParen".to_owned(), ";".to_owned())
    );
    assert_eq!(
        parse_error("for (var i = 0; i < 1 i = i + 1) print i;"),
        CompilationError::ExpectedToken("Semicolon".to_owned(), "i".to_owned())
    );
    assert_eq!(
        parse_error("for (;; 1 print 2;"),
        CompilationError::ExpectedToken("RightParen".to_owned(), "print".to_owned())
    );
}

#[test]
fn test_other_compilation_errors() {
    assert_eq!(parse_error("var 1 = 2;"), CompilationError::ExpectedNameAfterVar);
    assert_eq!(parse_error("var;"), CompilationError::ExpectedNameAfterVar);
    assert_eq!(
        parse_error("var a = 1"),
        CompilationError::ExpectedSemicolonAfterVarDecl
    );
    assert_eq!(
        parse_error("var a 1;"),
        CompilationError::ExpectedSemicolonAfterVarDecl
    );
    assert_eq!(parse_error("return 1;"), CompilationError::ReturnOutsideFunction);
    assert_eq!(
        parse_error("print 1"),
        CompilationError::GenericError("Expected ';' after value.".to_owned())
    );
    assert_eq!(
        parse_error("1 + 2"),
        CompilationError::GenericError("Expected ';' after expression.".to_owned())
    );
    assert_eq!(
        parse_error("fun f() { return 1 }"),
        CompilationError::GenericError("Expected ';' after return value.".to_owned())
    );
    assert_eq!(
        parse_error("{ a = 10; "),
        CompilationError::GenericError("Expected '}' at end of block.".to_owned())
    );
    assert_eq!(
        parse_error("10 = a;"),
        CompilationError::GenericError("Invalid assignment target.".to_owned())
    );
    assert_eq!(
        parse_error("(a) = 1;"),
        CompilationError::GenericError("Invalid assignment target.".to_owned())
    );
    assert_eq!(
        parse_error("print ;"),
        CompilationError::GenericError("Expected expression.".to_owned())
    );
    assert_eq!(
        parse_error("f(a,);"),
        CompilationError::GenericError("Expected expression.".to_owned())
    );
    assert_eq!(
        parse_error("1 +"),
        CompilationError::GenericError("Expected expression.".to_owned())
    );
}

#[test]
fn test_the_depth_of_functions_is_restored_after_an_error() {
    let tokens = scanner::scan_tokens("fun f() { var = 1; } return 2;").unwrap();
    let values = numbers(&tokens);
    let mut parser = Parser::new(&tokens, &values);
    assert!(parser.matches(TokenType::Fun));
    assert_eq!(parser.function_depth, 0);
    assert_eq!(
        parse_error("fun f() { fun g() { return 1; } } return 2;"),
        CompilationError::ReturnOutsideFunction
    );
    assert_eq!(
        parse_error("fun f() { var = 1; }"),
        CompilationError::ExpectedNameAfterVar
    );
}

#[test]
fn test_arity_limits() {
    let list = |n: usize| (0..n).map(|i| format!("a{}", i)).collect::<Vec<_>>().join(", ");
    let call = |n: usize| format!("f({});", list(n));
    let decl = |n: usize| format!("fun f({}) {{}}", list(n));
    for src in [call(MAX_ARITY), decl(MAX_ARITY), call(0), decl(1)] {
        let tokens = scanner::scan_tokens(&src).unwrap();
        assert!(parser::parse(&tokens, &numbers(&tokens)).is_ok());
    }
    assert_eq!(
        parse_error(&call(MAX_ARITY + 1)),
        CompilationError::GenericError("Too many arguments.".to_owned())
    );
    assert_eq!(
        parse_error(&decl(MAX_ARITY + 1)),
        CompilationError::GenericError("Too many parameters.".to_owned())
    );
}

#[test]
fn test_invalid_literals() {
    let tokens = scanner::scan_tokens("1 + 22").unwrap();
    assert_eq!(
        parser::parse_expr(&tokens, &vec![Some(1), None, None]),
        Err(ErrorOrEarlyReturn::CompilationError(
            CompilationError::InvalidLiteral("number".to_owned(), "22".to_owned())
        ))
    );
    assert_eq!(
        parser::parse_expr(&tokens, &vec![]),
        Err(ErrorOrEarlyReturn::CompilationError(
            CompilationError::InvalidLiteral("number".to_owned(), "1".to_owned())
        ))
    );
    let odd = vec![Token::new(TokenType::String, "\"", 1)];
    assert_eq!(
        parser::parse_expr(&odd, &vec![None]),
        Err(ErrorOrEarlyReturn::CompilationError(
            CompilationError::InvalidLiteral("string".to_owned(), "\"".to_owned())
        ))
    );
    let bare = vec![Token::new(TokenType::String, "abc", 1)];
    assert!(parser::parse_expr(&bare, &vec![None]).is_err());
    let empty = vec![Token::new(TokenType::String, "\"\"", 1)];
    assert_eq!(
        parser::parse_expr(&empty, &vec![None]),
        Ok(Expr::Literal(LiteralExpr::String(String::new())))
    );
    let accents = vec![Token::new(TokenType::String, "\"é∑\"", 1)];
    assert_eq!(
        parser::parse_expr(&accents, &vec![None]),
        Ok(Expr::Literal(LiteralExpr::String("é∑".to_owned())))
    );
}

#[test]
fn test_parse_expr() {
    let tokens = scanner::scan_tokens("a = b = 1 or 2 and 3 == 4 < 5 + 6 * -7").unwrap();
    let lit = |n: f64| Box::new(Expr::Literal(LiteralExpr::Number(n.to_bits())));
    let binary = |left, op, right| Box::new(Expr::Binary(BinaryExpr { left, op, right }));
    let expected = Expr::Assignment(
        "a".to_owned(),
        None,
        Box::new(Expr::Assignment(
            "b".to_owned(),
            None,
            binary(
                lit(1.0),
                TokenType::Or,
                binary(
                    lit(2.0),
                    TokenType::And,
                    binary(
                        lit(3.0),
                        TokenType::EqualEqual,
                        binary(
                            lit(4.0),
                            TokenType::Less,
                            binary(
                                lit(5.0),
                                TokenType::Plus,
                                binary(
                                    lit(6.0),
                                    TokenType::Star,
                                    Box::new(Expr::Unary(rlox::ast::UnaryExpr {
                                        op: TokenType::Minus,
                                        expr: lit(7.0),
                                    })),
                                ),
                            ),
                        ),
                    ),
                ),
            ),
        )),
    );
    assert_eq!(parser::parse_expr(&tokens, &numbers(&tokens)), Ok(expected));
}

#[test]
fn test_operators_group_to_the_left() {
    let tokens = scanner::scan_tokens("1 - 2 - 3").unwrap();
    let lit = |n: f64| Box::new(Expr::Literal(LiteralExpr::Number(n.to_bits())));
    assert_eq!(
        parser::parse_expr(&tokens, &numbers(&tokens)),
        Ok(Expr::Binary(BinaryExpr {
            left: Box::new(Expr::Binary(BinaryExpr {
                left: lit(1.0),
                op: TokenType::Minus,
                right: lit(2.0),
            })),
            op: TokenType::Minus,
            right: lit(3.0),
        }))
    );
}

#[test]
fn test_parse_stops_at_eof_token() {
    let tokens = vec![
        Token::new(TokenType::Print, "print", 1),
        Token::new(TokenType::Nil, "nil", 1),
        Token::new(TokenType::Semicolon, ";", 1),
        Token::new(TokenType::Eof, "", 1),
        Token::new(TokenType::Print, "print", 1),
    ];
    assert_eq!(
        parser::parse(&tokens, &vec![]),
        Ok(vec![Statement::Print(Expr::Literal(LiteralExpr::Nil))])
    );
}

#[test]
fn test_parser_steps() {
    let tokens = scanner::scan_tokens("var a;").unwrap();
    let values = numbers(&tokens);
    let mut parser = Parser::new(&tokens, &values);
    assert!(parser.previous().is_err());
    assert!(parser.check(TokenType::Var));
    assert!(!parser.matches(TokenType::Fun));
    assert_eq!(parser.peek(), Some(Token::new(TokenType::Var, "var", 1)));
    assert!(parser.matches(TokenType::Var));
    assert_eq!(parser.previous(), Ok(Token::new(TokenType::Var, "var", 1)));
    assert_eq!(
        parser.consume(TokenType::Semicolon),
        Err(ErrorOrEarlyReturn::CompilationError(
            CompilationError::ExpectedToken("Semicolon".to_owned(), "a".to_owned())
        ))
    );
    assert_eq!(parser.next, 1);
    assert_eq!(
        parser.consume(TokenType::Identifier),
        Ok(Token::new(TokenType::Identifier, "a", 1))
    );
    assert!(!parser.is_at_end());
    assert_eq!(
        parser.consume_or_error(
            TokenType::Comma,
            ErrorOrEarlyReturn::CompilationError(CompilationError::UnterminatedString)
        ),
        Err(ErrorOrEarlyReturn::CompilationError(
            CompilationError::UnterminatedString
        ))
    );
    assert_eq!(
        parser.consume_or_error(
            TokenType::Semicolon,
            ErrorOrEarlyReturn::CompilationError(CompilationError::UnterminatedString)
        ),
        Ok(Token::new(TokenType::Semicolon, ";", 1))
    );
    assert!(parser.is_at_end());
    assert_eq!(parser.peek(), None);
    assert_eq!(
        parser.consume(TokenType::Semicolon),
        Err(ErrorOrEarlyReturn::CompilationError(
            CompilationError::ExpectedToken("Semicolon".to_owned(), "Eof".to_owned())
        ))
    );
}

#[test]
fn test_name_of() {
    assert_eq!(name_of(TokenType::LeftParen), "LeftParen");
    assert_eq!(name_of(TokenType::NumberLiteral), "NumberLiteral");
    assert_eq!(name_of(TokenType::Eof), "Eof");
}

#[test]
fn test_desugar_for() {
    let print = |text: &str| Statement::Print(Expr::Literal(LiteralExpr::String(text.to_owned())));
    let name = |text: &str| Expr::Identifier(text.to_owned(), None);
    assert_eq!(
        desugar_for(Some(print("init")), Some(name("c")), Some(name("i")), print("body")),
        Statement::Block(vec![
            print("init"),
            Statement::While(WhileStatement {
                cond: name("c"),
                stmt: Box::new(Statement::Block(vec![
                    print("body"),
                    Statement::Expr(name("i"))
                ])),
            }),
        ])
    );
    assert_eq!(
        desugar_for(None, None, None, print("body")),
        Statement::Block(vec![Statement::While(WhileStatement {
            cond: Expr::Literal(LiteralExpr::Boolean(true)),
            stmt: Box::new(Statement::Block(vec![print("body")])),
        })])
    );
}

#[test]
fn test_copies_are_equal() {
    let tokens = scanner::scan_tokens(
        "fun f(a) { if (a) { return f(a - 1, \"s\"); } else while (!a) a = nil; } var x = (1);",
    )
    .unwrap();
    let statements = parser::parse(&tokens, &numbers(&tokens)).unwrap();
    assert_eq!(clone_statements(&statements), statements);
    let expr = Expr::Grouping(Box::new(Expr::Identifier("a".to_owned(), Some(3))));
    assert_eq!(clone_expr(&expr), expr);
    assert_eq!(expr.clone(), expr);
    assert_eq!(Value::String("v".to_owned()).clone(), Value::String("v".to_owned()));
}

#[test]
fn test_lines_fit() {
    assert!(lines_fit("a\nb\n", 1));
    assert!(lines_fit("a\nb\n", u32::MAX - 2));
    assert!(!lines_fit("a\nb\n", u32::MAX - 1));
    assert!(lines_fit("", u32::MAX));
    assert!(!lines_fit("\n", u32::MAX));
}
