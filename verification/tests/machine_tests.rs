use std::rc::Rc;

use rlox::ast::{Expr, FunctionDecl, LiteralExpr, Program, Statement};
use rlox::environment::{Function, Value};
use rlox::error::{ErrorOrEarlyReturn, RuntimeError, ICE};
use rlox::interpreter::{
    calc_lit, equal_values, is_truthy, Action, Control, Event, Frame, Interpreter, MAX_CALL_DEPTH,
};
use rlox::parser;
use rlox::resolver::Resolver;
use rlox::scanner::{self, Token, TokenType};
use rlox::Result;

fn numbers(tokens: &Vec<Token>) -> Vec<Option<u64>> {
    tokens
        .iter()
        .map(|token| {
            if token.type_ == TokenType::NumberLiteral {
                token.lexeme.parse::<f64>().ok().map(f64::to_bits)
            } else {
                None
            }
        })
        .collect()
}

fn parse(src: &str) -> Vec<Statement> {
    let tokens = scanner::scan_tokens(src).unwrap();
    parser::parse(&tokens, &numbers(&tokens)).unwrap()
}

fn num(value: f64) -> Value {
    Value::Number(value.to_bits())
}

/// Plays the host to the end of the run.
fn run(interpreter: &mut Interpreter, out: &mut String) -> Result<Value> {
    let mut event = Event::Proceed;
    loop {
        event = match interpreter.step(event) {
            Action::Continue => Event::Proceed,
            Action::Arithmetic(op, left, right) => {
                let (left, right) = (f64::from_bits(left), f64::from_bits(right));
                let result = match op {
                    TokenType::Plus => left + right,
                    TokenType::Minus => left - right,
                    TokenType::Star => left * right,
                    TokenType::Slash => {
                        assert!(right != 0.0);
                        left / right
                    }
                    _ => unreachable!(),
                };
                Event::Number(result.to_bits())
            }
            Action::Format(number) => Event::Text(format!("{}", f64::from_bits(number))),
            Action::Print(text) => {
                out.push_str(&text);
                Event::Done
            }
            Action::Native(_) => Event::Number(12.5_f64.to_bits()),
            Action::Finished(result) => return result,
        };
    }
}

fn exec(statements: &Vec<Statement>) -> Result<String> {
    let mut out = String::new();
    let mut interpreter = Interpreter::new();
    for statement in statements {
        interpreter.exec_stmt(statement);
        run(&mut interpreter, &mut out)?;
    }
    Ok(out)
}

fn output(src: &str) -> Result<String> {
    exec(&parse(src))
}

fn resolved_output(src: &str) -> Result<String> {
    let mut program = Program { statements: parse(src) };
    Resolver::new().resolve(&mut program).unwrap();
    exec(&program.statements)
}

fn runtime_error(src: &str) -> RuntimeError {
    match output(src) {
        Err(ErrorOrEarlyReturn::RuntimeError(error)) => error,
        other => panic!("no runtime error: {:?}", other),
    }
}

fn value_of(src: &str) -> Result<Value> {
    let tokens = scanner::scan_tokens(src).unwrap();
    let expr = parser::parse_expr(&tokens, &numbers(&tokens)).unwrap();
    let mut interpreter = Interpreter::new();
    interpreter.calc_expr(&expr);
    run(&mut interpreter, &mut String::new())
}

#[test]
fn test_shadowing_scenario() {
    assert_eq!(
        output("var a=1; { var a=2; print a; } print a;").unwrap(),
        "2\n1\n"
    );
}

#[test]
fn test_short_circuit_scenario() {
    assert_eq!(
        output(r#"var a=true; var b = a and (a = "x"); print a;"#).unwrap(),
        "x\n"
    );
    assert_eq!(
        output(r#"var a=false; var b = a and (a="x"); print a;"#).unwrap(),
        "false\n"
    );
    assert_eq!(
        output(r#"var a=true; var b = a or (a = "x"); print a; print b;"#).unwrap(),
        "true\ntrue\n"
    );
    assert_eq!(
        output(r#"var a=false; var b = a or (a = "x"); print a; print b;"#).unwrap(),
        "x\ntrue\n"
    );
}

#[test]
fn test_logical_operators_give_booleans() {
    assert_eq!(value_of(r#""a" and 1"#).unwrap(), Value::Boolean(true));
    assert_eq!(value_of(r#""a" and nil"#).unwrap(), Value::Boolean(false));
    assert_eq!(value_of("nil or 0").unwrap(), Value::Boolean(true));
    assert_eq!(value_of("nil or false").unwrap(), Value::Boolean(false));
}

#[test]
fn test_truthiness_of_values() {
    assert!(is_truthy(&num(0.0)));
    assert!(is_truthy(&Value::String(String::new())));
    assert!(is_truthy(&Value::String("x".to_owned())));
    assert!(is_truthy(&Value::Boolean(true)));
    assert!(is_truthy(&Value::Object));
    assert!(is_truthy(&Value::Function(Function { decl: 0, closure: 0 })));
    assert!(!is_truthy(&Value::Boolean(false)));
    assert!(!is_truthy(&Value::Nil));
    assert_eq!(
        output(r#"if ("") print "empty string is truthy"; if (nil) print "no";"#).unwrap(),
        "empty string is truthy\n"
    );
}

#[test]
fn test_division_by_zero() {
    assert_eq!(runtime_error("print 1/0;"), RuntimeError::DivisionByZero);
    assert_eq!(runtime_error("print 1/-0;"), RuntimeError::DivisionByZero);
    assert_eq!(runtime_error("print 0/0;"), RuntimeError::DivisionByZero);
    assert_eq!(runtime_error("var z = 1 - 1; print 5 / z;"), RuntimeError::DivisionByZero);
    assert_eq!(output("print 1/4;").unwrap(), "0.25\n");
}

#[test]
fn test_arity_scenario() {
    assert_eq!(
        runtime_error("fun f(a) { } f(1, 2);"),
        RuntimeError::NumberOfArgumentsMismatch(1, "f".to_owned(), 2)
    );
    assert_eq!(
        runtime_error("fun g(a, b) { } g();"),
        RuntimeError::NumberOfArgumentsMismatch(2, "g".to_owned(), 0)
    );
    assert_eq!(
        runtime_error("clock(1);"),
        RuntimeError::NumberOfArgumentsMismatch(0, "clock".to_owned(), 1)
    );
}

#[test]
fn test_arity_is_checked_before_arguments_run() {
    assert_eq!(
        runtime_error(r#"fun f() { } fun g() { print "ran"; } f(g());"#),
        RuntimeError::NumberOfArgumentsMismatch(0, "f".to_owned(), 1)
    );
}

#[test]
fn test_unbounded_recursion_scenario() {
    assert_eq!(runtime_error("fun f(){f();} f();"), RuntimeError::StackOverflow);
}

#[test]
fn test_recursion_up_to_the_bound() {
    let src = format!(
        "fun down(n) {{ if (n > 1) down(n - 1); }} down({});",
        MAX_CALL_DEPTH
    );
    assert_eq!(output(&src).unwrap(), "");
    let src = format!(
        "fun down(n) {{ if (n > 1) down(n - 1); }} down({});",
        MAX_CALL_DEPTH + 1
    );
    assert_eq!(runtime_error(&src), RuntimeError::StackOverflow);
}

#[test]
fn test_the_machine_recovers_after_an_overflow() {
    let mut out = String::new();
    let mut interpreter = Interpreter::new();
    let statements = parse("fun f(){f();} f(); print 1;");
    interpreter.exec_stmt(&statements[0]);
    run(&mut interpreter, &mut out).unwrap();
    interpreter.exec_stmt(&statements[1]);
    assert!(run(&mut interpreter, &mut out).is_err());
    assert_eq!(interpreter.depth, 0);
    assert_eq!(interpreter.current, 0);
    interpreter.exec_stmt(&statements[2]);
    run(&mut interpreter, &mut out).unwrap();
    assert_eq!(out, "1\n");
}

#[test]
fn test_dangling_else_scenario() {
    assert_eq!(
        output(r#"if(true) if(false) print "A"; else print "B";"#).unwrap(),
        "B\n"
    );
    assert_eq!(
        output(r#"if(false) if(true) print "A"; else print "B";"#).unwrap(),
        ""
    );
}

#[test]
fn test_fib_scenario() {
    assert_eq!(
        output("fun fib(n){ if (n>=2) return fib(n-1)+fib(n-2); else return n; } print fib(10);")
            .unwrap(),
        "55\n"
    );
}

#[test]
fn test_closures_keep_their_own_counters() {
    let src = r#"
        fun counter() {
            var i = 0;
            fun next() { i = i + 1; return i; }
            return next;
        }
        var a = counter();
        var b = counter();
        print a(); print a(); print b(); print a(); print b();
    "#;
    assert_eq!(output(src).unwrap(), "1\n2\n1\n3\n2\n");
    assert_eq!(resolved_output(src).unwrap(), "1\n2\n1\n3\n2\n");
}

#[test]
fn test_call_runs_in_the_closure_not_in_the_caller() {
    let src = r#"
        var a = "global";
        fun show() { print a; }
        fun caller() { var a = "caller"; show(); }
        caller();
    "#;
    assert_eq!(output(src).unwrap(), "global\n");
    assert_eq!(resolved_output(src).unwrap(), "global\n");
}

#[test]
fn test_resolved_and_unresolved_runs_agree() {
    let programs = [
        "var a = 1; { var a = 2; print a; } print a;",
        "var a = 0; while (a < 3) { a = a + 1; print a; }",
        "for (var i = 0; i < 3; i = i + 1) { for (var j = 0; j < i; j = j + 1) print i * j; }",
        "fun fib(n){ if (n>=2) return fib(n-1)+fib(n-2); else return n; } print fib(12);",
        "fun f(x) { { var y = x + 1; { print y; x = y; } } return x; } print f(1);",
        "fun late() { return g; } var g = 7; print late();",
        "var a = 1; fun f(a) { a = a + 1; return a; } print f(5); print a;",
    ];
    for src in programs {
        assert_eq!(output(src).unwrap(), resolved_output(src).unwrap(), "{}", src);
    }
}

#[test]
fn test_resolution_binds_a_closure_to_its_declaration_scope() {
    let src = r#"
        var a = "global";
        {
            fun show() { print a; }
            show();
            var a = "block";
            show();
        }
    "#;
    assert_eq!(resolved_output(src).unwrap(), "global\nglobal\n");
}

#[test]
fn test_globals_declared_after_use() {
    let src = "fun f() { return later; } var later = 3; print f();";
    assert_eq!(output(src).unwrap(), "3\n");
    assert_eq!(resolved_output(src).unwrap(), "3\n");
}

#[test]
fn test_type_mismatch() {
    assert_eq!(
        runtime_error("print !1;"),
        RuntimeError::TypeMismatch("boolean".to_owned(), "1".to_owned())
    );
    assert_eq!(
        runtime_error(r#"print -"a";"#),
        RuntimeError::TypeMismatch("number".to_owned(), "a".to_owned())
    );
    assert_eq!(
        runtime_error("print -nil;"),
        RuntimeError::TypeMismatch("number".to_owned(), "Nil".to_owned())
    );
    assert_eq!(
        runtime_error("fun f() {} print !f;"),
        RuntimeError::TypeMismatch("boolean".to_owned(), "fun f".to_owned())
    );
    assert_eq!(
        runtime_error("print !clock;"),
        RuntimeError::TypeMismatch("boolean".to_owned(), "native fun clock".to_owned())
    );
}

#[test]
fn test_invalid_operator() {
    assert_eq!(
        runtime_error(r#"print 1 + "a";"#),
        RuntimeError::InvalidOperator(TokenType::Plus, "1".to_owned(), "a".to_owned())
    );
    assert_eq!(
        runtime_error(r#"print "a" - "b";"#),
        RuntimeError::InvalidOperator(TokenType::Minus, "a".to_owned(), "b".to_owned())
    );
    assert_eq!(
        runtime_error("print true < 2.5;"),
        RuntimeError::InvalidOperator(TokenType::Less, "true".to_owned(), "2.5".to_owned())
    );
    assert_eq!(
        runtime_error("print nil * nil;"),
        RuntimeError::InvalidOperator(TokenType::Star, "Nil".to_owned(), "Nil".to_owned())
    );
}

#[test]
fn test_undefined_names() {
    assert_eq!(
        runtime_error("print a;"),
        RuntimeError::UndefinedVariable("a".to_owned())
    );
    assert_eq!(
        runtime_error("a = 10;"),
        RuntimeError::UndefinedVariable("a".to_owned())
    );
    assert_eq!(
        runtime_error("{ var a = 1; } print a;"),
        RuntimeError::UndefinedVariable("a".to_owned())
    );
    assert_eq!(
        runtime_error("f();"),
        RuntimeError::UndefinedVariable("f".to_owned())
    );
}

#[test]
fn test_calling_what_is_no_function() {
    assert_eq!(
        runtime_error("var a = 1; a();"),
        RuntimeError::UndefinedFunction("1".to_owned())
    );
    assert_eq!(
        runtime_error(r#""text"(1, 2);"#),
        RuntimeError::UndefinedFunction("text".to_owned())
    );
}

#[test]
fn test_arithmetic_and_comparison() {
    assert_eq!(value_of("7 - 2 * 3").unwrap(), num(1.0));
    assert_eq!(value_of("(7 - 2) * 3").unwrap(), num(15.0));
    assert_eq!(value_of("-(1 + 2)").unwrap(), num(-3.0));
    assert_eq!(value_of("--3").unwrap(), num(3.0));
    assert_eq!(value_of("0.1 + 0.2").unwrap(), num(0.1 + 0.2));
    assert_eq!(value_of("1 < 2").unwrap(), Value::Boolean(true));
    assert_eq!(value_of("2 < 2").unwrap(), Value::Boolean(false));
    assert_eq!(value_of("2 <= 2").unwrap(), Value::Boolean(true));
    assert_eq!(value_of("3 > 2").unwrap(), Value::Boolean(true));
    assert_eq!(value_of("2 >= 3").unwrap(), Value::Boolean(false));
    assert_eq!(value_of("-1 < 0").unwrap(), Value::Boolean(true));
    assert_eq!(value_of("-1 < -2").unwrap(), Value::Boolean(false));
    assert_eq!(value_of("!true").unwrap(), Value::Boolean(false));
    assert_eq!(value_of(r#""a" + "b""#).unwrap(), Value::String("ab".to_owned()));
}

#[test]
fn test_equality() {
    assert_eq!(value_of("1 == 1").unwrap(), Value::Boolean(true));
    assert_eq!(value_of("1 != 1").unwrap(), Value::Boolean(false));
    assert_eq!(value_of("0 == -0").unwrap(), Value::Boolean(true));
    assert_eq!(value_of(r#"1 == "1""#).unwrap(), Value::Boolean(false));
    assert_eq!(value_of(r#"1 != "1""#).unwrap(), Value::Boolean(true));
    assert_eq!(value_of("nil == nil").unwrap(), Value::Boolean(true));
    assert_eq!(value_of("nil == false").unwrap(), Value::Boolean(false));
    assert_eq!(value_of(r#""a" == "a""#).unwrap(), Value::Boolean(true));
    assert_eq!(value_of("clock == clock").unwrap(), Value::Boolean(true));
    assert_eq!(
        output("fun f() {} fun g() {} var h = f; print f == h; print f == g; print f != g;")
            .unwrap(),
        "true\nfalse\ntrue\n"
    );
    assert_eq!(
        output("fun make() { fun inner() {} return inner; } print make() == make();").unwrap(),
        "false\n"
    );
}

#[test]
fn test_equal_values() {
    let nan = f64::NAN.to_bits();
    assert!(!equal_values(&Value::Number(nan), &Value::Number(nan)));
    assert!(equal_values(&num(0.0), &num(-0.0)));
    assert!(equal_values(&Value::Object, &Value::Object));
    assert!(!equal_values(&Value::Nil, &Value::Boolean(false)));
    assert!(!equal_values(
        &Value::Function(Function { decl: 1, closure: 2 }),
        &Value::Function(Function { decl: 1, closure: 3 })
    ));
    assert!(equal_values(
        &Value::Function(Function { decl: 1, closure: 2 }),
        &Value::Function(Function { decl: 1, closure: 2 })
    ));
}

#[test]
fn test_calc_lit() {
    assert_eq!(calc_lit(&LiteralExpr::Nil), Value::Nil);
    assert_eq!(calc_lit(&LiteralExpr::Boolean(true)), Value::Boolean(true));
    assert_eq!(calc_lit(&LiteralExpr::Number(2.5_f64.to_bits())), num(2.5));
    assert_eq!(
        calc_lit(&LiteralExpr::String("s".to_owned())),
        Value::String("s".to_owned())
    );
}

#[test]
fn test_display_forms() {
    assert_eq!(
        output(r#"print nil; print true; print false; print "s"; print 1.5; print -0.5;"#)
            .unwrap(),
        "Nil\ntrue\nfalse\ns\n1.5\n-0.5\n"
    );
    assert_eq!(
        output("fun f() {} print f; print clock;").unwrap(),
        "fun f\nnative fun clock\n"
    );
}

#[test]
fn test_statement_results() {
    let mut interpreter = Interpreter::new();
    let mut out = String::new();
    let statements = parse("1 + 2; var a = 5; a; print a; { 7; } fun f() { return 9; } f(); if (true) 3;");
    let mut results = Vec::new();
    for statement in &statements {
        interpreter.exec_stmt(statement);
        results.push(run(&mut interpreter, &mut out).unwrap());
    }
    assert_eq!(
        results,
        vec![
            num(3.0),
            Value::Nil,
            num(5.0),
            Value::Nil,
            Value::Nil,
            Value::Nil,
            num(9.0),
            Value::Nil
        ]
    );
}

#[test]
fn test_function_without_return_gives_nil() {
    assert_eq!(output("fun f() { 1; } print f();").unwrap(), "Nil\n");
    assert_eq!(output("fun f() { return; } print f();").unwrap(), "Nil\n");
}

#[test]
fn test_return_unwinds_to_the_call() {
    let src = r#"
        fun find() {
            var i = 0;
            while (true) {
                { if (i >= 3) { return i; } }
                i = i + 1;
            }
        }
        print find();
        print "after";
    "#;
    assert_eq!(output(src).unwrap(), "3\nafter\n");
}

#[test]
fn test_return_outside_a_function_is_an_internal_error() {
    let mut interpreter = Interpreter::new();
    interpreter.exec_stmt(&Statement::Return(Some(Expr::Literal(LiteralExpr::Nil))));
    assert_eq!(
        run(&mut interpreter, &mut String::new()),
        Err(ErrorOrEarlyReturn::ICE(ICE::Generic(
            "Return outside of a function".to_owned()
        )))
    );
}

#[test]
fn test_invalid_unary_operator_is_an_internal_error() {
    let mut interpreter = Interpreter::new();
    interpreter.calc_expr(&Expr::Unary(rlox::ast::UnaryExpr {
        op: TokenType::Plus,
        expr: Box::new(Expr::Identifier("never".to_owned(), None)),
    }));
    assert_eq!(
        run(&mut interpreter, &mut String::new()),
        Err(ErrorOrEarlyReturn::ICE(ICE::Generic(
            "Invalid unary operator".to_owned()
        )))
    );
}

#[test]
fn test_steps_of_a_print() {
    let mut interpreter = Interpreter::new();
    let statements = parse("print 1 + 2;");
    interpreter.exec_stmt(&statements[0]);
    let mut actions = Vec::new();
    let mut event = Event::Proceed;
    loop {
        let action = interpreter.step(event);
        event = match &action {
            Action::Arithmetic(_, left, right) => Event::Number(
                (f64::from_bits(*left) + f64::from_bits(*right)).to_bits(),
            ),
            Action::Format(number) => Event::Text(format!("{}", f64::from_bits(*number))),
            Action::Print(_) => Event::Done,
            _ => Event::Proceed,
        };
        let finished = matches!(action, Action::Finished(_));
        if action != Action::Continue {
            actions.push(action);
        }
        if finished {
            break;
        }
    }
    assert_eq!(
        actions,
        vec![
            Action::Arithmetic(TokenType::Plus, 1.0_f64.to_bits(), 2.0_f64.to_bits()),
            Action::Format(3.0_f64.to_bits()),
            Action::Print("3\n".to_owned()),
            Action::Finished(Ok(Value::Nil)),
        ]
    );
}

#[test]
fn test_print_failure_is_an_internal_error() {
    let mut interpreter = Interpreter::new();
    interpreter.print_stmt(&Expr::Literal(LiteralExpr::String("line".to_owned())));
    let mut event = Event::Proceed;
    let result = loop {
        event = match interpreter.step(event) {
            Action::Print(text) => {
                assert_eq!(text, "line\n");
                Event::Failed("broken pipe".to_owned())
            }
            Action::Finished(result) => break result,
            _ => Event::Proceed,
        };
    };
    assert_eq!(
        result,
        Err(ErrorOrEarlyReturn::ICE(ICE::IOError("broken pipe".to_owned())))
    );
}

#[test]
fn test_a_wrong_answer_is_an_internal_error() {
    let mut interpreter = Interpreter::new();
    let statements = parse("1 + 2;");
    interpreter.exec_stmt(&statements[0]);
    let mut event = Event::Proceed;
    let result = loop {
        event = match interpreter.step(event) {
            Action::Arithmetic(_, _, _) => Event::Text("three".to_owned()),
            Action::Finished(result) => break result,
            _ => Event::Proceed,
        };
    };
    assert_eq!(
        result,
        Err(ErrorOrEarlyReturn::ICE(ICE::Generic(
            "Expected a number from the host".to_owned()
        )))
    );
}

#[test]
fn test_an_idle_machine_finishes_with_nil() {
    let mut interpreter = Interpreter::new();
    assert_eq!(
        interpreter.step(Event::Proceed),
        Action::Finished(Ok(Value::Nil))
    );
}

#[test]
fn test_native_function() {
    assert_eq!(output("print clock();").unwrap(), "12.5\n");
    assert_eq!(value_of("clock() + 1").unwrap(), num(13.5));
}

#[test]
fn test_scopes_are_given_up_when_nothing_holds_them() {
    let mut interpreter = Interpreter::new();
    let mut out = String::new();
    for statement in &parse("var i = 0; while (i < 50) { var j = i; { i = j + 1; } }") {
        interpreter.exec_stmt(statement);
        run(&mut interpreter, &mut out).unwrap();
    }
    assert_eq!(interpreter.envs.len(), 1);
    for statement in &parse("fun f(n) { if (n > 0) f(n - 1); } f(20);") {
        interpreter.exec_stmt(statement);
        run(&mut interpreter, &mut out).unwrap();
    }
    assert_eq!(interpreter.envs.len(), 1);
}

#[test]
fn test_a_captured_scope_is_kept() {
    let mut interpreter = Interpreter::new();
    let mut out = String::new();
    for statement in &parse("var f; { var n = 41; fun g() { n = n + 1; return n; } f = g; } print f(); print f();") {
        interpreter.exec_stmt(statement);
        run(&mut interpreter, &mut out).unwrap();
    }
    assert_eq!(out, "42\n43\n");
    assert_eq!(interpreter.envs.len(), 2);
}

#[test]
fn test_function_declarations_are_shared() {
    let decl = Rc::new(FunctionDecl {
        name: "f".to_owned(),
        params: vec![],
        body: vec![Statement::Return(Some(Expr::Literal(LiteralExpr::Boolean(true))))],
    });
    let statement = Statement::FunDecl(decl.clone());
    let copy = statement.clone();
    assert_eq!(copy, statement);
    match copy {
        Statement::FunDecl(shared) => assert!(Rc::ptr_eq(&shared, &decl)),
        _ => unreachable!(),
    }
}

#[test]
fn test_a_return_travels_as_an_early_return() {
    let mut interpreter = Interpreter::new();
    interpreter.exec_stmt(&Statement::Return(None));
    assert_eq!(interpreter.step(Event::Proceed), Action::Continue);
    assert!(matches!(
        interpreter.control,
        Control::Raise(ErrorOrEarlyReturn::EarlyReturn(Value::Nil))
    ));
}

#[test]
fn test_a_block_opens_and_leaves_an_environment() {
    let mut interpreter = Interpreter::new();
    interpreter.exec_stmt(&Statement::Block(vec![]));
    assert_eq!(interpreter.step(Event::Proceed), Action::Continue);
    assert_eq!(interpreter.envs.len(), 2);
    assert_eq!(interpreter.envs[1].parent, Some(0));
    assert_eq!(interpreter.current, 1);
    assert_eq!(interpreter.frames.len(), 2);
    assert!(matches!(interpreter.frames[0], Frame::Scope(0)));
    assert_eq!(interpreter.step(Event::Proceed), Action::Continue);
    assert_eq!(interpreter.step(Event::Proceed), Action::Continue);
    assert_eq!(interpreter.envs.len(), 1);
    assert_eq!(interpreter.current, 0);
    assert_eq!(
        interpreter.step(Event::Proceed),
        Action::Finished(Ok(Value::Nil))
    );
}
