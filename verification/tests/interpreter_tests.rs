use lox_interpreter::interpreter::{Interpreter, InterpreterState};
use lox_interpreter::errors::LoxError;
use lox_interpreter::location::Location;
use lox_interpreter::numbers::Number;
use lox_interpreter::parser::{Expr, Literal, Stmt};
use lox_interpreter::runhelpers::raw_source_to_ast;
use lox_interpreter::tokens::{Token, TokenType};
use lox_interpreter::value::Value;

const FUEL: u64 = 100_000;

fn run(source: &str) -> (Vec<String>, Vec<LoxError>) {
    let statements = raw_source_to_ast(source, "test.lox").unwrap();
    let interpreter = Interpreter::new(statements);
    let mut state = InterpreterState::new();
    let errors = interpreter.interpret(&mut state, FUEL);
    (state.get_writer().clone(), errors)
}

#[test]
fn test_end_to_end_shadowing_scenario() {
    let (lines, errors) = run("var x = 1; { var x = 2; print x; } print x;");
    assert!(errors.is_empty());
    assert_eq!(lines, vec!["2".to_string(), "1".to_string()]);
}

#[test]
fn test_type_mismatch_names_both_operands() {
    let (lines, errors) = run("\"abc\" - 1;");
    assert!(lines.is_empty());
    assert_eq!(errors.len(), 1);
    match &errors[0] {
        LoxError::RuntimeError(_, msg) => {
            assert_eq!(msg, "Expected two numbers and got left: abc -- right: 1");
        }
        other => panic!("expected a runtime error, got {:?}", other),
    }
}

#[test]
fn test_string_pair_mismatch_names_both_operands() {
    let (_, errors) = run("\"a\" * \"b\";");
    assert_eq!(errors.len(), 1);
    match &errors[0] {
        LoxError::RuntimeError(_, msg) => {
            assert_eq!(msg, "Expected two numbers and got left: a -- right: b");
        }
        other => panic!("expected a runtime error, got {:?}", other),
    }
}

#[test]
fn test_truthiness() {
    assert!(!Value::Nil.is_truthy());
    assert!(!Value::Boolean(false).is_truthy());
    assert!(Value::Boolean(true).is_truthy());
    assert!(Value::Number(Number::from_raw(0)).is_truthy());
    assert!(Value::String("".to_string()).is_truthy());
}

#[test]
fn test_arithmetic_and_printing() {
    let (lines, errors) = run("print (1 + 2) * 3; print 7 / 2; print 12.3 + 0.1;");
    assert!(errors.is_empty());
    assert_eq!(lines, vec!["9".to_string(), "3.5".to_string(), "12.4".to_string()]);
}

#[test]
fn test_comparison_and_equality() {
    let (lines, errors) = run(
        "print (1 + 2) * 3 == 9; print 1 < 2; print 2 <= 2; print 3 > 4; print \"a\" == \"a\"; print nil == false;",
    );
    assert!(errors.is_empty());
    assert_eq!(
        lines,
        vec![
            "true".to_string(),
            "true".to_string(),
            "true".to_string(),
            "false".to_string(),
            "true".to_string(),
            "false".to_string()
        ]
    );
}

#[test]
fn test_string_concatenation() {
    let (lines, errors) = run("print \"foo\" + \"bar\";");
    assert!(errors.is_empty());
    assert_eq!(lines, vec!["foobar".to_string()]);
}

#[test]
fn test_unary_operators() {
    let (lines, errors) = run("print -3; print !nil; print !0;");
    assert!(errors.is_empty());
    assert_eq!(lines, vec!["-3".to_string(), "true".to_string(), "false".to_string()]);
}

#[test]
fn test_division_by_zero_is_runtime_error() {
    let (_, errors) = run("print 1 / 0;");
    assert_eq!(errors.len(), 1);
    match &errors[0] {
        LoxError::RuntimeError(_, msg) => assert_eq!(msg, "Division by zero."),
        other => panic!("expected a runtime error, got {:?}", other),
    }
}

#[test]
fn test_undefined_variable_is_runtime_error() {
    let (_, errors) = run("print ghost_var;");
    assert_eq!(errors.len(), 1);
    match &errors[0] {
        LoxError::RuntimeError(_, msg) => assert_eq!(msg, "Undefined variable: ghost_var"),
        other => panic!("expected a runtime error, got {:?}", other),
    }
}

#[test]
fn test_errors_are_isolated_per_statement() {
    let (lines, errors) = run("print missing; print 1;");
    assert_eq!(errors.len(), 1);
    assert_eq!(lines, vec!["1".to_string()]);
}

#[test]
fn test_logical_short_circuit() {
    // `or` keeps a truthy left operand without evaluating the right;
    // `and` keeps a falsy left operand the same way.
    let (lines, errors) = run("print 1 or missing; print nil and missing; print nil or 2;");
    assert!(errors.is_empty());
    assert_eq!(lines, vec!["1".to_string(), "nil".to_string(), "2".to_string()]);
}

#[test]
fn test_assignment_returns_value_and_reaches_outer_scope() {
    let (lines, errors) = run("var a = 1; { print a = 5; } print a;");
    assert!(errors.is_empty());
    assert_eq!(lines, vec!["5".to_string(), "5".to_string()]);
}

#[test]
fn test_if_statement_executes_branches() {
    fn loc() -> Location {
        Location::Line("manual.lox".to_string(), 1)
    }
    // if (true) print 1; else print 2; -- built directly: the statement
    // grammar has no `if` production.
    let stmts = vec![Stmt::If(
        Expr::Literal(loc(), Literal::True),
        Box::new(Stmt::Print(Expr::Literal(loc(), Literal::Number(Number::from_raw(1_000_000))))),
        Some(Box::new(Stmt::Print(Expr::Literal(
            loc(),
            Literal::Number(Number::from_raw(2_000_000)),
        )))),
    )];
    let interpreter = Interpreter::new(stmts);
    let mut state = InterpreterState::new();
    let errors = interpreter.interpret(&mut state, FUEL);
    assert!(errors.is_empty());
    assert_eq!(state.get_writer(), &vec!["1".to_string()]);
}

#[test]
fn test_while_statement_loops() {
    fn loc() -> Location {
        Location::Line("manual.lox".to_string(), 1)
    }
    fn ident(name: &str) -> Token {
        Token::new(TokenType::Identifier(name.to_string()), loc())
    }
    fn num_lit(raw: i64) -> Expr {
        Expr::Literal(loc(), Literal::Number(Number::from_raw(raw)))
    }
    // var i = 0; while (i < 3) { print i; i = i + 1; }
    let body = Stmt::Block(vec![
        Stmt::Print(Expr::Variable(ident("i"))),
        Stmt::Expression(Expr::Assign(
            ident("i"),
            Box::new(Expr::Binary(
                Box::new(Expr::Variable(ident("i"))),
                Token::new(TokenType::Plus, loc()),
                Box::new(num_lit(1_000_000)),
            )),
        )),
    ]);
    let stmts = vec![
        Stmt::Var(ident("i"), num_lit(0)),
        Stmt::While(
            Expr::Binary(
                Box::new(Expr::Variable(ident("i"))),
                Token::new(TokenType::Less, loc()),
                Box::new(num_lit(3_000_000)),
            ),
            Box::new(body),
        ),
    ];
    let interpreter = Interpreter::new(stmts);
    let mut state = InterpreterState::new();
    let errors = interpreter.interpret(&mut state, FUEL);
    assert!(errors.is_empty());
    assert_eq!(state.get_writer(), &vec!["0".to_string(), "1".to_string(), "2".to_string()]);
}

#[test]
fn test_budget_exhaustion_is_critical() {
    fn loc() -> Location {
        Location::Line("manual.lox".to_string(), 1)
    }
    // while (true) {}
    let stmts = vec![Stmt::While(
        Expr::Literal(loc(), Literal::True),
        Box::new(Stmt::Block(Vec::new())),
    )];
    let interpreter = Interpreter::new(stmts);
    let mut state = InterpreterState::new();
    let errors = interpreter.interpret(&mut state, 50);
    assert_eq!(errors.len(), 1);
    match &errors[0] {
        LoxError::Critical(msg) => assert_eq!(msg, "Execution budget exhausted."),
        other => panic!("expected a critical error, got {:?}", other),
    }
}

#[test]
fn test_error_rendering() {
    let err = LoxError::SyntaxError(
        Location::Line("f.lox".to_string(), 3),
        "broken".to_string(),
    );
    assert_eq!(err.render(), "Syntax Error\nbroken\nLocation @ Error at -> f.lox:3");
    let eof = LoxError::RuntimeError(Location::Eof("f.lox".to_string()), "late".to_string());
    assert_eq!(eof.render(), "Runtime Error\nlate\nLocation @ Error at -> f.lox end of file.");
    let critical = LoxError::Critical("down".to_string());
    assert_eq!(critical.render(), "\nCritical Error\ndown\nNo location can be determined.");
    let syscall = LoxError::new_syscall("f.lox", 9, "sink closed".to_string());
    assert_eq!(syscall.render(), "SysCall Error\nsink closed\nLocation @ Error at -> f.lox:9");
    assert_eq!(Location::Unknown.render(), "Unknown location.");
}

#[test]
fn test_number_overflow_is_runtime_error() {
    let statements = vec![Stmt::Print(Expr::Binary(
        Box::new(Expr::Literal(
            Location::Unknown,
            Literal::Number(Number::from_raw(i64::MAX)),
        )),
        Token::new(TokenType::Plus, Location::Unknown),
        Box::new(Expr::Literal(
            Location::Unknown,
            Literal::Number(Number::from_raw(1_000_000)),
        )),
    ))];
    let interpreter = Interpreter::new(statements);
    let mut state = InterpreterState::new();
    let errors = interpreter.interpret(&mut state, FUEL);
    assert_eq!(errors.len(), 1);
    match &errors[0] {
        LoxError::RuntimeError(_, msg) => assert_eq!(msg, "Number overflow."),
        other => panic!("expected a runtime error, got {:?}", other),
    }
}
