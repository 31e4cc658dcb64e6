use lox_interpreter::errors::LoxError;
use lox_interpreter::location::Location;
use lox_interpreter::numbers::Number;
use lox_interpreter::parser::{parenthesize, parenthesize_statements, Expr, Literal, Parser, Stmt};
use lox_interpreter::runhelpers::raw_source_to_ast;
use lox_interpreter::tokens::{Token, TokenType};

fn loc(line: usize) -> Location {
    Location::Line("unittest.lox".to_string(), line)
}

fn num(raw: i64) -> TokenType {
    TokenType::Number(Number::from_raw(raw))
}

#[test]
fn test_no_token_should_be_critical_error() {
    let tokens: Vec<Token> = Vec::new();
    let mut parser = Parser::new(tokens);
    let error = LoxError::Critical("No tokens parsed.".to_string());
    let actual_error = parser.parse().unwrap_err();
    assert_eq!(actual_error, error);
}

#[test]
fn test_parenthesize() {
    // -123 * (45.67)
    let root_expr = Expr::Binary(
        Box::new(Expr::Unary(
            Token::new(TokenType::Minus, loc(1)),
            Box::new(Expr::Literal(loc(1), Literal::Number(Number::from_raw(123_000_000)))),
        )),
        Token::new(TokenType::Star, loc(1)),
        Box::new(Expr::Grouping(Box::new(Expr::Literal(
            loc(1),
            Literal::Number(Number::from_raw(45_670_000)),
        )))),
    );
    let result = parenthesize(&root_expr);
    assert_eq!(result, "(* (- 123) (group 45.67))");
}

#[test]
fn test_parenthesize_statements() {
    let statements = vec![
        Stmt::Expression(Expr::Literal(loc(1), Literal::True)),
        Stmt::Print(Expr::Literal(loc(1), Literal::Nil)),
        Stmt::Expression(Expr::Literal(loc(2), Literal::Nil)),
    ];
    let result = parenthesize_statements(&statements);
    assert_eq!(result, "true\nnil");
}

#[test]
fn test_basic_equality_expr() {
    // true == false
    let tokens = vec![
        Token::new(TokenType::True, loc(1)),
        Token::new(TokenType::EqualEqual, loc(1)),
        Token::new(TokenType::False, loc(1)),
        Token::new(TokenType::SemiColon, loc(1)),
        Token::new(TokenType::Eof, loc(1)),
    ];

    let expected_ast = vec![Stmt::Expression(Expr::Binary(
        Box::new(Expr::Literal(loc(1), Literal::True)),
        Token::new(TokenType::EqualEqual, loc(1)),
        Box::new(Expr::Literal(loc(1), Literal::False)),
    ))];

    let mut parser = Parser::new(tokens);
    let actual_ast = parser.parse();
    assert_eq!(actual_ast.unwrap(), expected_ast);
}

#[test]
fn test_basic_grouping_expr() {
    // (1 + 2)
    let tokens = vec![
        Token::new(TokenType::LeftParen, loc(1)),
        Token::new(num(1_000_000), loc(1)),
        Token::new(TokenType::Plus, loc(1)),
        Token::new(num(2_000_000), loc(1)),
        Token::new(TokenType::RightParen, loc(1)),
        Token::new(TokenType::SemiColon, loc(1)),
        Token::new(TokenType::Eof, loc(1)),
    ];

    let expected_ast = vec![Stmt::Expression(Expr::Grouping(Box::new(Expr::Binary(
        Box::new(Expr::Literal(loc(1), Literal::Number(Number::from_raw(1_000_000)))),
        Token::new(TokenType::Plus, loc(1)),
        Box::new(Expr::Literal(loc(1), Literal::Number(Number::from_raw(2_000_000)))),
    ))))];

    let mut parser = Parser::new(tokens);
    let actual_ast = parser.parse();
    assert_eq!(actual_ast.unwrap(), expected_ast);
}

#[test]
fn test_math_expression_to_ast() {
    // (1 + 2) * 3 == 9
    let tokens = vec![
        Token::new(TokenType::LeftParen, loc(1)),
        Token::new(num(1_000_000), loc(1)),
        Token::new(TokenType::Plus, loc(1)),
        Token::new(num(2_000_000), loc(1)),
        Token::new(TokenType::RightParen, loc(1)),
        Token::new(TokenType::Star, loc(1)),
        Token::new(num(3_000_000), loc(1)),
        Token::new(TokenType::EqualEqual, loc(1)),
        Token::new(num(9_000_000), loc(1)),
        Token::new(TokenType::SemiColon, loc(1)),
        Token::new(TokenType::Eof, loc(1)),
    ];

    let expected_ast = vec![Stmt::Expression(Expr::Binary(
        Box::new(Expr::Binary(
            Box::new(Expr::Grouping(Box::new(Expr::Binary(
                Box::new(Expr::Literal(loc(1), Literal::Number(Number::from_raw(1_000_000)))),
                Token::new(TokenType::Plus, loc(1)),
                Box::new(Expr::Literal(loc(1), Literal::Number(Number::from_raw(2_000_000)))),
            )))),
            Token::new(TokenType::Star, loc(1)),
            Box::new(Expr::Literal(loc(1), Literal::Number(Number::from_raw(3_000_000)))),
        )),
        Token::new(TokenType::EqualEqual, loc(1)),
        Box::new(Expr::Literal(loc(1), Literal::Number(Number::from_raw(9_000_000)))),
    ))];

    let mut parser = Parser::new(tokens);
    let actual_ast = parser.parse();
    assert_eq!(actual_ast.unwrap(), expected_ast);
}

#[test]
fn test_expression_to_ast() {
    fn iloc(line: usize) -> Location {
        Location::Line("integration-test.lox".to_string(), line)
    }
    let s = "(1 + 2) / 3 == 1;";
    let ast_result = raw_source_to_ast(s, "integration-test.lox");
    let ast = vec![Stmt::Expression(Expr::Binary(
        Box::new(Expr::Binary(
            Box::new(Expr::Grouping(Box::new(Expr::Binary(
                Box::new(Expr::Literal(iloc(1), Literal::Number(Number::from_raw(1_000_000)))),
                Token::new(TokenType::Plus, iloc(1)),
                Box::new(Expr::Literal(iloc(1), Literal::Number(Number::from_raw(2_000_000)))),
            )))),
            Token::new(TokenType::Slash, iloc(1)),
            Box::new(Expr::Literal(iloc(1), Literal::Number(Number::from_raw(3_000_000)))),
        )),
        Token::new(TokenType::EqualEqual, iloc(1)),
        Box::new(Expr::Literal(iloc(1), Literal::Number(Number::from_raw(1_000_000)))),
    ))];
    assert_eq!(ast_result.unwrap(), ast);
}

#[test]
fn test_variable_declaration() {
    let s = "var foo;";
    let ast_result = raw_source_to_ast(s, "integration-test.lox");
    let iloc = Location::Line("integration-test.lox".to_string(), 1);
    let ast = vec![Stmt::Var(
        Token::new(TokenType::Identifier("foo".to_string()), iloc.clone()),
        Expr::Literal(iloc, Literal::Nil),
    )];
    assert_eq!(ast_result.unwrap(), ast);
}

#[test]
fn test_invalid_assignment_target() {
    let result = raw_source_to_ast("1 = 2;", "unittest.lox");
    match result {
        Err(LoxError::RuntimeError(_, msg)) => {
            assert_eq!(msg, "Invalid assignment target");
        }
        other => panic!("expected a runtime error, got {:?}", other),
    }
}

#[test]
fn test_parser_recovers_at_statement_boundaries() {
    // The first statement is broken; the parser synchronizes past it,
    // parses the rest, and reports the first error found.
    let result = raw_source_to_ast("1 = 2; var ok = 3; print ok;", "unittest.lox");
    match result {
        Err(LoxError::RuntimeError(_, msg)) => {
            assert_eq!(msg, "Invalid assignment target");
        }
        other => panic!("expected the first error back, got {:?}", other),
    }
}

#[test]
fn test_missing_paren_is_syntax_error() {
    let result = raw_source_to_ast("(1 + 2;", "unittest.lox");
    assert!(matches!(result, Err(LoxError::SyntaxError(_, _))));
}

#[test]
fn test_missing_brace_is_syntax_error() {
    let result = raw_source_to_ast("{ var a = 1;", "unittest.lox");
    assert!(matches!(result, Err(LoxError::SyntaxError(_, _))));
}

#[test]
fn test_block_statement_parses() {
    let ast = raw_source_to_ast("{ var a = 1; a = 2; }", "unittest.lox").unwrap();
    assert_eq!(ast.len(), 1);
    match &ast[0] {
        Stmt::Block(inner) => assert_eq!(inner.len(), 2),
        other => panic!("expected a block, got {:?}", other),
    }
}

#[test]
fn test_logical_operators_parse() {
    let ast = raw_source_to_ast("true or false and true;", "unittest.lox").unwrap();
    assert_eq!(ast.len(), 1);
    match &ast[0] {
        Stmt::Expression(Expr::Logical(_, op, _)) => {
            assert_eq!(op.token_type, TokenType::Or);
        }
        other => panic!("expected a logical expression, got {:?}", other),
    }
}
