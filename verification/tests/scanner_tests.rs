use lox_interpreter::location::Location;
use lox_interpreter::numbers::Number;
use lox_interpreter::scanner::{is_valid_for_identifier, is_valid_for_number, SourceCode};
use lox_interpreter::tokens::{Token, TokenType};

fn loc(line: usize) -> Location {
    Location::Line("unittest.lox".to_string(), line)
}

fn num(raw: i64) -> TokenType {
    TokenType::Number(Number::from_raw(raw))
}

#[test]
fn test_token_type_equality() {
    assert_eq!(
        TokenType::String("Hello world!".to_string()),
        TokenType::String("Hello world!".to_string())
    );

    assert_ne!(
        TokenType::String("Hello world!".to_string()),
        TokenType::String("Hello not world!".to_string())
    );
}

#[test]
fn test_scan_tokens_multiple_tokens() {
    let mut source = SourceCode::new("+  - /", "unittest.lox".to_string());
    let tokens = source.scan_tokens();
    assert_eq!(
        tokens,
        vec![
            Token::new(TokenType::Plus, loc(1)),
            Token::new(TokenType::Minus, loc(1)),
            Token::new(TokenType::Slash, loc(1)),
            Token::new(TokenType::Eof, loc(1))
        ]
    );
}

#[test]
fn test_scan_tokens_comment() {
    let mut source = SourceCode::new("+ == // **\n!!", "unittest.lox".to_string());
    let tokens = source.scan_tokens();
    assert_eq!(
        tokens,
        vec![
            Token::new(TokenType::Plus, loc(1)),
            Token::new(TokenType::EqualEqual, loc(1)),
            Token::new(TokenType::Bang, loc(2)),
            Token::new(TokenType::Bang, loc(2)),
            Token::new(TokenType::Eof, loc(2))
        ]
    );
}

#[test]
fn test_scan_string_literal() {
    let mut source = SourceCode::new("\"Hello world!\" ;", "unittest.lox".to_string());
    let tokens = source.scan_tokens();
    assert_eq!(
        tokens,
        vec![
            Token::new(TokenType::String("Hello world!".to_string()), loc(1)),
            Token::new(TokenType::SemiColon, loc(1)),
            Token::new(TokenType::Eof, loc(1))
        ]
    );
}

#[test]
fn test_scan_number_literal() {
    let mut source = SourceCode::new("\"string 123.0\" 123.0;", "unittest.lox".to_string());
    let tokens = source.scan_tokens();
    assert_eq!(
        tokens,
        vec![
            Token::new(TokenType::String("string 123.0".to_string()), loc(1)),
            Token::new(num(123_000_000), loc(1)),
            Token::new(TokenType::SemiColon, loc(1)),
            Token::new(TokenType::Eof, loc(1))
        ]
    );
}

#[test]
fn test_scan_number_literal_2() {
    let mut source = SourceCode::new("12.3+0.0;", "unittest.lox".to_string());
    let tokens = source.scan_tokens();
    assert_eq!(
        tokens,
        vec![
            Token::new(num(12_300_000), loc(1)),
            Token::new(TokenType::Plus, loc(1)),
            Token::new(num(0), loc(1)),
            Token::new(TokenType::SemiColon, loc(1)),
            Token::new(TokenType::Eof, loc(1))
        ]
    );
}

#[test]
fn test_hello_world_line() {
    let mut source = SourceCode::new("var string = \"Hello world!\";", "unittest.lox".to_string());
    let tokens = source.scan_tokens();
    assert_eq!(
        tokens,
        vec![
            Token::new(TokenType::Var, loc(1)),
            Token::new(TokenType::Identifier("string".to_string()), loc(1)),
            Token::new(TokenType::Equal, loc(1)),
            Token::new(TokenType::String("Hello world!".to_string()), loc(1)),
            Token::new(TokenType::SemiColon, loc(1)),
            Token::new(TokenType::Eof, loc(1))
        ]
    );
}

#[test]
fn test_scan_math_expression() {
    let mut source = SourceCode::new("(1+2) * 3 \n == 9", "unittest.lox".to_string());
    let tokens = source.scan_tokens();
    assert_eq!(
        tokens,
        vec![
            Token::new(TokenType::LeftParen, loc(1)),
            Token::new(num(1_000_000), loc(1)),
            Token::new(TokenType::Plus, loc(1)),
            Token::new(num(2_000_000), loc(1)),
            Token::new(TokenType::RightParen, loc(1)),
            Token::new(TokenType::Star, loc(1)),
            Token::new(num(3_000_000), loc(1)),
            Token::new(TokenType::EqualEqual, loc(2)),
            Token::new(num(9_000_000), loc(2)),
            Token::new(TokenType::Eof, loc(2))
        ]
    );
}

#[test]
fn test_scan_function_declaration() {
    let mut source = SourceCode::new("fun foo(){}", "unittest.lox".to_string());
    let tokens = source.scan_tokens();
    assert_eq!(
        tokens,
        vec![
            Token::new(TokenType::Fun, loc(1)),
            Token::new(TokenType::Identifier("foo".to_string()), loc(1)),
            Token::new(TokenType::LeftParen, loc(1)),
            Token::new(TokenType::RightParen, loc(1)),
            Token::new(TokenType::LeftBrace, loc(1)),
            Token::new(TokenType::RightBrace, loc(1)),
            Token::new(TokenType::Eof, loc(1))
        ]
    );
}

#[test]
fn test_scan_function_body() {
    let mut source = SourceCode::new(
        "fun underscores_are_valid() {\n    // comment on a line\n    var foo = \"baz\"; // comment after line\n    (1+2) }\n        ",
        "unittest.lox".to_string(),
    );
    let tokens = source.scan_tokens();
    assert_eq!(
        tokens,
        vec![
            Token::new(TokenType::Fun, loc(1)),
            Token::new(TokenType::Identifier("underscores_are_valid".to_string()), loc(1)),
            Token::new(TokenType::LeftParen, loc(1)),
            Token::new(TokenType::RightParen, loc(1)),
            Token::new(TokenType::LeftBrace, loc(1)),
            Token::new(TokenType::Var, loc(3)),
            Token::new(TokenType::Identifier("foo".to_string()), loc(3)),
            Token::new(TokenType::Equal, loc(3)),
            Token::new(TokenType::String("baz".to_string()), loc(3)),
            Token::new(TokenType::SemiColon, loc(3)),
            Token::new(TokenType::LeftParen, loc(4)),
            Token::new(num(1_000_000), loc(4)),
            Token::new(TokenType::Plus, loc(4)),
            Token::new(num(2_000_000), loc(4)),
            Token::new(TokenType::RightParen, loc(4)),
            Token::new(TokenType::RightBrace, loc(4)),
            Token::new(TokenType::Eof, loc(5))
        ]
    );
}

#[test]
fn test_two_char_operator_greediness() {
    let mut source = SourceCode::new("!=", "unittest.lox".to_string());
    let tokens = source.scan_tokens();
    assert_eq!(
        tokens,
        vec![
            Token::new(TokenType::BangEqual, loc(1)),
            Token::new(TokenType::Eof, loc(1))
        ]
    );

    let mut bare = SourceCode::new("!", "unittest.lox".to_string());
    let tokens = bare.scan_tokens();
    assert_eq!(
        tokens,
        vec![Token::new(TokenType::Bang, loc(1)), Token::new(TokenType::Eof, loc(1))]
    );
}

#[test]
fn test_unterminated_string_is_an_error() {
    let mut source = SourceCode::new("\"abc\n", "unittest.lox".to_string());
    let tokens = source.scan_tokens();
    assert!(source.had_error);
    assert_eq!(source.line, 2);
    assert_eq!(tokens, vec![Token::new(TokenType::Eof, loc(2))]);
}

#[test]
fn test_unexpected_character_is_an_error() {
    let mut source = SourceCode::new("#+", "unittest.lox".to_string());
    let tokens = source.scan_tokens();
    assert!(source.had_error);
    assert_eq!(
        tokens,
        vec![Token::new(TokenType::Plus, loc(1)), Token::new(TokenType::Eof, loc(1))]
    );
}

#[test]
fn test_malformed_number_is_an_error() {
    let mut source = SourceCode::new("1.2.3;", "unittest.lox".to_string());
    let tokens = source.scan_tokens();
    assert!(source.had_error);
    assert_eq!(
        tokens,
        vec![
            Token::new(TokenType::SemiColon, loc(1)),
            Token::new(TokenType::Eof, loc(1))
        ]
    );
}

#[test]
fn test_character_classes() {
    assert!(is_valid_for_identifier('a'));
    assert!(is_valid_for_identifier('Z'));
    assert!(is_valid_for_identifier('0'));
    assert!(is_valid_for_identifier('_'));
    assert!(!is_valid_for_identifier('?'));
    assert!(!is_valid_for_identifier('-'));
    assert!(is_valid_for_number('7'));
    assert!(is_valid_for_number('.'));
    assert!(!is_valid_for_number('x'));
}
