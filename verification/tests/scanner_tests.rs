use lox::location::SourceLocation;
use lox::scanner::Scanner;
use lox::token::{Literal, TokenItem, TokenType};

fn basic(ttype: TokenType, lexeme: &str, line: usize, pos: usize) -> TokenItem {
    TokenItem { ttype, lexeme: lexeme.to_string(), literal: None, location: SourceLocation::new(line, pos) }
}

#[test]
fn test_scanner() {
    let tokens = Scanner::new().scan("var x = 5;").unwrap();
    assert_eq!(
        tokens,
        vec![
            basic(TokenType::Var, "var", 1, 0),
            basic(TokenType::Identifier, "x", 1, 4),
            basic(TokenType::Equal, "=", 1, 6),
            TokenItem {
                ttype: TokenType::Number,
                lexeme: "5".to_string(),
                literal: Some(Literal::Number(5.0f64.to_bits())),
                location: SourceLocation::new(1, 8),
            },
            basic(TokenType::Semicolon, ";", 1, 9),
            basic(TokenType::EoF, "", 1, 10),
        ]
    );
}

#[test]
fn test_scanner_number() {
    let tokens = Scanner::new().scan("var x = 5.5;").unwrap();
    assert_eq!(
        tokens,
        vec![
            basic(TokenType::Var, "var", 1, 0),
            basic(TokenType::Identifier, "x", 1, 4),
            basic(TokenType::Equal, "=", 1, 6),
            TokenItem {
                ttype: TokenType::Number,
                lexeme: "5.5".to_string(),
                literal: Some(Literal::Number(5.5f64.to_bits())),
                location: SourceLocation::new(1, 8),
            },
            basic(TokenType::Semicolon, ";", 1, 11),
            basic(TokenType::EoF, "", 1, 12),
        ]
    );
    let tokens = Scanner::new().scan("var x = 5.5.5;").unwrap();
    assert_eq!(
        tokens,
        vec![
            basic(TokenType::Var, "var", 1, 0),
            basic(TokenType::Identifier, "x", 1, 4),
            basic(TokenType::Equal, "=", 1, 6),
            TokenItem {
                ttype: TokenType::Number,
                lexeme: "5.5".to_string(),
                literal: Some(Literal::Number(5.5f64.to_bits())),
                location: SourceLocation::new(1, 8),
            },
            basic(TokenType::Dot, ".", 1, 11),
            TokenItem {
                ttype: TokenType::Number,
                lexeme: "5".to_string(),
                literal: Some(Literal::Number(5.0f64.to_bits())),
                location: SourceLocation::new(1, 12),
            },
            basic(TokenType::Semicolon, ";", 1, 13),
            basic(TokenType::EoF, "", 1, 14),
        ]
    );
}

#[test]
fn test_scanner_multiline_comment() {
    let tokens = Scanner::new()
        .scan("/* /* this is a\n multiline */ comment */hello")
        .unwrap();
    assert_eq!(
        tokens,
        vec![
            basic(TokenType::Identifier, "hello", 2, 24),
            basic(TokenType::EoF, "", 2, 29),
        ]
    );
}

#[test]
fn test_scanner_string() {
    let tokens = Scanner::new().scan("var x = \"hello world\";").unwrap();
    assert_eq!(
        tokens,
        vec![
            basic(TokenType::Var, "var", 1, 0),
            basic(TokenType::Identifier, "x", 1, 4),
            basic(TokenType::Equal, "=", 1, 6),
            TokenItem {
                ttype: TokenType::String,
                lexeme: "\"hello world\"".to_string(),
                literal: Some(Literal::String("hello world".to_string())),
                location: SourceLocation::new(1, 8),
            },
            basic(TokenType::Semicolon, ";", 1, 21),
            basic(TokenType::EoF, "", 1, 22),
        ]
    );
    let tokens = Scanner::new().scan("\"hello\nworld\"").unwrap();
    assert_eq!(
        tokens,
        vec![
            TokenItem {
                ttype: TokenType::String,
                lexeme: "\"hello\nworld\"".to_string(),
                literal: Some(Literal::String("hello\nworld".to_string())),
                location: SourceLocation::new(1, 0),
            },
            basic(TokenType::EoF, "", 2, 6),
        ]
    );
}

#[test]
fn test_scanner_collects_errors() {
    let errs = Scanner::new().scan("var @ \"open").unwrap_err();
    assert_eq!(errs.len(), 2);
    assert!(matches!(errs[0], lox::scanner::Error::UnexpectedCharacter { c: '@', .. }));
    assert!(matches!(errs[1], lox::scanner::Error::UnterminatedString { .. }));
}

#[test]
fn test_scanner_unterminated_comment() {
    let errs = Scanner::new().scan("/* never closed").unwrap_err();
    assert!(matches!(errs[0], lox::scanner::Error::UnterminatedComment { .. }));
}

#[test]
fn test_keywords() {
    assert_eq!(TokenType::from_string("while"), Some(TokenType::While));
    assert_eq!(TokenType::from_string("fun"), Some(TokenType::Fun));
    assert_eq!(TokenType::from_string("whale"), None);
}

#[test]
fn test_location_merge() {
    let mut a = SourceLocation::new(3, 7);
    a.merge(SourceLocation::new(0, 5));
    assert_eq!(a, SourceLocation::new(3, 12));
    let mut b = SourceLocation::new(3, 7);
    b.merge(SourceLocation::new(2, 4));
    assert_eq!(b, SourceLocation::new(5, 4));
}
