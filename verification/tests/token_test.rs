use rlox_lexer::error_handler::error;
use rlox_lexer::token::{Literal, LiteralType, Token, TokenBuilder, TokenType};

#[test]
fn test_token_builder_defaults() {
    let token: Token<LiteralType> = TokenBuilder::new().build();
    assert_eq!(token.kind, TokenType::Eof);
    assert_eq!(token.lexeme, "");
    assert!(token.literal.is_none());
    assert_eq!(token.line, 0);
}

#[test]
fn test_token_builder_sets_all_fields() {
    let token: Token<LiteralType> = TokenBuilder::new()
        .kind(TokenType::Number)
        .lexeme(String::from("42"))
        .literal(Some(Literal { kind: LiteralType::Float(String::from("42")) }))
        .line(7)
        .build();
    assert_eq!(token.kind, TokenType::Number);
    assert_eq!(token.lexeme, "42");
    assert_eq!(token.literal, Some(Literal { kind: LiteralType::Float(String::from("42")) }));
    assert_eq!(token.line, 7);
}

#[test]
fn test_token_to_string() {
    let token: Token<LiteralType> = TokenBuilder::new()
        .kind(TokenType::LeftParen)
        .lexeme(String::from("("))
        .literal(None)
        .line(1)
        .build();
    assert_eq!(token.to_string(), "LeftParen \"(\" None");

    let token: Token<LiteralType> = TokenBuilder::new()
        .kind(TokenType::Number)
        .lexeme(String::from("126.32"))
        .literal(Some(Literal { kind: LiteralType::Float(String::from("126.32")) }))
        .line(3)
        .build();
    assert_eq!(token.to_string(), "Number \"126.32\" Float(126.32)");

    let token: Token<LiteralType> = TokenBuilder::new()
        .kind(TokenType::String)
        .lexeme(String::from("hi"))
        .literal(Some(Literal { kind: LiteralType::String(String::from("hi")) }))
        .line(2)
        .build();
    assert_eq!(token.to_string(), "String \"hi\" String(\"hi\")");

    let token: Token<LiteralType> = TokenBuilder::new()
        .kind(TokenType::Identifier)
        .lexeme(String::from("x"))
        .literal(Some(Literal { kind: LiteralType::Int(-12) }))
        .line(2)
        .build();
    assert_eq!(token.to_string(), "Identifier \"x\" Int(-12)");
}

#[test]
fn test_error_report_text() {
    let report = error(28, String::from("Unterminated string"));
    assert_eq!(report, "Error in line [[28]]: caused by: [[Unterminated string]]");
    let report = error(0, String::from(""));
    assert_eq!(report, "Error in line [[0]]: caused by: [[]]");
    let report = error(65535, String::from("x"));
    assert_eq!(report, "Error in line [[65535]]: caused by: [[x]]");
}
