use rlox_lexer::constants::keyword_kind;
use rlox_lexer::run;
use rlox_lexer::scanner::Scanner;
use rlox_lexer::token::TokenType;

#[test]
fn test_scan_token() {
    let scanner = Scanner::new("{)");
    let tokens = scanner.scan_tokens().tokens;
    assert!(tokens.get(0).is_some());
    assert_eq!(tokens.get(0).unwrap().lexeme, String::from("{"));
    assert_eq!(tokens.get(1).unwrap().lexeme, String::from(")"));
}

#[test]
fn test_is_digit() {
    let string = String::from("1231.12");
    let scanner = Scanner::new(&string);
    let truth_value = scanner.is_digit(&'3');
    assert!(truth_value);
}

#[test]
fn test_partial_number() {
    let string = String::from("126.32");
    let mut scanner = Scanner::new(&string);
    let mut resulting_vector: Vec<char> = vec![];
    scanner.partial_number(&mut resulting_vector);
    let result = String::from_iter(resulting_vector);
    assert_eq!(result, "126");
}

#[test]
fn test_is_alpha() {
    let mut string = String::from("test");
    string.push('\n');
    let scanner = Scanner::new(&string);
    assert!(scanner.is_alpha(&'a'));
    assert!(!scanner.is_alpha(&'!'));
    assert!(!scanner.is_alpha(&'3'));
}

#[test]
fn test_seek() {
    let mut scanner = Scanner::new("abc");
    scanner.seek();
    assert_eq!(scanner.current_ptr, 1);
    assert_eq!(scanner.peek(), Some('b'));
}

#[test]
fn test_seek_with_add() {
    let mut scanner = Scanner::new("abc");
    let mut vector = Vec::new();
    scanner.seek_with_add(&mut vector);
    assert_eq!(vector, vec!['a']);
    assert_eq!(scanner.current_ptr, 1);
    assert_eq!(scanner.peek(), Some('b'));
}

#[test]
fn test_seek_until() {
    let mut scanner = Scanner::new("abcdef");
    scanner.seek_until('d');
    // Seeking until 'd' stops on it: the terminal character is not consumed.
    assert_eq!(scanner.current_ptr, 3);
    assert_eq!(scanner.peek(), Some('d'));
}

#[test]
fn test_is_at_end() {
    let mut scanner = Scanner::new("a");
    assert!(!scanner.is_at_end());
    scanner.seek();
    // After seeking past the only character, scanner should be at end
    assert!(scanner.is_at_end());
}

#[test]
fn test_advance() {
    let mut scanner = Scanner::new("ab");
    assert_eq!(scanner.advance(), Some('a'));
    assert_eq!(scanner.advance(), Some('b'));
    assert_eq!(scanner.advance(), None);
}

#[test]
fn test_peek_next() {
    let scanner = Scanner::new("ab");
    assert_eq!(scanner.peek_next(), Some('b'));
    let scanner = Scanner::new("a");
    assert_eq!(scanner.peek_next(), None);
}

#[test]
fn test_every_single_character_token() {
    let cases = [
        ("(", TokenType::LeftParen),
        (")", TokenType::RightParen),
        ("{", TokenType::LeftBrace),
        ("}", TokenType::RightBrace),
        (",", TokenType::Comma),
        (".", TokenType::Dot),
        ("-", TokenType::Minus),
        ("+", TokenType::Plus),
        (";", TokenType::SemiColon),
        ("*", TokenType::Star),
    ];
    for (text, kind) in cases.iter() {
        let scanner = Scanner::new(text);
        let scanner = scanner.scan_tokens();
        assert!(scanner.errors.is_empty());
        assert_eq!(scanner.tokens.len(), 2);
        assert_eq!(scanner.tokens[0].kind, *kind);
        assert_eq!(scanner.tokens[0].lexeme, *text);
        assert!(scanner.tokens[0].literal.is_none());
        assert_eq!(scanner.tokens[0].line, 1);
        assert_eq!(scanner.tokens[1].kind, TokenType::Eof);
    }
}

#[test]
fn test_every_keyword() {
    let source = "and class else false for fun if nil or print return super this true var while\n";
    let tokens = Scanner::new(source).scan_tokens().tokens;
    let kinds: Vec<TokenType> = tokens.iter().map(|t| t.kind).collect();
    assert_eq!(
        kinds,
        vec![
            TokenType::And,
            TokenType::Class,
            TokenType::Else,
            TokenType::False,
            TokenType::For,
            TokenType::Fun,
            TokenType::If,
            TokenType::Nil,
            TokenType::Or,
            TokenType::Print,
            TokenType::Return,
            TokenType::Super,
            TokenType::This,
            TokenType::True,
            TokenType::Var,
            TokenType::While,
            TokenType::Eof,
        ]
    );
}

#[test]
fn test_identifier_beyond_ascii() {
    // An alphabetic character outside ASCII belongs to an identifier run.
    let scanner = Scanner::new("h\u{00e9}llo\n");
    let tokens = scanner.scan_tokens().tokens;
    assert_eq!(tokens.first().unwrap().kind, TokenType::Identifier);
    assert_eq!(tokens.first().unwrap().lexeme, "h\u{00e9}llo");
}

#[test]
fn test_integer_number_payload() {
    // An integer literal still carries a number payload: its exact numeral.
    let tokens = Scanner::new("126\n").scan_tokens().tokens;
    assert_eq!(tokens.first().unwrap().kind, TokenType::Number);
    assert_eq!(tokens.first().unwrap().lexeme, "126");
}

#[test]
fn test_run_returns_tokens_with_sentinel() {
    let tokens = run("2 + 2.1\n");
    assert_eq!(tokens.len(), 4);
    assert_eq!(tokens[0].kind, TokenType::Number);
    assert_eq!(tokens[1].kind, TokenType::Plus);
    assert_eq!(tokens[2].kind, TokenType::Number);
    assert_eq!(tokens[2].lexeme, "2.1");
    assert_eq!(tokens[3].kind, TokenType::Eof);
    assert_eq!(tokens[3].line, 2);
}

#[test]
fn test_keyword_kind_lookup() {
    assert_eq!(keyword_kind(&vec!['f', 'o', 'r']), Some(TokenType::For));
    assert_eq!(keyword_kind(&vec!['o', 'r']), Some(TokenType::Or));
    assert_eq!(keyword_kind(&vec!['f', 'o', 'r', 'e']), None);
    assert_eq!(keyword_kind(&vec!['F', 'o', 'r']), None);
    assert_eq!(keyword_kind(&vec![]), None);
}

#[test]
fn test_prepare_lexeme_for_id() {
    let scanner = Scanner::new("x");
    let (kind, lexeme) = scanner.prepare_lexeme_for_id(vec!['w', 'h', 'i', 'l', 'e']);
    assert_eq!(kind, TokenType::While);
    assert_eq!(lexeme, "while");
    let (kind, lexeme) = scanner.prepare_lexeme_for_id(vec!['w', 'h', 'o']);
    assert_eq!(kind, TokenType::Identifier);
    assert_eq!(lexeme, "who");
}
