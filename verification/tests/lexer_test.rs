use rlox_lexer::constants::NEWLINE;
use rlox_lexer::error_handler::ScanErrorKind;
use rlox_lexer::scanner::Scanner;
use rlox_lexer::token::{Literal, LiteralType, TokenType};

#[test]
fn test_scan_token_for_individual_tokens() {
    let scanner = Scanner::new("{)");
    let tokens = scanner.scan_tokens().tokens;
    assert!(tokens.get(0).is_some());
    assert_eq!(tokens.get(0).unwrap().lexeme, String::from("{"));
    assert_eq!(tokens.get(1).unwrap().lexeme, String::from(")"));
}

#[test]
fn test_scan_token_for_operators_scenario_1() {
    let scanner = Scanner::new("!=");
    let tokens = scanner.scan_tokens().tokens;
    assert_eq!(tokens.first().unwrap().kind, TokenType::BangEqual);
}

#[test]
fn test_scan_token_for_operators_scenario_2() {
    let scanner = Scanner::new("!!=");
    let tokens = scanner.scan_tokens().tokens;
    assert_eq!(tokens.first().unwrap().kind, TokenType::Bang);
    assert_eq!(tokens.get(1).unwrap().kind, TokenType::BangEqual);
}

#[test]
fn test_scan_token_for_comment() {
    let mut string = String::from("// hello world");
    string.push(NEWLINE);
    let scanner = Scanner::new(&string);
    let tokens = scanner.scan_tokens().tokens;
    // A comment produces no content token: only the end-of-stream sentinel,
    // which stands on line 2 because of the newline that ended the comment.
    assert_eq!(tokens.len(), 1);
    assert_eq!(tokens.first().unwrap().kind, TokenType::Eof);
    assert_eq!(tokens.first().unwrap().line, 2);
}

#[test]
fn test_scan_token_for_slash() {
    let mut string = String::from("/!");
    string.push(NEWLINE);
    let scanner = Scanner::new(&string);
    let tokens = scanner.scan_tokens().tokens;
    assert_eq!(tokens.get(0).unwrap().kind, TokenType::Slash);
    assert_eq!(tokens.get(1).unwrap().kind, TokenType::Bang);
}

#[test]
fn test_scan_token_for_operators() {
    let mut string = String::from("!*+-/=<> <= ==");
    string.push(NEWLINE);
    let scanner = Scanner::new(&string);
    let tokens = scanner.scan_tokens().tokens;
    let kinds: Vec<TokenType> = tokens.iter().map(|t| t.kind).collect();
    assert_eq!(
        kinds,
        vec![
            TokenType::Bang,
            TokenType::Star,
            TokenType::Plus,
            TokenType::Minus,
            TokenType::Slash,
            TokenType::Equal,
            TokenType::Less,
            TokenType::Greater,
            TokenType::LessEqual,
            TokenType::EqualEqual,
            TokenType::Eof,
        ]
    );
}

#[test]
fn test_scan_for_skipped_tokens() {
    let mut string = String::from("\t >=");
    string.push(NEWLINE);
    let scanner = Scanner::new(&string);
    let tokens = scanner.scan_tokens().tokens;
    assert_eq!(tokens.first().unwrap().kind, TokenType::GreaterEqual);
}

#[test]
fn test_string_tokens() {
    let mut string = String::from("\" Hello World!\"");
    string.push(NEWLINE);
    let scanner = Scanner::new(&string);
    let tokens = scanner.scan_tokens().tokens;
    assert_eq!(tokens.first().unwrap().kind, TokenType::String);
    assert_eq!(tokens.first().unwrap().lexeme, " Hello World!");
    assert_eq!(
        tokens.first().unwrap().literal.as_ref().unwrap(),
        &Literal { kind: LiteralType::String(String::from(" Hello World!")) }
    );
}

#[test]
fn test_numbers() {
    let mut string = String::from("126.32");
    string.push(NEWLINE);
    let scanner = Scanner::new(&string);
    let tokens = scanner.scan_tokens().tokens;
    assert_eq!(tokens.first().unwrap().kind, TokenType::Number);
    assert_eq!(tokens.first().unwrap().lexeme, "126.32");
    let literal = tokens.first().unwrap().literal.as_ref().unwrap();
    assert_eq!(literal, &Literal { kind: LiteralType::Float(String::from("126.32")) });
    // The payload text is the exact numeral: parsed, it is the floating-point
    // value 126.32.
    match &literal.kind {
        LiteralType::Float(text) => assert_eq!(text.parse::<f64>().unwrap(), 126.32),
        other => panic!("unexpected literal {:?}", other),
    }
}

#[test]
fn test_identifier() {
    let mut string = String::from("for");
    string.push('\n');
    let scanner = Scanner::new(&string);
    let tokens = scanner.scan_tokens().tokens;
    // "for" is a reserved word: it scans to its keyword kind, not to an
    // identifier.
    assert_eq!(tokens.first().unwrap().kind, TokenType::For);
    assert_eq!(tokens.first().unwrap().lexeme, "for");
}

#[test]
fn test_keyword_vs_identifier_longest_match() {
    let scanner = Scanner::new("for if\n");
    let tokens = scanner.scan_tokens().tokens;
    assert_eq!(tokens.get(0).unwrap().kind, TokenType::For);
    assert_eq!(tokens.get(1).unwrap().kind, TokenType::If);
    assert_eq!(tokens.get(2).unwrap().kind, TokenType::Eof);

    let scanner = Scanner::new("forever\n");
    let tokens = scanner.scan_tokens().tokens;
    assert_eq!(tokens.first().unwrap().kind, TokenType::Identifier);
    assert_eq!(tokens.first().unwrap().lexeme, "forever");
}

#[test]
fn test_greater_equal_maximal_munch() {
    let scanner = Scanner::new(">=");
    let tokens = scanner.scan_tokens().tokens;
    let kinds: Vec<TokenType> = tokens.iter().map(|t| t.kind).collect();
    assert_eq!(kinds, vec![TokenType::GreaterEqual, TokenType::Eof]);
}

#[test]
fn test_trailing_dot_not_consumed() {
    let scanner = Scanner::new("3.\n");
    let tokens = scanner.scan_tokens().tokens;
    assert_eq!(tokens.get(0).unwrap().kind, TokenType::Number);
    assert_eq!(tokens.get(0).unwrap().lexeme, "3");
    assert_eq!(tokens.get(1).unwrap().kind, TokenType::Dot);
    assert_eq!(tokens.get(2).unwrap().kind, TokenType::Eof);
}

#[test]
fn test_unterminated_string() {
    let scanner = Scanner::new("\"abc");
    let scanner = scanner.scan_tokens();
    assert_eq!(scanner.errors.len(), 1);
    assert_eq!(scanner.errors[0].kind, ScanErrorKind::UnterminatedString);
    assert_eq!(scanner.errors[0].line, 1);
    assert_eq!(scanner.errors[0].found, None);
    // No String token was emitted, but the sentinel still is.
    assert_eq!(scanner.tokens.len(), 1);
    assert_eq!(scanner.tokens[0].kind, TokenType::Eof);
}

#[test]
fn test_unrecognized_character() {
    let scanner = Scanner::new("@\n");
    let scanner = scanner.scan_tokens();
    assert_eq!(scanner.errors.len(), 1);
    assert_eq!(scanner.errors[0].kind, ScanErrorKind::UnrecognizedCharacter);
    assert_eq!(scanner.errors[0].line, 1);
    assert_eq!(scanner.errors[0].found, Some('@'));
    // Scanning continues: the sentinel is still emitted, on line 2.
    assert_eq!(scanner.tokens.len(), 1);
    assert_eq!(scanner.tokens[0].kind, TokenType::Eof);
    assert_eq!(scanner.tokens[0].line, 2);
}

#[test]
fn test_multi_line_string() {
    let scanner = Scanner::new("\"a\nb\"");
    let scanner = scanner.scan_tokens();
    assert!(scanner.errors.is_empty());
    assert_eq!(scanner.tokens[0].kind, TokenType::String);
    assert_eq!(scanner.tokens[0].lexeme, "a\nb");
    // The token reports the line of the opening quote; the newline inside the
    // string still advanced the counter for what follows.
    assert_eq!(scanner.tokens[0].line, 1);
    assert_eq!(scanner.tokens[1].kind, TokenType::Eof);
    assert_eq!(scanner.tokens[1].line, 2);
}

#[test]
fn test_line_tracking() {
    let scanner = Scanner::new("\n\n+");
    let tokens = scanner.scan_tokens().tokens;
    // A token appearing after two newlines reports line 3.
    assert_eq!(tokens.get(0).unwrap().kind, TokenType::Plus);
    assert_eq!(tokens.get(0).unwrap().line, 3);
    assert_eq!(tokens.get(1).unwrap().kind, TokenType::Eof);
    assert_eq!(tokens.get(1).unwrap().line, 3);
}

#[test]
fn test_empty_input_only_sentinel() {
    let scanner = Scanner::new("");
    let scanner = scanner.scan_tokens();
    assert!(scanner.errors.is_empty());
    assert_eq!(scanner.tokens.len(), 1);
    assert_eq!(scanner.tokens[0].kind, TokenType::Eof);
    assert_eq!(scanner.tokens[0].lexeme, "");
    assert_eq!(scanner.tokens[0].line, 1);
}

#[test]
fn test_comment_at_end_of_input() {
    let scanner = Scanner::new("// no newline after");
    let scanner = scanner.scan_tokens();
    assert!(scanner.errors.is_empty());
    assert_eq!(scanner.tokens.len(), 1);
    assert_eq!(scanner.tokens[0].kind, TokenType::Eof);
    assert_eq!(scanner.tokens[0].line, 1);
}

#[test]
fn test_concatenation_round_trip() {
    // Scanning two sources separately and concatenated: the concatenation
    // yields the first source's content tokens, then the second's with their
    // lines offset by the first source's newline count, then one sentinel.
    let first = "1 2\n";
    let second = "3";
    let tokens_first = Scanner::new(first).scan_tokens().tokens;
    let tokens_second = Scanner::new(second).scan_tokens().tokens;
    let combined = format!("{}{}", first, second);
    let tokens_combined = Scanner::new(&combined).scan_tokens().tokens;

    let first_lines = first.chars().filter(|c| *c == '\n').count();
    let mut expected: Vec<(TokenType, String, usize)> = Vec::new();
    for t in tokens_first[..tokens_first.len() - 1].iter() {
        expected.push((t.kind, t.lexeme.clone(), t.line));
    }
    for t in tokens_second[..tokens_second.len() - 1].iter() {
        expected.push((t.kind, t.lexeme.clone(), t.line + first_lines));
    }
    let got: Vec<(TokenType, String, usize)> = tokens_combined[..tokens_combined.len() - 1]
        .iter()
        .map(|t| (t.kind, t.lexeme.clone(), t.line))
        .collect();
    assert_eq!(got, expected);
    assert_eq!(tokens_combined.last().unwrap().kind, TokenType::Eof);
    assert_eq!(tokens_combined.last().unwrap().line, 2);
}
