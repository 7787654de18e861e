//! The token data model: token kinds, literal payloads, tokens, and the
//! builder that assembles them. Each executable type has a mathematical view
//! used by the scanner's contracts.

use vstd::prelude::*;
use vstd::string::StringExecFns;
use crate::text::{int_decimal, push_char, spec_int_decimal};

verus! {

/// Different types of tokens.
#[derive(Clone, Copy, Debug, PartialEq, Eq, Structural)]
pub enum TokenType {
    // Single-character tokens.
    LeftParen,
    RightParen,
    LeftBrace,
    RightBrace,
    Comma,
    Dot,
    Minus,
    Plus,
    SemiColon,
    Slash,
    Eof,
    Star,
    // One or two character tokens.
    Bang,
    BangEqual,
    Equal,
    EqualEqual,
    Greater,
    GreaterEqual,
    Less,
    LessEqual,
    // Literals.
    Identifier,
    String,
    Number,
    // Keywords.
    And,
    Class,
    Else,
    False,
    Fun,
    For,
    If,
    Nil,
    Or,
    Print,
    Return,
    Super,
    This,
    True,
    Var,
    While,
}

/// The payload attached to a literal token, distinct from its lexeme.
///
/// Floating-point values cannot appear in verified code, so a number literal
/// keeps its exact decimal numeral text; a consumer that wants the numeric
/// value parses that text.
#[derive(Clone, Debug, PartialEq, Eq)]
pub enum LiteralType {
    String(String),
    Int(i32),
    Float(String),
}

/// The mathematical value of a [`LiteralType`].
pub enum SpecLiteral {
    String(Seq<char>),
    Int(i32),
    Float(Seq<char>),
}

impl View for LiteralType {
    type V = SpecLiteral;

    open spec fn view(&self) -> SpecLiteral {
        match self {
            LiteralType::String(s) => SpecLiteral::String(s@),
            LiteralType::Int(i) => SpecLiteral::Int(*i),
            LiteralType::Float(s) => SpecLiteral::Float(s@),
        }
    }
}

/// Wrapper holding a literal payload.
#[derive(Clone, Debug, PartialEq, Eq)]
pub struct Literal<T> {
    pub kind: T,
}

/// Token type for lexical analysis.
#[derive(Clone, Debug)]
pub struct Token<T> {
    /// Type of the token. `kind` is used here as `type` is a reserved word in Rust.
    pub kind: TokenType,
    /// The exact source substring matched for this token.
    pub lexeme: String,
    /// `None` for most tokens; string and number literals carry their payload here.
    pub literal: Option<Literal<T>>,
    /// 1-based source line on which the token started.
    pub line: usize,
}

/// The mathematical value of a [`Token`].
pub struct SpecToken {
    pub kind: TokenType,
    pub lexeme: Seq<char>,
    pub literal: Option<SpecLiteral>,
    pub line: int,
}

impl View for Token<LiteralType> {
    type V = SpecToken;

    open spec fn view(&self) -> SpecToken {
        SpecToken {
            kind: self.kind,
            lexeme: self.lexeme@,
            literal: match self.literal {
                Some(l) => Some(l.kind@),
                None => None,
            },
            line: self.line as int,
        }
    }
}

/// The views of a sequence of tokens, element by element.
pub open spec fn token_views(ts: Seq<Token<LiteralType>>) -> Seq<SpecToken> {
    ts.map_values(|t: Token<LiteralType>| t@)
}

/// A fluent builder for [`Token`] values.
#[derive(Debug)]
pub struct TokenBuilder<T> {
    pub kind: TokenType,
    pub lexeme: String,
    pub literal: Option<Literal<T>>,
    pub line: usize,
}

impl<T> TokenBuilder<T> {
    pub fn new() -> (r: TokenBuilder<T>)
        ensures
            r.kind == TokenType::Eof,
            r.lexeme@ == Seq::<char>::empty(),
            r.literal is None,
            r.line == 0,
    {
        TokenBuilder { kind: TokenType::Eof, lexeme: String::new(), literal: None, line: 0 }
    }

    pub fn kind(self, kind: TokenType) -> (r: Self)
        ensures
            r.kind == kind,
            r.lexeme == self.lexeme,
            r.literal == self.literal,
            r.line == self.line,
    {
        TokenBuilder { kind, ..self }
    }

    pub fn lexeme(self, lexeme: String) -> (r: Self)
        ensures
            r.kind == self.kind,
            r.lexeme == lexeme,
            r.literal == self.literal,
            r.line == self.line,
    {
        TokenBuilder { lexeme, ..self }
    }

    pub fn literal(self, literal: Option<Literal<T>>) -> (r: Self)
        ensures
            r.kind == self.kind,
            r.lexeme == self.lexeme,
            r.literal == literal,
            r.line == self.line,
    {
        TokenBuilder { literal, ..self }
    }

    pub fn line(self, line: usize) -> (r: Self)
        ensures
            r.kind == self.kind,
            r.lexeme == self.lexeme,
            r.literal == self.literal,
            r.line == line,
    {
        TokenBuilder { line, ..self }
    }

    pub fn build(self) -> (r: Token<T>)
        ensures
            r.kind == self.kind,
            r.lexeme == self.lexeme,
            r.literal == self.literal,
            r.line == self.line,
    {
        Token { kind: self.kind, lexeme: self.lexeme, literal: self.literal, line: self.line }
    }
}

/// The displayed name of a token kind.
pub open spec fn spec_kind_name(k: TokenType) -> Seq<char> {
    match k {
        TokenType::LeftParen => "LeftParen"@,
        TokenType::RightParen => "RightParen"@,
        TokenType::LeftBrace => "LeftBrace"@,
        TokenType::RightBrace => "RightBrace"@,
        TokenType::Comma => "Comma"@,
        TokenType::Dot => "Dot"@,
        TokenType::Minus => "Minus"@,
        TokenType::Plus => "Plus"@,
        TokenType::SemiColon => "SemiColon"@,
        TokenType::Slash => "Slash"@,
        TokenType::Eof => "Eof"@,
        TokenType::Star => "Star"@,
        TokenType::Bang => "Bang"@,
        TokenType::BangEqual => "BangEqual"@,
        TokenType::Equal => "Equal"@,
        TokenType::EqualEqual => "EqualEqual"@,
        TokenType::Greater => "Greater"@,
        TokenType::GreaterEqual => "GreaterEqual"@,
        TokenType::Less => "Less"@,
        TokenType::LessEqual => "LessEqual"@,
        TokenType::Identifier => "Identifier"@,
        TokenType::String => "String"@,
        TokenType::Number => "Number"@,
        TokenType::And => "And"@,
        TokenType::Class => "Class"@,
        TokenType::Else => "Else"@,
        TokenType::False => "False"@,
        TokenType::Fun => "Fun"@,
        TokenType::For => "For"@,
        TokenType::If => "If"@,
        TokenType::Nil => "Nil"@,
        TokenType::Or => "Or"@,
        TokenType::Print => "Print"@,
        TokenType::Return => "Return"@,
        TokenType::Super => "Super"@,
        TokenType::This => "This"@,
        TokenType::True => "True"@,
        TokenType::Var => "Var"@,
        TokenType::While => "While"@,
    }
}

/// The displayed form of an optional literal payload.
pub open spec fn spec_literal_display(l: Option<SpecLiteral>) -> Seq<char> {
    match l {
        None => "None"@,
        Some(SpecLiteral::String(s)) => "String(\""@ + s + "\")"@,
        Some(SpecLiteral::Int(i)) => "Int("@ + spec_int_decimal(i as int) + ")"@,
        Some(SpecLiteral::Float(s)) => "Float("@ + s + ")"@,
    }
}

/// The displayed form of a token: its kind, its lexeme in quotes, and its
/// literal payload.
pub open spec fn spec_token_display(t: SpecToken) -> Seq<char> {
    spec_kind_name(t.kind) + seq![' ', '"'] + t.lexeme + seq!['"', ' '] + spec_literal_display(
        t.literal,
    )
}

/// The displayed name of a token kind.
pub fn kind_name(k: TokenType) -> (r: &'static str)
    ensures
        r@ == spec_kind_name(k),
{
    match k {
        TokenType::LeftParen => "LeftParen",
        TokenType::RightParen => "RightParen",
        TokenType::LeftBrace => "LeftBrace",
        TokenType::RightBrace => "RightBrace",
        TokenType::Comma => "Comma",
        TokenType::Dot => "Dot",
        TokenType::Minus => "Minus",
        TokenType::Plus => "Plus",
        TokenType::SemiColon => "SemiColon",
        TokenType::Slash => "Slash",
        TokenType::Eof => "Eof",
        TokenType::Star => "Star",
        TokenType::Bang => "Bang",
        TokenType::BangEqual => "BangEqual",
        TokenType::Equal => "Equal",
        TokenType::EqualEqual => "EqualEqual",
        TokenType::Greater => "Greater",
        TokenType::GreaterEqual => "GreaterEqual",
        TokenType::Less => "Less",
        TokenType::LessEqual => "LessEqual",
        TokenType::Identifier => "Identifier",
        TokenType::String => "String",
        TokenType::Number => "Number",
        TokenType::And => "And",
        TokenType::Class => "Class",
        TokenType::Else => "Else",
        TokenType::False => "False",
        TokenType::Fun => "Fun",
        TokenType::For => "For",
        TokenType::If => "If",
        TokenType::Nil => "Nil",
        TokenType::Or => "Or",
        TokenType::Print => "Print",
        TokenType::Return => "Return",
        TokenType::Super => "Super",
        TokenType::This => "This",
        TokenType::True => "True",
        TokenType::Var => "Var",
        TokenType::While => "While",
    }
}

impl Token<LiteralType> {
    /// Displays the token as a string (for debugging purposes).
    pub fn to_string(&self) -> (r: String)
        ensures
            r@ == spec_token_display(self@),
    {
        let mut r = String::from_str(kind_name(self.kind));
        push_char(&mut r, ' ');
        push_char(&mut r, '"');
        r.append(self.lexeme.as_str());
        push_char(&mut r, '"');
        push_char(&mut r, ' ');
        match &self.literal {
            None => {
                r.append("None");
            },
            Some(l) => {
                match &l.kind {
                    LiteralType::String(s) => {
                        r.append("String(\"");
                        r.append(s.as_str());
                        r.append("\")");
                    },
                    LiteralType::Int(i) => {
                        r.append("Int(");
                        let digits = int_decimal(*i);
                        r.append(digits.as_str());
                        r.append(")");
                    },
                    LiteralType::Float(s) => {
                        r.append("Float(");
                        r.append(s.as_str());
                        r.append(")");
                    },
                }
            },
        }
        proof {
            assert(r@ =~= spec_token_display(self@));
        }
        r
    }
}

} // verus!
