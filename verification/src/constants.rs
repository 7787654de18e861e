//! The newline character and the reserved-word table: a fixed, case-sensitive
//! mapping from keyword spellings to their token kinds.

use vstd::prelude::*;
use crate::token::TokenType;

verus! {

pub const NEWLINE: char = '\n';

/// The keyword table as a mathematical function: the kind for an exact
/// keyword spelling, `None` for every other character sequence.
pub open spec fn spec_keyword_kind(s: Seq<char>) -> Option<TokenType> {
    if s.len() == 3 && s[0] == 'a' && s[1] == 'n' && s[2] == 'd' {
        Some(TokenType::And)
    } else if s.len() == 5 && s[0] == 'c' && s[1] == 'l' && s[2] == 'a' && s[3] == 's' && s[4]
        == 's' {
        Some(TokenType::Class)
    } else if s.len() == 4 && s[0] == 'e' && s[1] == 'l' && s[2] == 's' && s[3] == 'e' {
        Some(TokenType::Else)
    } else if s.len() == 5 && s[0] == 'f' && s[1] == 'a' && s[2] == 'l' && s[3] == 's' && s[4]
        == 'e' {
        Some(TokenType::False)
    } else if s.len() == 3 && s[0] == 'f' && s[1] == 'o' && s[2] == 'r' {
        Some(TokenType::For)
    } else if s.len() == 3 && s[0] == 'f' && s[1] == 'u' && s[2] == 'n' {
        Some(TokenType::Fun)
    } else if s.len() == 2 && s[0] == 'i' && s[1] == 'f' {
        Some(TokenType::If)
    } else if s.len() == 3 && s[0] == 'n' && s[1] == 'i' && s[2] == 'l' {
        Some(TokenType::Nil)
    } else if s.len() == 2 && s[0] == 'o' && s[1] == 'r' {
        Some(TokenType::Or)
    } else if s.len() == 5 && s[0] == 'p' && s[1] == 'r' && s[2] == 'i' && s[3] == 'n' && s[4]
        == 't' {
        Some(TokenType::Print)
    } else if s.len() == 6 && s[0] == 'r' && s[1] == 'e' && s[2] == 't' && s[3] == 'u' && s[4]
        == 'r' && s[5] == 'n' {
        Some(TokenType::Return)
    } else if s.len() == 5 && s[0] == 's' && s[1] == 'u' && s[2] == 'p' && s[3] == 'e' && s[4]
        == 'r' {
        Some(TokenType::Super)
    } else if s.len() == 4 && s[0] == 't' && s[1] == 'h' && s[2] == 'i' && s[3] == 's' {
        Some(TokenType::This)
    } else if s.len() == 4 && s[0] == 't' && s[1] == 'r' && s[2] == 'u' && s[3] == 'e' {
        Some(TokenType::True)
    } else if s.len() == 3 && s[0] == 'v' && s[1] == 'a' && s[2] == 'r' {
        Some(TokenType::Var)
    } else if s.len() == 5 && s[0] == 'w' && s[1] == 'h' && s[2] == 'i' && s[3] == 'l' && s[4]
        == 'e' {
        Some(TokenType::While)
    } else {
        None
    }
}

/// The kind a candidate identifier scans to: its keyword kind on an exact,
/// case-sensitive match, `Identifier` otherwise.
pub open spec fn spec_identifier_kind(s: Seq<char>) -> TokenType {
    match spec_keyword_kind(s) {
        Some(t) => t,
        None => TokenType::Identifier,
    }
}

/// Looks a candidate identifier up in the keyword table.
pub fn keyword_kind(ident: &Vec<char>) -> (r: Option<TokenType>)
    ensures
        r == spec_keyword_kind(ident@),
{
    let n = ident.len();
    if n == 2 {
        if ident[0] == 'i' && ident[1] == 'f' {
            Some(TokenType::If)
        } else if ident[0] == 'o' && ident[1] == 'r' {
            Some(TokenType::Or)
        } else {
            None
        }
    } else if n == 3 {
        if ident[0] == 'a' && ident[1] == 'n' && ident[2] == 'd' {
            Some(TokenType::And)
        } else if ident[0] == 'f' && ident[1] == 'o' && ident[2] == 'r' {
            Some(TokenType::For)
        } else if ident[0] == 'f' && ident[1] == 'u' && ident[2] == 'n' {
            Some(TokenType::Fun)
        } else if ident[0] == 'n' && ident[1] == 'i' && ident[2] == 'l' {
            Some(TokenType::Nil)
        } else if ident[0] == 'v' && ident[1] == 'a' && ident[2] == 'r' {
            Some(TokenType::Var)
        } else {
            None
        }
    } else if n == 4 {
        if ident[0] == 'e' && ident[1] == 'l' && ident[2] == 's' && ident[3] == 'e' {
            Some(TokenType::Else)
        } else if ident[0] == 't' && ident[1] == 'h' && ident[2] == 'i' && ident[3] == 's' {
            Some(TokenType::This)
        } else if ident[0] == 't' && ident[1] == 'r' && ident[2] == 'u' && ident[3] == 'e' {
            Some(TokenType::True)
        } else {
            None
        }
    } else if n == 5 {
        if ident[0] == 'c' && ident[1] == 'l' && ident[2] == 'a' && ident[3] == 's' && ident[4]
            == 's' {
            Some(TokenType::Class)
        } else if ident[0] == 'f' && ident[1] == 'a' && ident[2] == 'l' && ident[3] == 's'
            && ident[4] == 'e' {
            Some(TokenType::False)
        } else if ident[0] == 'p' && ident[1] == 'r' && ident[2] == 'i' && ident[3] == 'n'
            && ident[4] == 't' {
            Some(TokenType::Print)
        } else if ident[0] == 's' && ident[1] == 'u' && ident[2] == 'p' && ident[3] == 'e'
            && ident[4] == 'r' {
            Some(TokenType::Super)
        } else if ident[0] == 'w' && ident[1] == 'h' && ident[2] == 'i' && ident[3] == 'l'
            && ident[4] == 'e' {
            Some(TokenType::While)
        } else {
            None
        }
    } else if n == 6 {
        if ident[0] == 'r' && ident[1] == 'e' && ident[2] == 't' && ident[3] == 'u' && ident[4]
            == 'r' && ident[5] == 'n' {
            Some(TokenType::Return)
        } else {
            None
        }
    } else {
        None
    }
}

} // verus!
