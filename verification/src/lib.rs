//! A lexical scanner for a small scripting language.
//!
//! The scanner turns a UTF-8 source text into an ordered sequence of typed
//! tokens (punctuation, one- and two-character operators, string and number
//! literals, identifiers and keywords), each carrying its exact lexeme and the
//! 1-based source line on which it started. Scanning follows a deterministic
//! maximal-munch rule, skips `//` line comments and whitespace, recovers
//! locally from malformed input, and always appends a single end-of-stream
//! sentinel token. The whole text-to-tokens mapping is defined mathematically
//! in [`model`], every scanning function is verified against it, and [`laws`]
//! proves its global properties.

use vstd::prelude::*;

pub mod chars;
pub mod constants;
pub mod error_handler;
pub mod laws;
pub mod model;
pub mod scanner;
pub mod text;
pub mod token;

use crate::model::scan_spec;
use crate::scanner::Scanner;
use crate::token::{token_views, LiteralType, Token};

verus! {

/// Scans one source text (a file's contents or one prompt line) and returns
/// its tokens: exactly the sequence the scanning model emits, terminated by
/// the end-of-stream sentinel. Errors are reported through [`Scanner`]'s own
/// `errors`; this convenience entry point keeps the tokens only.
pub fn run(line: &str) -> (r: Vec<Token<LiteralType>>)
    requires
        line@.len() < usize::MAX,
    ensures
        token_views(r@) == scan_spec(line@).tokens,
{
    let scanner = Scanner::new(line);
    let scanner = scanner.scan_tokens();
    scanner.tokens
}

} // verus!
