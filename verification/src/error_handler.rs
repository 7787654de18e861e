//! Scan errors and their reporting. An error is local to the token being
//! scanned: the scanner records it and resumes at the next unconsumed
//! character.

use vstd::prelude::*;
use vstd::string::StringExecFns;
use crate::text::{decimal_string, spec_decimal};

verus! {

/// The two ways a single token can fail to scan.
#[derive(Clone, Copy, Debug, PartialEq, Eq, Structural)]
pub enum ScanErrorKind {
    /// An opening quote with no closing quote before end of input.
    UnterminatedString,
    /// A character that matches no classification rule.
    UnrecognizedCharacter,
}

/// A scan error: what went wrong, on which line, and the offending character
/// where there is one.
#[derive(Clone, Debug, PartialEq, Eq)]
pub struct ParserError {
    pub kind: ScanErrorKind,
    /// The line the scanner had reached when the error was found.
    pub line: usize,
    /// The unrecognized character; `None` for an unterminated string.
    pub found: Option<char>,
}

/// The mathematical value of a [`ParserError`].
pub struct SpecError {
    pub kind: ScanErrorKind,
    pub line: int,
    pub found: Option<char>,
}

impl View for ParserError {
    type V = SpecError;

    open spec fn view(&self) -> SpecError {
        SpecError { kind: self.kind, line: self.line as int, found: self.found }
    }
}

/// The views of a sequence of errors, element by element.
pub open spec fn error_views(es: Seq<ParserError>) -> Seq<SpecError> {
    es.map_values(|e: ParserError| e@)
}

/// The text that [`error`] composes for a line number and a message.
pub open spec fn spec_error_report(line: int, message: Seq<char>) -> Seq<char> {
    "Error in line [["@ + spec_decimal(line) + "]]: caused by: [["@ + message + "]]"@
}

/// Composes the report text for an error: the line it happened on and the
/// message describing it. Rendering the text to a user is the caller's
/// concern.
pub fn error(line: u16, message: String) -> (r: String)
    ensures
        r@ == spec_error_report(line as int, message@),
{
    let mut r = String::from_str("Error in line [[");
    let num = decimal_string(line as u64);
    r.append(num.as_str());
    r.append("]]: caused by: [[");
    r.append(message.as_str());
    r.append("]]");
    proof {
        assert(r@ =~= spec_error_report(line as int, message@));
    }
    r
}

} // verus!
