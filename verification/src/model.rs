//! The mathematical model of scanning: what one classification step does at a
//! position in the source, and what a whole scan produces. Every executable
//! scanner function is specified against these functions.

use vstd::prelude::*;
use crate::chars::{is_alpha_char, is_digit_char};
use crate::constants::spec_identifier_kind;
use crate::error_handler::{ScanErrorKind, SpecError};
use crate::token::{SpecLiteral, SpecToken, TokenType};

verus! {

/// What one classification step does: how many characters it consumes
/// (at least one), the token it emits if any, the error it reports if any,
/// and the line counter after it.
pub struct ScanStep {
    pub consumed: int,
    pub token: Option<SpecToken>,
    pub error: Option<SpecError>,
    pub line: int,
}

/// What a scan produces: the emitted tokens in order, the reported errors in
/// order, and the final line counter.
pub struct ScanOutput {
    pub tokens: Seq<SpecToken>,
    pub errors: Seq<SpecError>,
    pub line: int,
}

/// The kind of an exact one-character token, `None` for every other character.
pub open spec fn single_punct_kind(c: char) -> Option<TokenType> {
    if c == '(' {
        Some(TokenType::LeftParen)
    } else if c == ')' {
        Some(TokenType::RightParen)
    } else if c == '{' {
        Some(TokenType::LeftBrace)
    } else if c == '}' {
        Some(TokenType::RightBrace)
    } else if c == ',' {
        Some(TokenType::Comma)
    } else if c == '.' {
        Some(TokenType::Dot)
    } else if c == '-' {
        Some(TokenType::Minus)
    } else if c == '+' {
        Some(TokenType::Plus)
    } else if c == ';' {
        Some(TokenType::SemiColon)
    } else if c == '*' {
        Some(TokenType::Star)
    } else {
        None
    }
}

/// A character that may start a two-character operator.
pub open spec fn is_pair_start(c: char) -> bool {
    c == '!' || c == '=' || c == '<' || c == '>'
}

/// The kind emitted when a pair-start character is not followed by `=`.
pub open spec fn pair_single_kind(c: char) -> TokenType {
    if c == '!' {
        TokenType::Bang
    } else if c == '=' {
        TokenType::Equal
    } else if c == '<' {
        TokenType::Less
    } else {
        TokenType::Greater
    }
}

/// The kind emitted when a pair-start character is followed by `=`.
pub open spec fn pair_equal_kind(c: char) -> TokenType {
    if c == '!' {
        TokenType::BangEqual
    } else if c == '=' {
        TokenType::EqualEqual
    } else if c == '<' {
        TokenType::LessEqual
    } else {
        TokenType::GreaterEqual
    }
}

/// The index of the first occurrence of `c` at or after `i`, or `s.len()` if
/// there is none.
pub open spec fn find_from(s: Seq<char>, i: int, c: char) -> int
    recommends
        0 <= i <= s.len(),
    decreases s.len() - i,
{
    if 0 <= i < s.len() {
        if s[i] == c {
            i
        } else {
            find_from(s, i + 1, c)
        }
    } else {
        i
    }
}

/// The index just past the maximal run of decimal digits starting at `i`.
pub open spec fn digit_run_end(s: Seq<char>, i: int) -> int
    recommends
        0 <= i <= s.len(),
    decreases s.len() - i,
{
    if 0 <= i < s.len() && is_digit_char(s[i]) {
        digit_run_end(s, i + 1)
    } else {
        i
    }
}

/// The index just past the maximal run of alphabetic characters starting at `i`.
pub open spec fn alpha_run_end(s: Seq<char>, i: int) -> int
    recommends
        0 <= i <= s.len(),
    decreases s.len() - i,
{
    if 0 <= i < s.len() && is_alpha_char(s[i]) {
        alpha_run_end(s, i + 1)
    } else {
        i
    }
}

/// How many newline characters `s` holds in the index range `[i, j)`.
pub open spec fn count_newlines(s: Seq<char>, i: int, j: int) -> int
    recommends
        0 <= i <= j <= s.len(),
    decreases j - i,
{
    if i < j {
        (if s[i] == '\n' {
            1int
        } else {
            0int
        }) + count_newlines(s, i + 1, j)
    } else {
        0
    }
}

/// A token with no literal payload.
pub open spec fn plain_token(kind: TokenType, lexeme: Seq<char>, line: int) -> SpecToken {
    SpecToken { kind, lexeme, literal: None, line }
}

/// The end-of-stream sentinel token for a final line counter value.
pub open spec fn eof_token(line: int) -> SpecToken {
    SpecToken { kind: TokenType::Eof, lexeme: Seq::empty(), literal: None, line }
}

/// One classification step of the scanner at position `i` of `s`, on line
/// `line`: the first character decides the rule, with maximal munch limited
/// to one character of lookahead for operators and maximal runs for comments,
/// strings, numbers and identifiers.
pub open spec fn scan_step_at(s: Seq<char>, i: int, line: int) -> ScanStep
    recommends
        0 <= i < s.len(),
{
    let c = s[i];
    match single_punct_kind(c) {
        Some(kind) => ScanStep {
            consumed: 1,
            token: Some(plain_token(kind, seq![c], line)),
            error: None,
            line,
        },
        None => if is_pair_start(c) {
            if i + 1 < s.len() && s[i + 1] == '=' {
                ScanStep {
                    consumed: 2,
                    token: Some(plain_token(pair_equal_kind(c), seq![c, '='], line)),
                    error: None,
                    line,
                }
            } else {
                ScanStep {
                    consumed: 1,
                    token: Some(plain_token(pair_single_kind(c), seq![c], line)),
                    error: None,
                    line,
                }
            }
        } else if c == '/' {
            if i + 1 < s.len() && s[i + 1] == '/' {
                // A line comment runs to just before the next newline (or to
                // the end of input) and emits nothing.
                ScanStep { consumed: find_from(s, i + 2, '\n') - i, token: None, error: None, line }
            } else {
                ScanStep {
                    consumed: 1,
                    token: Some(plain_token(TokenType::Slash, seq![c], line)),
                    error: None,
                    line,
                }
            }
        } else if c == ' ' || c == '\t' || c == '\r' {
            ScanStep { consumed: 1, token: None, error: None, line }
        } else if c == '\n' {
            ScanStep { consumed: 1, token: None, error: None, line: line + 1 }
        } else if c == '"' {
            let q = find_from(s, i + 1, '"');
            if q == s.len() {
                // No closing quote before end of input: everything is
                // consumed and an error is reported at the line the scanner
                // has reached.
                let after = line + count_newlines(s, i + 1, s.len() as int);
                ScanStep {
                    consumed: s.len() - i,
                    token: None,
                    error: Some(
                        SpecError { kind: ScanErrorKind::UnterminatedString, line: after, found: None },
                    ),
                    line: after,
                }
            } else {
                // The string may span lines; its token reports the line of
                // the opening quote, and the enclosed text (without the
                // quotes) is both lexeme and payload.
                let body = s.subrange(i + 1, q);
                ScanStep {
                    consumed: q + 1 - i,
                    token: Some(
                        SpecToken {
                            kind: TokenType::String,
                            lexeme: body,
                            literal: Some(SpecLiteral::String(body)),
                            line,
                        },
                    ),
                    error: None,
                    line: line + count_newlines(s, i + 1, q),
                }
            }
        } else if is_digit_char(c) {
            // A maximal digit run, then a fractional part only when a dot is
            // followed by another digit; a trailing dot is left unconsumed.
            let k = digit_run_end(s, i);
            let end = if k < s.len() && s[k] == '.' && k + 1 < s.len() && is_digit_char(s[k + 1]) {
                digit_run_end(s, k + 1)
            } else {
                k
            };
            let lex = s.subrange(i, end);
            ScanStep {
                consumed: end - i,
                token: Some(
                    SpecToken {
                        kind: TokenType::Number,
                        lexeme: lex,
                        literal: Some(SpecLiteral::Float(lex)),
                        line,
                    },
                ),
                error: None,
                line,
            }
        } else if is_alpha_char(c) {
            // A maximal alphabetic run, looked up in the keyword table.
            let k = alpha_run_end(s, i);
            let lex = s.subrange(i, k);
            ScanStep {
                consumed: k - i,
                token: Some(plain_token(spec_identifier_kind(lex), lex, line)),
                error: None,
                line,
            }
        } else {
            ScanStep {
                consumed: 1,
                token: None,
                error: Some(
                    SpecError { kind: ScanErrorKind::UnrecognizedCharacter, line, found: Some(c) },
                ),
                line,
            }
        },
    }
}

/// The emitted-token sequence of one step: empty or a single token.
pub open spec fn token_opt_seq(t: Option<SpecToken>) -> Seq<SpecToken> {
    match t {
        Some(tok) => seq![tok],
        None => Seq::empty(),
    }
}

/// The reported-error sequence of one step: empty or a single error.
pub open spec fn error_opt_seq(e: Option<SpecError>) -> Seq<SpecError> {
    match e {
        Some(err) => seq![err],
        None => Seq::empty(),
    }
}

/// Everything scanning emits and reports from position `i` of `s` to the end
/// of input, starting on line `line`. The sentinel token is not included;
/// [`scan_spec`] appends it.
pub open spec fn scan_rest_at(s: Seq<char>, i: int, line: int) -> ScanOutput
    recommends
        0 <= i <= s.len(),
    decreases s.len() - i,
{
    if 0 <= i < s.len() {
        let st = scan_step_at(s, i, line);
        let k = if 1 <= st.consumed && st.consumed <= s.len() - i {
            st.consumed
        } else {
            1
        };
        let rest = scan_rest_at(s, i + k, st.line);
        ScanOutput {
            tokens: token_opt_seq(st.token) + rest.tokens,
            errors: error_opt_seq(st.error) + rest.errors,
            line: rest.line,
        }
    } else {
        ScanOutput { tokens: Seq::empty(), errors: Seq::empty(), line }
    }
}

/// The full scan of a source text: the token sequence it emits, terminated by
/// exactly one end-of-stream sentinel carrying the final line counter, along
/// with the reported errors.
pub open spec fn scan_spec(s: Seq<char>) -> ScanOutput {
    let o = scan_rest_at(s, 0, 1);
    ScanOutput { tokens: o.tokens.push(eof_token(o.line)), errors: o.errors, line: o.line }
}

/// `find_from` lands on the first occurrence: in range, on `c` if before the
/// end, with no `c` earlier.
pub proof fn lemma_find_from(s: Seq<char>, i: int, c: char)
    requires
        0 <= i <= s.len(),
    ensures
        i <= find_from(s, i, c) <= s.len(),
        find_from(s, i, c) < s.len() ==> s[find_from(s, i, c)] == c,
        forall|j: int| i <= j < find_from(s, i, c) ==> s[j] != c,
    decreases s.len() - i,
{
    if i < s.len() && s[i] != c {
        lemma_find_from(s, i + 1, c);
    }
}

/// Any index that looks like a first occurrence is where `find_from` lands.
pub proof fn lemma_find_from_is(s: Seq<char>, i: int, c: char, m: int)
    requires
        0 <= i <= m <= s.len(),
        forall|j: int| i <= j < m ==> s[j] != c,
        m < s.len() ==> s[m] == c,
    ensures
        find_from(s, i, c) == m,
    decreases m - i,
{
    if i < m {
        lemma_find_from_is(s, i + 1, c, m);
    }
}

/// `digit_run_end` is in range, sees digits throughout the run, and stops at
/// the first non-digit.
pub proof fn lemma_digit_run_end(s: Seq<char>, i: int)
    requires
        0 <= i <= s.len(),
    ensures
        i <= digit_run_end(s, i) <= s.len(),
        forall|j: int| i <= j < digit_run_end(s, i) ==> is_digit_char(s[j]),
        digit_run_end(s, i) < s.len() ==> !is_digit_char(s[digit_run_end(s, i)]),
    decreases s.len() - i,
{
    if i < s.len() && is_digit_char(s[i]) {
        lemma_digit_run_end(s, i + 1);
    }
}

/// Any index that looks like the end of the maximal digit run is where
/// `digit_run_end` lands.
pub proof fn lemma_digit_run_end_is(s: Seq<char>, i: int, m: int)
    requires
        0 <= i <= m <= s.len(),
        forall|j: int| i <= j < m ==> is_digit_char(s[j]),
        m < s.len() ==> !is_digit_char(s[m]),
    ensures
        digit_run_end(s, i) == m,
    decreases m - i,
{
    if i < m {
        lemma_digit_run_end_is(s, i + 1, m);
    }
}

/// `alpha_run_end` is in range, sees alphabetic characters throughout the
/// run, and stops at the first non-alphabetic one.
pub proof fn lemma_alpha_run_end(s: Seq<char>, i: int)
    requires
        0 <= i <= s.len(),
    ensures
        i <= alpha_run_end(s, i) <= s.len(),
        forall|j: int| i <= j < alpha_run_end(s, i) ==> is_alpha_char(s[j]),
        alpha_run_end(s, i) < s.len() ==> !is_alpha_char(s[alpha_run_end(s, i)]),
    decreases s.len() - i,
{
    if i < s.len() && is_alpha_char(s[i]) {
        lemma_alpha_run_end(s, i + 1);
    }
}

/// Any index that looks like the end of the maximal alphabetic run is where
/// `alpha_run_end` lands.
pub proof fn lemma_alpha_run_end_is(s: Seq<char>, i: int, m: int)
    requires
        0 <= i <= m <= s.len(),
        forall|j: int| i <= j < m ==> is_alpha_char(s[j]),
        m < s.len() ==> !is_alpha_char(s[m]),
    ensures
        alpha_run_end(s, i) == m,
    decreases m - i,
{
    if i < m {
        lemma_alpha_run_end_is(s, i + 1, m);
    }
}

/// Newline counts are non-negative, at most the width of the range, and add
/// up over a split of the range.
pub proof fn lemma_count_newlines_split(s: Seq<char>, i: int, m: int, j: int)
    requires
        0 <= i <= m <= j <= s.len(),
    ensures
        count_newlines(s, i, j) == count_newlines(s, i, m) + count_newlines(s, m, j),
        0 <= count_newlines(s, i, j) <= j - i,
    decreases m - i, j - i,
{
    if i < m {
        lemma_count_newlines_split(s, i + 1, m, j);
    } else if i < j {
        lemma_count_newlines_split(s, i + 1, i + 1, j);
    }
}

/// A range without newline characters counts zero newlines.
pub proof fn lemma_count_newlines_zero(s: Seq<char>, i: int, j: int)
    requires
        0 <= i <= j <= s.len(),
        forall|k: int| i <= k < j ==> s[k] != '\n',
    ensures
        count_newlines(s, i, j) == 0,
    decreases j - i,
{
    if i < j {
        lemma_count_newlines_zero(s, i + 1, j);
    }
}

/// Every step consumes at least one character and no more than remain.
pub proof fn lemma_scan_step_bounds(s: Seq<char>, i: int, line: int)
    requires
        0 <= i < s.len(),
    ensures
        1 <= scan_step_at(s, i, line).consumed <= s.len() - i,
{
    let c = s[i];
    if single_punct_kind(c) is Some || is_pair_start(c) {
    } else if c == '/' && i + 1 < s.len() && s[i + 1] == '/' {
        lemma_find_from(s, i + 2, '\n');
    } else if c == '"' {
        lemma_find_from(s, i + 1, '"');
    } else if is_digit_char(c) {
        lemma_digit_run_end(s, i);
        let k = digit_run_end(s, i);
        assert(digit_run_end(s, i) == digit_run_end(s, i + 1));
        lemma_digit_run_end(s, i + 1);
        if k < s.len() && s[k] == '.' && k + 1 < s.len() && is_digit_char(s[k + 1]) {
            lemma_digit_run_end(s, k + 1);
            assert(digit_run_end(s, k + 1) == digit_run_end(s, k + 2));
            lemma_digit_run_end(s, k + 2);
        }
    } else if is_alpha_char(c) {
        lemma_alpha_run_end(s, i);
        assert(alpha_run_end(s, i) == alpha_run_end(s, i + 1));
        lemma_alpha_run_end(s, i + 1);
    }
}

/// Unfolds one step of [`scan_rest_at`]: the scan from `i` is the step at `i`
/// followed by the scan from where the step left off.
pub proof fn lemma_scan_rest_unfold(s: Seq<char>, i: int, line: int)
    requires
        0 <= i < s.len(),
    ensures
        ({
            let st = scan_step_at(s, i, line);
            let rest = scan_rest_at(s, i + st.consumed, st.line);
            scan_rest_at(s, i, line) == ScanOutput {
                tokens: token_opt_seq(st.token) + rest.tokens,
                errors: error_opt_seq(st.error) + rest.errors,
                line: rest.line,
            }
        }),
{
    lemma_scan_step_bounds(s, i, line);
}

} // verus!
