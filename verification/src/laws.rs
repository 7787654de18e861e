//! Laws of the scanning model, proved once and for all: what a
//! one-character buffer scans to, how the line counter relates to the
//! newlines in the input, and how the scan of a concatenation decomposes.

use vstd::prelude::*;
use crate::chars::{is_alpha_char, is_digit_char};
use crate::error_handler::SpecError;
use crate::model::{alpha_run_end, count_newlines, digit_run_end, eof_token, error_opt_seq,
    find_from, lemma_alpha_run_end, lemma_count_newlines_split, lemma_count_newlines_zero,
    lemma_digit_run_end, lemma_find_from, lemma_scan_rest_unfold, lemma_scan_step_bounds,
    plain_token, scan_rest_at, scan_spec, scan_step_at, single_punct_kind, token_opt_seq};
use crate::token::{SpecToken, TokenType};

verus! {

/// One step leaves the line counter at the starting line plus the newlines in
/// exactly the characters it consumed: every consumed newline is counted
/// once, and nothing else moves the counter.
pub proof fn lemma_step_line(s: Seq<char>, i: int, line: int)
    requires
        0 <= i < s.len(),
    ensures
        ({
            let st = scan_step_at(s, i, line);
            st.line == line + count_newlines(s, i, i + st.consumed)
        }),
{
    lemma_scan_step_bounds(s, i, line);
    let st = scan_step_at(s, i, line);
    let c = s[i];
    assert(count_newlines(s, i + st.consumed, i + st.consumed) == 0);
    if single_punct_kind(c) is Some {
        lemma_count_newlines_zero(s, i, i + 1);
    } else if c == '!' || c == '=' || c == '<' || c == '>' {
        lemma_count_newlines_zero(s, i, i + st.consumed);
    } else if c == '/' {
        if i + 1 < s.len() && s[i + 1] == '/' {
            lemma_find_from(s, i + 2, '\n');
            lemma_count_newlines_zero(s, i, i + st.consumed);
        } else {
            lemma_count_newlines_zero(s, i, i + 1);
        }
    } else if c == ' ' || c == '\t' || c == '\r' {
        lemma_count_newlines_zero(s, i, i + 1);
    } else if c == '\n' {
        assert(count_newlines(s, i, i + 1) == 1);
    } else if c == '"' {
        let q = find_from(s, i + 1, '"');
        lemma_find_from(s, i + 1, '"');
        if q == s.len() {
            lemma_count_newlines_split(s, i, i + 1, s.len() as int);
            assert(count_newlines(s, i, i + 1) == 0);
        } else {
            lemma_count_newlines_split(s, i, i + 1, q + 1);
            lemma_count_newlines_split(s, i + 1, q, q + 1);
            assert(count_newlines(s, i, i + 1) == 0);
            assert(count_newlines(s, q, q + 1) == 0);
        }
    } else if is_digit_char(c) {
        lemma_digit_run_end(s, i);
        let k = digit_run_end(s, i);
        if k < s.len() && s[k] == '.' && k + 1 < s.len() && is_digit_char(s[k + 1]) {
            lemma_digit_run_end(s, k + 1);
        }
        lemma_count_newlines_zero(s, i, i + st.consumed);
    } else if is_alpha_char(c) {
        lemma_alpha_run_end(s, i);
        lemma_count_newlines_zero(s, i, i + st.consumed);
    } else {
        lemma_count_newlines_zero(s, i, i + 1);
    }
}

/// Line tracking: scanning from `i` leaves the line counter at the starting
/// line plus the number of newline characters from `i` to the end of input —
/// each newline increments it exactly once, wherever it stands (bare, inside
/// a string literal, or ending a comment).
pub proof fn lemma_line_tracking(s: Seq<char>, i: int, line: int)
    requires
        0 <= i <= s.len(),
    ensures
        scan_rest_at(s, i, line).line == line + count_newlines(s, i, s.len() as int),
    decreases s.len() - i,
{
    if i < s.len() {
        lemma_scan_step_bounds(s, i, line);
        lemma_scan_rest_unfold(s, i, line);
        lemma_step_line(s, i, line);
        let st = scan_step_at(s, i, line);
        lemma_line_tracking(s, i + st.consumed, st.line);
        lemma_count_newlines_split(s, i, i + st.consumed, s.len() as int);
    }
}

/// Every token a step emits reports the line the scanner stood on when the
/// token started, and the counter never moves backwards.
pub proof fn lemma_step_token_line(s: Seq<char>, i: int, line: int)
    requires
        0 <= i < s.len(),
    ensures
        ({
            let st = scan_step_at(s, i, line);
            (st.token matches Some(t) ==> t.line == line) && line <= st.line
        }),
{
    lemma_scan_step_bounds(s, i, line);
    lemma_step_line(s, i, line);
    lemma_count_newlines_split(s, i, i, i + scan_step_at(s, i, line).consumed);
}

/// A token that appears after the scanner has consumed some prefix reports
/// the line reached at the start of its own step: every token's line lies
/// between the line at the start of the scan and the final line counter, in
/// emission order.
pub proof fn lemma_token_lines_bracketed(s: Seq<char>, i: int, line: int)
    requires
        0 <= i <= s.len(),
    ensures
        forall|n: int|
            0 <= n < scan_rest_at(s, i, line).tokens.len() ==> line <= #[trigger] scan_rest_at(
                s,
                i,
                line,
            ).tokens[n].line <= scan_rest_at(s, i, line).line,
        line <= scan_rest_at(s, i, line).line,
    decreases s.len() - i,
{
    if i < s.len() {
        lemma_scan_step_bounds(s, i, line);
        lemma_scan_rest_unfold(s, i, line);
        lemma_step_token_line(s, i, line);
        let st = scan_step_at(s, i, line);
        lemma_token_lines_bracketed(s, i + st.consumed, st.line);
    }
}

/// Scanning a buffer holding one punctuation mark from `( ) { } , . - + ; *`
/// yields exactly one token of the matching kind — that character as lexeme,
/// no literal, line 1 — followed by the sentinel, and no error.
pub proof fn lemma_single_punctuation(c: char, kind: TokenType)
    requires
        single_punct_kind(c) == Some(kind),
    ensures
        scan_spec(seq![c]).tokens =~= seq![plain_token(kind, seq![c], 1), eof_token(1)],
        scan_spec(seq![c]).errors =~= Seq::<SpecError>::empty(),
        scan_spec(seq![c]).line == 1,
{
    let s = seq![c];
    lemma_scan_rest_unfold(s, 0, 1);
    let st = scan_step_at(s, 0, 1);
    assert(st.consumed == 1);
    assert(scan_rest_at(s, 1, 1).tokens =~= Seq::<SpecToken>::empty());
    assert(scan_rest_at(s, 0, 1).tokens =~= seq![plain_token(kind, seq![c], 1)]);
}

/// Whether a sequence of reported errors contains an unterminated-string
/// error.
pub open spec fn has_unterminated_error(es: Seq<SpecError>) -> bool {
    exists|n: int|
        0 <= n < es.len() && es[n].kind == crate::error_handler::ScanErrorKind::UnterminatedString
}

proof fn lemma_no_unterminated_parts(a: Seq<SpecError>, b: Seq<SpecError>)
    requires
        !has_unterminated_error(a + b),
    ensures
        !has_unterminated_error(a),
        !has_unterminated_error(b),
{
    if has_unterminated_error(a) {
        let n = choose|n: int|
            0 <= n < a.len() && a[n].kind
                == crate::error_handler::ScanErrorKind::UnterminatedString;
        assert((a + b)[n] == a[n]);
    }
    if has_unterminated_error(b) {
        let n = choose|n: int|
            0 <= n < b.len() && b[n].kind
                == crate::error_handler::ScanErrorKind::UnterminatedString;
        assert((a + b)[a.len() + n] == b[n]);
    }
}

proof fn lemma_count_newlines_prefix(s1: Seq<char>, s2: Seq<char>, a: int, b: int)
    requires
        0 <= a <= b <= s1.len(),
    ensures
        count_newlines(s1 + s2, a, b) == count_newlines(s1, a, b),
    decreases b - a,
{
    if a < b {
        assert((s1 + s2)[a] == s1[a]);
        lemma_count_newlines_prefix(s1, s2, a + 1, b);
    }
}

proof fn lemma_count_newlines_shift(s1: Seq<char>, s2: Seq<char>, a: int, b: int)
    requires
        0 <= a <= b <= s2.len(),
    ensures
        count_newlines(s1 + s2, s1.len() + a, s1.len() + b) == count_newlines(s2, a, b),
    decreases b - a,
{
    if a < b {
        assert((s1 + s2)[s1.len() + a] == s2[a]);
        lemma_count_newlines_shift(s1, s2, a + 1, b);
    }
}

proof fn lemma_find_from_prefix(s1: Seq<char>, s2: Seq<char>, a: int, c: char)
    requires
        0 <= a <= s1.len(),
        find_from(s1, a, c) < s1.len(),
    ensures
        find_from(s1 + s2, a, c) == find_from(s1, a, c),
{
    let m = find_from(s1, a, c);
    crate::model::lemma_find_from(s1, a, c);
    assert forall|j: int| a <= j < m implies (s1 + s2)[j] != c by {
        assert((s1 + s2)[j] == s1[j]);
    }
    assert((s1 + s2)[m] == s1[m]);
    crate::model::lemma_find_from_is(s1 + s2, a, c, m);
}

proof fn lemma_find_from_shift(s1: Seq<char>, s2: Seq<char>, a: int, c: char)
    requires
        0 <= a <= s2.len(),
    ensures
        find_from(s1 + s2, s1.len() + a, c) == s1.len() + find_from(s2, a, c),
{
    let m = find_from(s2, a, c);
    crate::model::lemma_find_from(s2, a, c);
    assert forall|j: int| s1.len() + a <= j < s1.len() + m implies (s1 + s2)[j] != c by {
        assert((s1 + s2)[j] == s2[j - s1.len()]);
    }
    if m < s2.len() {
        assert((s1 + s2)[s1.len() + m] == s2[m]);
    }
    crate::model::lemma_find_from_is(s1 + s2, s1.len() + a, c, s1.len() + m);
}

proof fn lemma_digit_run_end_prefix(s1: Seq<char>, s2: Seq<char>, a: int)
    requires
        0 <= a <= s1.len(),
        digit_run_end(s1, a) < s1.len(),
    ensures
        digit_run_end(s1 + s2, a) == digit_run_end(s1, a),
{
    let m = digit_run_end(s1, a);
    lemma_digit_run_end(s1, a);
    assert forall|j: int| a <= j < m implies is_digit_char((s1 + s2)[j]) by {
        assert((s1 + s2)[j] == s1[j]);
    }
    assert((s1 + s2)[m] == s1[m]);
    crate::model::lemma_digit_run_end_is(s1 + s2, a, m);
}

proof fn lemma_digit_run_end_shift(s1: Seq<char>, s2: Seq<char>, a: int)
    requires
        0 <= a <= s2.len(),
    ensures
        digit_run_end(s1 + s2, s1.len() + a) == s1.len() + digit_run_end(s2, a),
{
    let m = digit_run_end(s2, a);
    lemma_digit_run_end(s2, a);
    assert forall|j: int| s1.len() + a <= j < s1.len() + m implies is_digit_char(
        (s1 + s2)[j],
    ) by {
        assert((s1 + s2)[j] == s2[j - s1.len()]);
    }
    if m < s2.len() {
        assert((s1 + s2)[s1.len() + m] == s2[m]);
    }
    crate::model::lemma_digit_run_end_is(s1 + s2, s1.len() + a, s1.len() + m);
}

proof fn lemma_alpha_run_end_prefix(s1: Seq<char>, s2: Seq<char>, a: int)
    requires
        0 <= a <= s1.len(),
        alpha_run_end(s1, a) < s1.len(),
    ensures
        alpha_run_end(s1 + s2, a) == alpha_run_end(s1, a),
{
    let m = alpha_run_end(s1, a);
    lemma_alpha_run_end(s1, a);
    assert forall|j: int| a <= j < m implies is_alpha_char((s1 + s2)[j]) by {
        assert((s1 + s2)[j] == s1[j]);
    }
    assert((s1 + s2)[m] == s1[m]);
    crate::model::lemma_alpha_run_end_is(s1 + s2, a, m);
}

proof fn lemma_alpha_run_end_shift(s1: Seq<char>, s2: Seq<char>, a: int)
    requires
        0 <= a <= s2.len(),
    ensures
        alpha_run_end(s1 + s2, s1.len() + a) == s1.len() + alpha_run_end(s2, a),
{
    let m = alpha_run_end(s2, a);
    lemma_alpha_run_end(s2, a);
    assert forall|j: int| s1.len() + a <= j < s1.len() + m implies is_alpha_char(
        (s1 + s2)[j],
    ) by {
        assert((s1 + s2)[j] == s2[j - s1.len()]);
    }
    if m < s2.len() {
        assert((s1 + s2)[s1.len() + m] == s2[m]);
    }
    crate::model::lemma_alpha_run_end_is(s1 + s2, s1.len() + a, s1.len() + m);
}

/// A step taken inside the first of two concatenated sources behaves as it
/// does on the first source alone, provided the first source ends with a
/// newline and the step is not an unterminated string.
proof fn lemma_step_prefix(s1: Seq<char>, s2: Seq<char>, i: int, line: int)
    requires
        0 <= i < s1.len(),
        s1[s1.len() - 1] == '\n',
        (scan_step_at(s1, i, line).error matches Some(e) ==> e.kind
            != crate::error_handler::ScanErrorKind::UnterminatedString),
    ensures
        scan_step_at(s1 + s2, i, line).consumed == scan_step_at(s1, i, line).consumed,
        scan_step_at(s1 + s2, i, line).token == scan_step_at(s1, i, line).token,
        scan_step_at(s1 + s2, i, line).error == scan_step_at(s1, i, line).error,
        scan_step_at(s1 + s2, i, line).line == scan_step_at(s1, i, line).line,
{
    let t = s1 + s2;
    let n1 = s1.len() as int;
    let c = s1[i];
    assert(t[i] == c);
    if single_punct_kind(c) is Some {
    } else if c == '!' || c == '=' || c == '<' || c == '>' || c == '/' {
        // The last character of the first source is a newline, so the
        // lookahead character is still inside it.
        assert(i < n1 - 1);
        assert(t[i + 1] == s1[i + 1]);
        if c == '/' && s1[i + 1] == '/' {
            crate::model::lemma_find_from(s1, i + 2, '\n');
            if find_from(s1, i + 2, '\n') == n1 {
                assert(s1[n1 - 1] != '\n');
            }
            lemma_find_from_prefix(s1, s2, i + 2, '\n');
        }
    } else if c == ' ' || c == '\t' || c == '\r' || c == '\n' {
    } else if c == '"' {
        let q = find_from(s1, i + 1, '"');
        crate::model::lemma_find_from(s1, i + 1, '"');
        assert(q < n1);
        lemma_find_from_prefix(s1, s2, i + 1, '"');
        lemma_count_newlines_prefix(s1, s2, i + 1, q);
        assert(t.subrange(i + 1, q) =~= s1.subrange(i + 1, q));
    } else if is_digit_char(c) {
        let k = digit_run_end(s1, i);
        lemma_digit_run_end(s1, i);
        if k == n1 {
            assert(is_digit_char(s1[n1 - 1]));
        }
        assert(k < n1);
        lemma_digit_run_end_prefix(s1, s2, i);
        assert(t[k] == s1[k]);
        if k < n1 && s1[k] == '.' && k + 1 < n1 && is_digit_char(s1[k + 1]) {
            let e = digit_run_end(s1, k + 1);
            lemma_digit_run_end(s1, k + 1);
            if e == n1 {
                assert(is_digit_char(s1[n1 - 1]));
            }
            assert(e < n1);
            lemma_digit_run_end_prefix(s1, s2, k + 1);
            assert(t[k + 1] == s1[k + 1]);
            assert(t.subrange(i, e) =~= s1.subrange(i, e));
        } else {
            if k < n1 && s1[k] == '.' {
                // The dot cannot be the last character, yet its follower is
                // not a digit on the first source; the concatenation sees the
                // same follower.
                assert(k + 1 < n1 ==> t[k + 1] == s1[k + 1]);
                assert(k != n1 - 1);
            }
            assert(t.subrange(i, k) =~= s1.subrange(i, k));
        }
    } else if is_alpha_char(c) {
        let k = alpha_run_end(s1, i);
        lemma_alpha_run_end(s1, i);
        if k == n1 {
            assert(is_alpha_char(s1[n1 - 1]));
            assert(('\n' as u32) < 128);
            assert(false);
        }
        assert(k < n1);
        lemma_alpha_run_end_prefix(s1, s2, i);
        assert(t.subrange(i, k) =~= s1.subrange(i, k));
    } else {
    }
}

/// A step taken at an offset past the first of two concatenated sources
/// behaves as the same step on the second source alone.
proof fn lemma_step_shift(s1: Seq<char>, s2: Seq<char>, j: int, line: int)
    requires
        0 <= j < s2.len(),
    ensures
        scan_step_at(s1 + s2, s1.len() + j, line).consumed == scan_step_at(s2, j, line).consumed,
        scan_step_at(s1 + s2, s1.len() + j, line).token == scan_step_at(s2, j, line).token,
        scan_step_at(s1 + s2, s1.len() + j, line).error == scan_step_at(s2, j, line).error,
        scan_step_at(s1 + s2, s1.len() + j, line).line == scan_step_at(s2, j, line).line,
{
    let t = s1 + s2;
    let n1 = s1.len() as int;
    let i = n1 + j;
    let c = s2[j];
    assert(t[i] == c);
    assert(t.len() == n1 + s2.len());
    if single_punct_kind(c) is Some {
    } else if c == '!' || c == '=' || c == '<' || c == '>' || c == '/' {
        if j + 1 < s2.len() {
            assert(t[i + 1] == s2[j + 1]);
        }
        if c == '/' && j + 1 < s2.len() && s2[j + 1] == '/' {
            lemma_find_from_shift(s1, s2, j + 2, '\n');
        }
    } else if c == ' ' || c == '\t' || c == '\r' || c == '\n' {
    } else if c == '"' {
        let q = find_from(s2, j + 1, '"');
        crate::model::lemma_find_from(s2, j + 1, '"');
        lemma_find_from_shift(s1, s2, j + 1, '"');
        lemma_count_newlines_shift(s1, s2, j + 1, q);
        if q < s2.len() {
            assert(t.subrange(i + 1, n1 + q) =~= s2.subrange(j + 1, q));
        } else {
            lemma_count_newlines_shift(s1, s2, j + 1, s2.len() as int);
        }
    } else if is_digit_char(c) {
        let k = digit_run_end(s2, j);
        lemma_digit_run_end(s2, j);
        lemma_digit_run_end_shift(s1, s2, j);
        if k < s2.len() {
            assert(t[n1 + k] == s2[k]);
        }
        if k < s2.len() && s2[k] == '.' && k + 1 < s2.len() && is_digit_char(s2[k + 1]) {
            assert(t[n1 + k + 1] == s2[k + 1]);
            let e = digit_run_end(s2, k + 1);
            lemma_digit_run_end(s2, k + 1);
            lemma_digit_run_end_shift(s1, s2, k + 1);
            assert(t.subrange(i, n1 + e) =~= s2.subrange(j, e));
        } else {
            if k < s2.len() && s2[k] == '.' && k + 1 < s2.len() {
                assert(t[n1 + k + 1] == s2[k + 1]);
            }
            assert(t.subrange(i, n1 + k) =~= s2.subrange(j, k));
        }
    } else if is_alpha_char(c) {
        let k = alpha_run_end(s2, j);
        lemma_alpha_run_end(s2, j);
        lemma_alpha_run_end_shift(s1, s2, j);
        assert(t.subrange(i, n1 + k) =~= s2.subrange(j, k));
    } else {
    }
}

/// Scanning the concatenation from an offset past the first source is
/// scanning the second source alone from the matching offset.
proof fn lemma_scan_shift(s1: Seq<char>, s2: Seq<char>, j: int, line: int)
    requires
        0 <= j <= s2.len(),
    ensures
        scan_rest_at(s1 + s2, s1.len() + j, line).tokens == scan_rest_at(s2, j, line).tokens,
        scan_rest_at(s1 + s2, s1.len() + j, line).errors == scan_rest_at(s2, j, line).errors,
        scan_rest_at(s1 + s2, s1.len() + j, line).line == scan_rest_at(s2, j, line).line,
    decreases s2.len() - j,
{
    let t = s1 + s2;
    assert(t.len() == s1.len() + s2.len());
    if j < s2.len() {
        lemma_scan_step_bounds(s2, j, line);
        lemma_scan_rest_unfold(s2, j, line);
        lemma_scan_rest_unfold(t, s1.len() + j, line);
        lemma_step_shift(s1, s2, j, line);
        let st = scan_step_at(s2, j, line);
        lemma_scan_shift(s1, s2, j + st.consumed, st.line);
    }
}

/// Scanning the concatenation from inside the first source decomposes into
/// the rest of the first source's scan followed by the whole scan of the
/// second, which starts on the line counter the first scan reached.
proof fn lemma_scan_concat_from(s1: Seq<char>, s2: Seq<char>, i: int, line: int)
    requires
        0 <= i <= s1.len(),
        s1.len() > 0,
        s1[s1.len() - 1] == '\n',
        !has_unterminated_error(scan_rest_at(s1, i, line).errors),
    ensures
        ({
            let first = scan_rest_at(s1, i, line);
            let second = scan_rest_at(s2, 0, first.line);
            scan_rest_at(s1 + s2, i, line).tokens == first.tokens + second.tokens
                && scan_rest_at(s1 + s2, i, line).errors == first.errors + second.errors
                && scan_rest_at(s1 + s2, i, line).line == second.line
        }),
    decreases s1.len() - i,
{
    let t = s1 + s2;
    assert(t.len() == s1.len() + s2.len());
    let first = scan_rest_at(s1, i, line);
    let second = scan_rest_at(s2, 0, first.line);
    if i == s1.len() {
        lemma_scan_shift(s1, s2, 0, line);
        assert(first.tokens + second.tokens =~= second.tokens);
        assert(first.errors + second.errors =~= second.errors);
    } else {
        lemma_scan_step_bounds(s1, i, line);
        lemma_scan_rest_unfold(s1, i, line);
        let st = scan_step_at(s1, i, line);
        let rest1 = scan_rest_at(s1, i + st.consumed, st.line);
        lemma_no_unterminated_parts(error_opt_seq(st.error), rest1.errors);
        match st.error {
            Some(e) => {
                assert(error_opt_seq(st.error)[0] == e);
                assert(e.kind != crate::error_handler::ScanErrorKind::UnterminatedString);
            },
            None => {},
        }
        lemma_step_prefix(s1, s2, i, line);
        lemma_scan_rest_unfold(t, i, line);
        lemma_scan_concat_from(s1, s2, i + st.consumed, st.line);
        assert(rest1.line == first.line);
        assert(scan_rest_at(t, i, line).tokens =~= (token_opt_seq(st.token) + rest1.tokens)
            + second.tokens);
        assert(first.tokens + second.tokens =~= (token_opt_seq(st.token) + rest1.tokens)
            + second.tokens);
        assert(scan_rest_at(t, i, line).errors =~= (error_opt_seq(st.error) + rest1.errors)
            + second.errors);
        assert(first.errors + second.errors =~= (error_opt_seq(st.error) + rest1.errors)
            + second.errors);
    }
}

/// Round trip over concatenation: when a source ends with a newline and scans
/// with no unterminated string, rescanning it concatenated with any second
/// source yields the first source's tokens, then the second source's tokens
/// with their lines counted onward from the first scan's final line counter
/// (the first source's line count, by [`lemma_line_tracking`]), then a single
/// trailing sentinel; the reported errors concatenate in the same way.
pub proof fn lemma_scan_concatenation(s1: Seq<char>, s2: Seq<char>)
    requires
        s1.len() > 0,
        s1[s1.len() - 1] == '\n',
        !has_unterminated_error(scan_spec(s1).errors),
    ensures
        ({
            let first = scan_rest_at(s1, 0, 1);
            let second = scan_rest_at(s2, 0, first.line);
            scan_spec(s1).tokens == first.tokens.push(eof_token(first.line)) && scan_spec(
                s1 + s2,
            ).tokens == first.tokens + second.tokens.push(eof_token(second.line)) && scan_spec(
                s1 + s2,
            ).errors == first.errors + second.errors && scan_spec(s1 + s2).line == second.line
        }),
{
    lemma_scan_concat_from(s1, s2, 0, 1);
    let first = scan_rest_at(s1, 0, 1);
    let second = scan_rest_at(s2, 0, first.line);
    assert(scan_spec(s1 + s2).tokens =~= first.tokens + second.tokens.push(
        eof_token(second.line),
    ));
}

} // verus!

