//! The scanner: a cursor over the source characters, the token classifier,
//! and the literal scanners for strings, numbers and identifiers. Every
//! method is verified against the model in [`crate::model`].

use vstd::prelude::*;
use vstd::string::StrSliceExecFns;
use crate::chars::{char_is_digit, is_alpha_char, is_digit_char};
use crate::constants::{keyword_kind, spec_identifier_kind, NEWLINE};
use crate::error_handler::{error_views, ParserError, ScanErrorKind, SpecError};
use crate::model::{alpha_run_end, count_newlines, digit_run_end, eof_token, error_opt_seq,
    find_from, lemma_alpha_run_end, lemma_alpha_run_end_is, lemma_count_newlines_split, lemma_digit_run_end,
    lemma_digit_run_end_is, lemma_find_from, lemma_find_from_is, lemma_scan_rest_unfold,
    lemma_scan_step_bounds, plain_token, scan_rest_at, scan_spec, scan_step_at, token_opt_seq};
use crate::text::chars_to_string;
use crate::token::{token_views, Literal, LiteralType, SpecLiteral, SpecToken, Token,
    TokenBuilder, TokenType};

verus! {

/// The scanner owns a copy of the source characters, a forward-only read
/// position, the current 1-based line, and the tokens and errors collected so
/// far. It is created bound to one source text and consumed by one scan.
pub struct Scanner {
    pub code: Vec<char>,
    pub current_line: usize,
    pub current_ptr: usize,
    pub tokens: Vec<Token<LiteralType>>,
    pub errors: Vec<ParserError>,
}

impl Scanner {
    /// The cursor is inside the buffer and the buffer leaves room for the
    /// line counter (one more than its length must fit in `usize`).
    pub open spec fn wf(self) -> bool {
        self.current_ptr <= self.code@.len() && self.code@.len() < usize::MAX
    }

    /// Creates a new Scanner bound to the given source text.
    pub fn new(code: &str) -> (s: Scanner)
        requires
            code@.len() < usize::MAX,
        ensures
            s.wf(),
            s.code@ == code@,
            s.current_line == 1,
            s.current_ptr == 0,
            s.tokens@.len() == 0,
            s.errors@.len() == 0,
    {
        let n = code.unicode_len();
        let mut v: Vec<char> = Vec::new();
        let mut i: usize = 0;
        while i < n
            invariant
                n == code@.len(),
                i <= n,
                v@ =~= code@.subrange(0, i as int),
            decreases n - i,
        {
            v.push(code.get_char(i));
            proof {
                assert(v@ =~= code@.subrange(0, i + 1 as int));
            }
            i = i + 1;
        }
        proof {
            assert(v@ =~= code@);
        }
        Scanner { code: v, current_line: 1, current_ptr: 0, tokens: Vec::new(), errors: Vec::new() }
    }

    /// Checks if the cursor is at end of input.
    pub fn is_at_end(&self) -> (r: bool)
        ensures
            r == (self.current_ptr >= self.code@.len()),
    {
        self.current_ptr >= self.code.len()
    }

    /// The next character, without consuming it.
    pub fn peek(&self) -> (r: Option<char>)
        ensures
            self.current_ptr < self.code@.len() ==> r == Some(self.code@[self.current_ptr as int]),
            self.current_ptr >= self.code@.len() ==> r is None,
    {
        if self.current_ptr < self.code.len() {
            Some(self.code[self.current_ptr])
        } else {
            None
        }
    }

    /// The character one past the next, without consuming anything; used only
    /// for fractional-number lookahead.
    pub fn peek_next(&self) -> (r: Option<char>)
        ensures
            self.current_ptr + 1 < self.code@.len() ==> r == Some(
                self.code@[self.current_ptr + 1],
            ),
            self.current_ptr + 1 >= self.code@.len() ==> r is None,
    {
        if self.current_ptr < self.code.len() && self.current_ptr + 1 < self.code.len() {
            Some(self.code[self.current_ptr + 1])
        } else {
            None
        }
    }

    /// Consumes and returns the next character, or `None` at end of input.
    pub fn advance(&mut self) -> (r: Option<char>)
        ensures
            final(self).code == old(self).code,
            final(self).current_line == old(self).current_line,
            final(self).tokens == old(self).tokens,
            final(self).errors == old(self).errors,
            old(self).current_ptr < old(self).code@.len() ==> r == Some(
                old(self).code@[old(self).current_ptr as int],
            ) && final(self).current_ptr == old(self).current_ptr + 1,
            old(self).current_ptr >= old(self).code@.len() ==> r is None && final(self).current_ptr == old(self).current_ptr,
    {
        if self.current_ptr < self.code.len() {
            let c = self.code[self.current_ptr];
            self.current_ptr = self.current_ptr + 1;
            Some(c)
        } else {
            None
        }
    }

    /// Seeks the cursor past one character; at end of input it stays put.
    pub fn seek(&mut self)
        ensures
            final(self).code == old(self).code,
            final(self).current_line == old(self).current_line,
            final(self).tokens == old(self).tokens,
            final(self).errors == old(self).errors,
            old(self).current_ptr < old(self).code@.len() ==> final(self).current_ptr == old(
                self,
            ).current_ptr + 1,
            old(self).current_ptr >= old(self).code@.len() ==> final(self).current_ptr == old(
                self,
            ).current_ptr,
    {
        if self.current_ptr < self.code.len() {
            self.current_ptr = self.current_ptr + 1;
        }
    }

    /// Seeks past one character, appending it to the given vector; at end of
    /// input it does nothing.
    pub fn seek_with_add(&mut self, vector: &mut Vec<char>)
        ensures
            final(self).code == old(self).code,
            final(self).current_line == old(self).current_line,
            final(self).tokens == old(self).tokens,
            final(self).errors == old(self).errors,
            old(self).current_ptr < old(self).code@.len() ==> final(self).current_ptr == old(
                self,
            ).current_ptr + 1 && final(vector)@ == old(vector)@.push(
                old(self).code@[old(self).current_ptr as int],
            ),
            old(self).current_ptr >= old(self).code@.len() ==> final(self).current_ptr == old(
                self,
            ).current_ptr && final(vector)@ == old(vector)@,
    {
        if self.current_ptr < self.code.len() {
            vector.push(self.code[self.current_ptr]);
            self.current_ptr = self.current_ptr + 1;
        }
    }

    /// Seeks until the cursor stands on `terminal_char` (which is left
    /// unconsumed) or at end of input.
    pub fn seek_until(&mut self, terminal_char: char)
        requires
            old(self).current_ptr <= old(self).code@.len(),
        ensures
            final(self).code == old(self).code,
            final(self).current_line == old(self).current_line,
            final(self).tokens == old(self).tokens,
            final(self).errors == old(self).errors,
            final(self).current_ptr == find_from(
                old(self).code@,
                old(self).current_ptr as int,
                terminal_char,
            ),
    {
        let ghost start = old(self).current_ptr as int;
        loop
            invariant
                self.code == old(self).code,
                self.current_line == old(self).current_line,
                self.tokens == old(self).tokens,
                self.errors == old(self).errors,
                0 <= start <= self.current_ptr <= self.code@.len(),
                forall|j: int| start <= j < self.current_ptr ==> self.code@[j] != terminal_char,
            ensures
                self.current_ptr == find_from(old(self).code@, start, terminal_char),
            decreases self.code@.len() - self.current_ptr,
        {
            if self.is_at_end() {
                proof {
                    lemma_find_from_is(
                        self.code@,
                        start,
                        terminal_char,
                        self.current_ptr as int,
                    );
                }
                break;
            }
            let c = self.code[self.current_ptr];
            if c == terminal_char {
                proof {
                    lemma_find_from_is(
                        self.code@,
                        start,
                        terminal_char,
                        self.current_ptr as int,
                    );
                }
                break;
            }
            self.seek();
        }
    }

    /// Checks for the second character of a two-character operator: consumes
    /// the next character exactly when it equals `expected`.
    pub fn match_char(&mut self, expected: char) -> (r: bool)
        ensures
            final(self).code == old(self).code,
            final(self).current_line == old(self).current_line,
            final(self).tokens == old(self).tokens,
            final(self).errors == old(self).errors,
            r == (old(self).current_ptr < old(self).code@.len() && old(self).code@[old(
                self,
            ).current_ptr as int] == expected),
            r ==> final(self).current_ptr == old(self).current_ptr + 1,
            !r ==> final(self).current_ptr == old(self).current_ptr,
    {
        if self.is_at_end() {
            return false;
        }
        match self.peek() {
            Some(character) => {
                if character == expected {
                    self.seek();
                    return true;
                }
                false
            },
            _ => false,
        }
    }

    /// Checks whether a given character is a decimal digit.
    pub fn is_digit(&self, character: &char) -> (r: bool)
        ensures
            r == is_digit_char(*character),
    {
        char_is_digit(*character)
    }

    /// Checks whether a given character is alphabetic.
    pub fn is_alpha(&self, character: &char) -> (r: bool)
        ensures
            r == is_alpha_char(*character),
    {
        character.is_alphabetic()
    }

    /// Consumes the maximal run of digits at the cursor, appending them to
    /// `nvector`; used for the integer and fractional parts of a number.
    pub fn partial_number(&mut self, nvector: &mut Vec<char>)
        requires
            old(self).current_ptr <= old(self).code@.len(),
        ensures
            final(self).code == old(self).code,
            final(self).current_line == old(self).current_line,
            final(self).tokens == old(self).tokens,
            final(self).errors == old(self).errors,
            final(self).current_ptr == digit_run_end(old(self).code@, old(self).current_ptr as int),
            final(nvector)@ == old(nvector)@ + old(self).code@.subrange(
                old(self).current_ptr as int,
                final(self).current_ptr as int,
            ),
    {
        let ghost start = old(self).current_ptr as int;
        let ghost nv0 = old(nvector)@;
        loop
            invariant
                self.code == old(self).code,
                self.current_line == old(self).current_line,
                self.tokens == old(self).tokens,
                self.errors == old(self).errors,
                0 <= start <= self.current_ptr <= self.code@.len(),
                forall|j: int| start <= j < self.current_ptr ==> is_digit_char(self.code@[j]),
                nvector@ =~= nv0 + self.code@.subrange(start, self.current_ptr as int),
            ensures
                self.current_ptr == digit_run_end(old(self).code@, start),
                nvector@ =~= nv0 + self.code@.subrange(start, self.current_ptr as int),
            decreases self.code@.len() - self.current_ptr,
        {
            let go = match self.peek() {
                Some(val) => self.is_digit(&val),
                _ => false,
            };
            if !go {
                proof {
                    lemma_digit_run_end_is(self.code@, start, self.current_ptr as int);
                }
                break;
            }
            let ghost p = self.current_ptr as int;
            self.seek_with_add(nvector);
            proof {
                assert(self.code@.subrange(start, p + 1) =~= self.code@.subrange(start, p).push(
                    self.code@[p],
                ));
                assert(nvector@ =~= nv0 + self.code@.subrange(start, self.current_ptr as int));
            }
        }
    }

    /// Appends a token with no literal payload, leaving everything else as it
    /// was.
    fn push_plain(&mut self, kind: TokenType, lexeme: &str, line: usize)
        ensures
            final(self).code == old(self).code,
            final(self).current_line == old(self).current_line,
            final(self).current_ptr == old(self).current_ptr,
            final(self).errors == old(self).errors,
            token_views(final(self).tokens@) == token_views(old(self).tokens@).push(
                plain_token(kind, lexeme@, line as int),
            ),
    {
        let t = TokenBuilder::<LiteralType>::new().kind(kind).lexeme(String::from_str(lexeme)).line(
            line,
        ).literal(None).build();
        self.tokens.push(t);
        proof {
            assert(token_views(self.tokens@) =~= token_views(old(self).tokens@).push(
                plain_token(kind, lexeme@, line as int),
            ));
        }
    }

    /// Classifies a candidate identifier: its keyword kind on an exact match
    /// in the keyword table, `Identifier` otherwise, along with its lexeme.
    pub fn prepare_lexeme_for_id(&self, identifier: Vec<char>) -> (r: (TokenType, String))
        ensures
            r.0 == spec_identifier_kind(identifier@),
            r.1@ == identifier@,
    {
        let id_type = match keyword_kind(&identifier) {
            Some(t) => t,
            None => TokenType::Identifier,
        };
        let lexeme = chars_to_string(&identifier);
        (id_type, lexeme)
    }

    /// Scans a number literal whose first digit, `current_char`, was just
    /// consumed: the maximal digit run, then a fractional part only when a
    /// dot is followed by another digit. Emits one Number token whose lexeme
    /// is the exact consumed text and whose payload is that same numeral.
    pub(crate) fn number(&mut self, current_char: char)
        requires
            old(self).wf(),
            1 <= old(self).current_ptr,
            current_char == old(self).code@[old(self).current_ptr - 1],
            is_digit_char(current_char),
        ensures
            final(self).wf(),
            final(self).code == old(self).code,
            final(self).current_line == old(self).current_line,
            final(self).errors == old(self).errors,
            ({
                let s = old(self).code@;
                let i = old(self).current_ptr - 1;
                let k = digit_run_end(s, i);
                let end = if k < s.len() && s[k] == '.' && k + 1 < s.len() && is_digit_char(
                    s[k + 1],
                ) {
                    digit_run_end(s, k + 1)
                } else {
                    k
                };
                let lex = s.subrange(i, end);
                final(self).current_ptr == end && token_views(final(self).tokens@) == token_views(
                    old(self).tokens@,
                ).push(
                    SpecToken {
                        kind: TokenType::Number,
                        lexeme: lex,
                        literal: Some(SpecLiteral::Float(lex)),
                        line: old(self).current_line as int,
                    },
                )
            }),
    {
        let ghost s = self.code@;
        let ghost i = self.current_ptr - 1 as int;
        let mut nvector: Vec<char> = Vec::new();
        nvector.push(current_char);
        self.partial_number(&mut nvector);
        proof {
            lemma_digit_run_end(s, i + 1);
            assert(digit_run_end(s, i) == digit_run_end(s, i + 1));
            assert(nvector@ =~= s.subrange(i, digit_run_end(s, i)));
        }
        let ghost k = digit_run_end(s, i);
        let has_dot = match self.peek() {
            Some(character) => character == '.',
            _ => false,
        };
        if has_dot {
            let frac = match self.peek_next() {
                Some(next_char) => char_is_digit(next_char),
                _ => false,
            };
            if frac {
                // Consume the "." and the fractional digits.
                self.seek_with_add(&mut nvector);
                proof {
                    assert(nvector@ =~= s.subrange(i, k + 1));
                }
                self.partial_number(&mut nvector);
                proof {
                    lemma_digit_run_end(s, k + 1);
                    assert(digit_run_end(s, k + 1) == digit_run_end(s, k + 2));
                    assert(nvector@ =~= s.subrange(i, digit_run_end(s, k + 1)));
                }
            }
        }
        let string_value = chars_to_string(&nvector);
        let literal_text = string_value.clone();
        let t = TokenBuilder::<LiteralType>::new().kind(TokenType::Number).line(
            self.current_line,
        ).lexeme(string_value).literal(
            Some(Literal { kind: LiteralType::Float(literal_text) }),
        ).build();
        self.tokens.push(t);
        proof {
            let end = if k < s.len() && s[k] == '.' && k + 1 < s.len() && is_digit_char(s[k + 1]) {
                digit_run_end(s, k + 1)
            } else {
                k
            };
            let lex = s.subrange(i, end);
            assert(token_views(self.tokens@) =~= token_views(old(self).tokens@).push(
                SpecToken {
                    kind: TokenType::Number,
                    lexeme: lex,
                    literal: Some(SpecLiteral::Float(lex)),
                    line: old(self).current_line as int,
                },
            ));
        }
    }

    /// Scans a string literal whose opening quote was just consumed. The
    /// string may span lines: a newline is taken into the text and counted.
    /// Emits one String token reporting the line of the opening quote, or
    /// returns the unterminated-string error when end of input comes first.
    pub(crate) fn string(&mut self, line: usize) -> (r: Result<(), ParserError>)
        requires
            old(self).wf(),
            1 <= old(self).current_ptr,
            old(self).code@[old(self).current_ptr - 1] == '"',
            line == old(self).current_line,
            old(self).current_line <= old(self).current_ptr,
        ensures
            final(self).wf(),
            final(self).code == old(self).code,
            final(self).errors == old(self).errors,
            final(self).current_line <= final(self).current_ptr,
            ({
                let s = old(self).code@;
                let i = old(self).current_ptr - 1;
                let q = find_from(s, i + 1, '"');
                if q == s.len() {
                    r is Err && (r matches Err(e) ==> e@ == SpecError {
                        kind: ScanErrorKind::UnterminatedString,
                        line: old(self).current_line + count_newlines(s, i + 1, s.len() as int),
                        found: None,
                    }) && final(self).current_ptr == s.len() && final(self).current_line as int
                        == old(self).current_line + count_newlines(s, i + 1, s.len() as int)
                        && final(self).tokens == old(self).tokens
                } else {
                    let body = s.subrange(i + 1, q);
                    r is Ok && final(self).current_ptr == q + 1 && final(self).current_line as int
                        == old(self).current_line + count_newlines(s, i + 1, q) && token_views(
                        final(self).tokens@,
                    ) == token_views(old(self).tokens@).push(
                        SpecToken {
                            kind: TokenType::String,
                            lexeme: body,
                            literal: Some(SpecLiteral::String(body)),
                            line: line as int,
                        },
                    )
                }
            }),
    {
        let ghost s = self.code@;
        let ghost start = self.current_ptr as int;
        let ghost line0 = self.current_line as int;
        let mut vector: Vec<char> = Vec::new();
        loop
            invariant
                self.code == old(self).code,
                self.code@ == s,
                self.tokens == old(self).tokens,
                self.errors == old(self).errors,
                start == old(self).current_ptr as int,
                0 < start <= self.current_ptr <= s.len(),
                s.len() < usize::MAX,
                line0 <= start,
                line0 == old(self).current_line,
                forall|j: int| start <= j < self.current_ptr ==> s[j] != '"',
                vector@ =~= s.subrange(start, self.current_ptr as int),
                self.current_line as int == line0 + count_newlines(s, start, self.current_ptr as int),
            decreases s.len() - self.current_ptr,
        {
            proof {
                lemma_count_newlines_split(s, start, start, self.current_ptr as int);
            }
            if self.is_at_end() {
                proof {
                    lemma_find_from_is(s, start, '"', s.len() as int);
                }
                return Err(
                    ParserError {
                        kind: ScanErrorKind::UnterminatedString,
                        line: self.current_line,
                        found: None,
                    },
                );
            }
            let c = self.code[self.current_ptr];
            if c == '"' {
                proof {
                    lemma_find_from_is(s, start, '"', self.current_ptr as int);
                }
                self.seek();
                let body_string = chars_to_string(&vector);
                let literal_text = body_string.clone();
                let t = TokenBuilder::<LiteralType>::new().kind(TokenType::String).lexeme(
                    body_string,
                ).line(line).literal(
                    Some(Literal { kind: LiteralType::String(literal_text) }),
                ).build();
                self.tokens.push(t);
                proof {
                    let q = find_from(s, start, '"');
                    let body = s.subrange(start, q);
                    assert(token_views(self.tokens@) =~= token_views(old(self).tokens@).push(
                        SpecToken {
                            kind: TokenType::String,
                            lexeme: body,
                            literal: Some(SpecLiteral::String(body)),
                            line: line as int,
                        },
                    ));
                }
                return Ok(());
            }
            let ghost p = self.current_ptr as int;
            if c == NEWLINE {
                self.current_line = self.current_line + 1;
            }
            self.seek_with_add(&mut vector);
            proof {
                lemma_count_newlines_split(s, start, p, p + 1);
                assert(count_newlines(s, p + 1, p + 1) == 0);
                assert(count_newlines(s, p, p + 1) == (if s[p] == '\n' {
                    1int
                } else {
                    0int
                }));
                assert(vector@ =~= s.subrange(start, p + 1));
            }
        }
    }

    /// Scans an identifier or keyword whose first character, `prev_char`, was
    /// just consumed: the maximal alphabetic run, looked up in the keyword
    /// table. Emits exactly one token.
    pub(crate) fn identifier(&mut self, line: usize, prev_char: char)
        requires
            old(self).wf(),
            1 <= old(self).current_ptr,
            prev_char == old(self).code@[old(self).current_ptr - 1],
            is_alpha_char(prev_char),
        ensures
            final(self).wf(),
            final(self).code == old(self).code,
            final(self).current_line == old(self).current_line,
            final(self).errors == old(self).errors,
            ({
                let s = old(self).code@;
                let i = old(self).current_ptr - 1;
                let k = alpha_run_end(s, i);
                let lex = s.subrange(i, k);
                final(self).current_ptr == k && token_views(final(self).tokens@) == token_views(
                    old(self).tokens@,
                ).push(plain_token(spec_identifier_kind(lex), lex, line as int))
            }),
    {
        let ghost s = self.code@;
        let ghost i = self.current_ptr - 1 as int;
        let mut id_vec: Vec<char> = Vec::new();
        id_vec.push(prev_char);
        loop
            invariant
                self.code == old(self).code,
                self.code@ == s,
                self.current_line == old(self).current_line,
                self.tokens == old(self).tokens,
                self.errors == old(self).errors,
                i == old(self).current_ptr - 1,
                0 <= i < self.current_ptr <= s.len(),
                forall|j: int| i <= j < self.current_ptr ==> is_alpha_char(s[j]),
                id_vec@ =~= s.subrange(i, self.current_ptr as int),
            ensures
                self.code == old(self).code,
                self.code@ == s,
                self.current_line == old(self).current_line,
                self.tokens == old(self).tokens,
                self.errors == old(self).errors,
                self.current_ptr == alpha_run_end(s, i),
                id_vec@ =~= s.subrange(i, self.current_ptr as int),
            decreases s.len() - self.current_ptr,
        {
            let go = match self.peek() {
                Some(val) => self.is_alpha(&val),
                _ => false,
            };
            if !go {
                proof {
                    lemma_alpha_run_end_is(s, i, self.current_ptr as int);
                }
                break;
            }
            let ghost p = self.current_ptr as int;
            self.seek_with_add(&mut id_vec);
            proof {
                assert(id_vec@ =~= s.subrange(i, p + 1));
            }
        }
        let (token_type, lexeme) = self.prepare_lexeme_for_id(id_vec);
        let t = TokenBuilder::<LiteralType>::new().kind(token_type).lexeme(lexeme).line(
            line,
        ).literal(None).build();
        self.tokens.push(t);
        proof {
            let k = alpha_run_end(s, i);
            let lex = s.subrange(i, k);
            assert(token_views(self.tokens@) =~= token_views(old(self).tokens@).push(
                plain_token(spec_identifier_kind(lex), lex, line as int),
            ));
        }
    }

    /// Classifies one already-consumed character (standing just before the
    /// cursor), consuming whatever more its token needs, emitting at most one
    /// token, and returning the error exactly when the model reports one.
    pub fn scan_individual_token(&mut self, character: &char, line: usize) -> (r: Result<
        (),
        ParserError,
    >)
        requires
            old(self).wf(),
            1 <= old(self).current_ptr,
            *character == old(self).code@[old(self).current_ptr - 1],
            line == old(self).current_line,
            old(self).current_line <= old(self).current_ptr,
        ensures
            final(self).wf(),
            final(self).code == old(self).code,
            final(self).errors == old(self).errors,
            final(self).current_line <= final(self).current_ptr + 1,
            ({
                let st = scan_step_at(
                    old(self).code@,
                    old(self).current_ptr - 1,
                    old(self).current_line as int,
                );
                final(self).current_ptr == old(self).current_ptr - 1 + st.consumed && final(self).current_line as int == st.line && token_views(final(self).tokens@) =~= token_views(
                    old(self).tokens@,
                ) + token_opt_seq(st.token) && (r is Ok <==> st.error is None) && (r matches Err(e)
                    ==> st.error == Some(e@))
            }),
    {
        let ghost s = old(self).code@;
        let ghost i = old(self).current_ptr - 1 as int;
        match character {
            '(' => {
                self.push_plain(TokenType::LeftParen, "(", line);
                proof {
                    reveal_strlit("(");
                    assert("("@ =~= seq!['(']);
                }
                Ok(())
            },
            ')' => {
                self.push_plain(TokenType::RightParen, ")", line);
                proof {
                    reveal_strlit(")");
                    assert(")"@ =~= seq![')']);
                }
                Ok(())
            },
            '{' => {
                self.push_plain(TokenType::LeftBrace, "{", line);
                proof {
                    reveal_strlit("{");
                    assert("{"@ =~= seq!['{']);
                }
                Ok(())
            },
            '}' => {
                self.push_plain(TokenType::RightBrace, "}", line);
                proof {
                    reveal_strlit("}");
                    assert("}"@ =~= seq!['}']);
                }
                Ok(())
            },
            ',' => {
                self.push_plain(TokenType::Comma, ",", line);
                proof {
                    reveal_strlit(",");
                    assert(","@ =~= seq![',']);
                }
                Ok(())
            },
            '.' => {
                self.push_plain(TokenType::Dot, ".", line);
                proof {
                    reveal_strlit(".");
                    assert("."@ =~= seq!['.']);
                }
                Ok(())
            },
            '-' => {
                self.push_plain(TokenType::Minus, "-", line);
                proof {
                    reveal_strlit("-");
                    assert("-"@ =~= seq!['-']);
                }
                Ok(())
            },
            '+' => {
                self.push_plain(TokenType::Plus, "+", line);
                proof {
                    reveal_strlit("+");
                    assert("+"@ =~= seq!['+']);
                }
                Ok(())
            },
            ';' => {
                self.push_plain(TokenType::SemiColon, ";", line);
                proof {
                    reveal_strlit(";");
                    assert(";"@ =~= seq![';']);
                }
                Ok(())
            },
            '*' => {
                self.push_plain(TokenType::Star, "*", line);
                proof {
                    reveal_strlit("*");
                    assert("*"@ =~= seq!['*']);
                }
                Ok(())
            },
            '!' => {
                if self.match_char('=') {
                    self.push_plain(TokenType::BangEqual, "!=", line);
                    proof {
                        reveal_strlit("!=");
                        assert("!="@ =~= seq!['!', '=']);
                    }
                } else {
                    self.push_plain(TokenType::Bang, "!", line);
                    proof {
                        reveal_strlit("!");
                        assert("!"@ =~= seq!['!']);
                    }
                }
                Ok(())
            },
            '=' => {
                if self.match_char('=') {
                    self.push_plain(TokenType::EqualEqual, "==", line);
                    proof {
                        reveal_strlit("==");
                        assert("=="@ =~= seq!['=', '=']);
                    }
                } else {
                    self.push_plain(TokenType::Equal, "=", line);
                    proof {
                        reveal_strlit("=");
                        assert("="@ =~= seq!['=']);
                    }
                }
                Ok(())
            },
            '<' => {
                if self.match_char('=') {
                    self.push_plain(TokenType::LessEqual, "<=", line);
                    proof {
                        reveal_strlit("<=");
                        assert("<="@ =~= seq!['<', '=']);
                    }
                } else {
                    self.push_plain(TokenType::Less, "<", line);
                    proof {
                        reveal_strlit("<");
                        assert("<"@ =~= seq!['<']);
                    }
                }
                Ok(())
            },
            '>' => {
                if self.match_char('=') {
                    self.push_plain(TokenType::GreaterEqual, ">=", line);
                    proof {
                        reveal_strlit(">=");
                        assert(">="@ =~= seq!['>', '=']);
                    }
                } else {
                    self.push_plain(TokenType::Greater, ">", line);
                    proof {
                        reveal_strlit(">");
                        assert(">"@ =~= seq!['>']);
                    }
                }
                Ok(())
            },
            '/' => {
                // If the next character is '/', the rest of the line is a
                // comment and is skipped up to (not including) the newline.
                if self.match_char('/') {
                    self.seek_until(NEWLINE);
                    proof {
                        lemma_find_from(s, i + 2, '\n');
                    }
                } else {
                    self.push_plain(TokenType::Slash, "/", line);
                    proof {
                        reveal_strlit("/");
                        assert("/"@ =~= seq!['/']);
                    }
                }
                Ok(())
            },
            ' ' | '\t' | '\r' => Ok(()),
            '\n' => {
                self.current_line = self.current_line + 1;
                Ok(())
            },
            '"' => {
                // Iterate until the cursor meets the closing quote or the end
                // of input.
                self.string(line)
            },
            _ => {
                if self.is_digit(character) {
                    self.number(*character);
                    proof {
                        let k = digit_run_end(s, i);
                        assert(k == digit_run_end(s, i + 1));
                        lemma_digit_run_end(s, i + 1);
                        if k < s.len() && s[k] == '.' && k + 1 < s.len() && is_digit_char(
                            s[k + 1],
                        ) {
                            lemma_digit_run_end(s, k + 1);
                        }
                    }
                    Ok(())
                } else if self.is_alpha(character) {
                    self.identifier(line, *character);
                    proof {
                        assert(alpha_run_end(s, i) == alpha_run_end(s, i + 1));
                        lemma_alpha_run_end(s, i + 1);
                    }
                    Ok(())
                } else {
                    Err(
                        ParserError {
                            kind: ScanErrorKind::UnrecognizedCharacter,
                            line,
                            found: Some(*character),
                        },
                    )
                }
            },
        }
    }

    /// Drives the classifier across the whole buffer and appends exactly one
    /// end-of-stream sentinel carrying the final line counter. The returned
    /// scanner holds the tokens the model emits for this source, in order,
    /// and the errors it reports, in order.
    pub fn scan_tokens(self) -> (r: Scanner)
        requires
            self.wf(),
            self.current_ptr == 0,
            self.current_line == 1,
            self.tokens@.len() == 0,
            self.errors@.len() == 0,
        ensures
            r.code == self.code,
            r.current_ptr == r.code@.len(),
            token_views(r.tokens@) == scan_spec(self.code@).tokens,
            error_views(r.errors@) == scan_spec(self.code@).errors,
            r.current_line as int == scan_spec(self.code@).line,
    {
        let mut this = self;
        let ghost s = this.code@;
        let ghost full = scan_rest_at(s, 0, 1);
        while !this.is_at_end()
            invariant
                this.code == self.code,
                this.code@ == s,
                s.len() < usize::MAX,
                this.current_ptr <= s.len(),
                this.current_line <= this.current_ptr + 1,
                full == scan_rest_at(s, 0, 1),
                full.tokens =~= token_views(this.tokens@) + scan_rest_at(
                    s,
                    this.current_ptr as int,
                    this.current_line as int,
                ).tokens,
                full.errors =~= error_views(this.errors@) + scan_rest_at(
                    s,
                    this.current_ptr as int,
                    this.current_line as int,
                ).errors,
                full.line == scan_rest_at(s, this.current_ptr as int, this.current_line as int).line,
            decreases s.len() - this.current_ptr,
        {
            let ghost p0 = this.current_ptr as int;
            let ghost l0 = this.current_line as int;
            let ghost toks0 = this.tokens@;
            let ghost errs0 = this.errors@;
            let character = this.code[this.current_ptr];
            this.current_ptr = this.current_ptr + 1;
            let line = this.current_line;
            let res = this.scan_individual_token(&character, line);
            let ghost st = scan_step_at(s, p0, l0);
            match res {
                Ok(()) => {
                    proof {
                        assert(error_views(this.errors@) =~= error_views(errs0) + error_opt_seq(
                            st.error,
                        ));
                    }
                },
                Err(error) => {
                    this.errors.push(error);
                    proof {
                        assert(error_views(this.errors@) =~= error_views(errs0) + error_opt_seq(
                            st.error,
                        ));
                    }
                },
            }
            proof {
                lemma_scan_step_bounds(s, p0, l0);
                lemma_scan_rest_unfold(s, p0, l0);
                let rest = scan_rest_at(s, p0 + st.consumed, st.line);
                assert(scan_rest_at(s, p0, l0).tokens =~= token_opt_seq(st.token) + rest.tokens);
                assert(full.tokens =~= (token_views(toks0) + token_opt_seq(st.token))
                    + rest.tokens);
                assert(full.tokens =~= token_views(this.tokens@) + rest.tokens);
                assert(full.errors =~= (error_views(errs0) + error_opt_seq(st.error))
                    + rest.errors);
                assert(full.errors =~= error_views(this.errors@) + rest.errors);
            }
        }
        proof {
            assert(this.current_ptr == s.len());
            assert(scan_rest_at(s, s.len() as int, this.current_line as int).tokens
                =~= Seq::<SpecToken>::empty());
            assert(full.tokens =~= token_views(this.tokens@));
            assert(full.errors =~= error_views(this.errors@));
        }
        let ghost line_final = this.current_line as int;
        let t = TokenBuilder::<LiteralType>::new().kind(TokenType::Eof).lexeme(
            String::new(),
        ).line(this.current_line).literal(None).build();
        this.tokens.push(t);
        proof {
            assert(token_views(this.tokens@) =~= full.tokens.push(eof_token(line_final)));
            assert(token_views(this.tokens@) =~= scan_spec(s).tokens);
            assert(error_views(this.errors@) =~= scan_spec(s).errors);
        }
        this
    }
}

} // verus!
