//! Character classification used by the scanner: decimal digits and
//! alphabetic characters.

use vstd::prelude::*;

verus! {

/// Whether a character beyond the ASCII range has the Unicode `Alphabetic`
/// property. Only `char::is_alphabetic` can decide this; the scanner's
/// contracts carry the answer by this name.
pub uninterp spec fn alphabetic_beyond_ascii(c: char) -> bool;

/// An ASCII decimal digit, the only characters accepted in number literals.
pub open spec fn is_digit_char(c: char) -> bool {
    '0' <= c && c <= '9'
}

/// An ASCII letter.
pub open spec fn is_ascii_letter(c: char) -> bool {
    ('a' <= c && c <= 'z') || ('A' <= c && c <= 'Z')
}

/// An alphabetic character: among ASCII characters exactly the letters;
/// beyond ASCII, whatever `char::is_alphabetic` answers.
pub open spec fn is_alpha_char(c: char) -> bool {
    if (c as u32) < 128 {
        is_ascii_letter(c)
    } else {
        alphabetic_beyond_ascii(c)
    }
}

/// Relies on `char::is_alphabetic` (std): returns whether the character has
/// the Unicode `Alphabetic` property; among ASCII characters exactly the
/// letters `a`-`z` and `A`-`Z` have it.
pub assume_specification[ char::is_alphabetic ](c: char) -> (r: bool)
    ensures
        r == is_alpha_char(c),
        (c as u32) >= 128 ==> r == alphabetic_beyond_ascii(c),
;

/// Executable test for [`is_digit_char`].
pub fn char_is_digit(c: char) -> (r: bool)
    ensures
        r == is_digit_char(c),
{
    let u = c as u32;
    48 <= u && u <= 57
}

} // verus!
