//! Verified construction of `String` values: turning accumulated characters
//! into lexemes and rendering numbers in decimal.

use vstd::prelude::*;
use vstd::string::StringExecFns;

verus! {

/// Relies on `String::push` (std): appends exactly the given character to the
/// end of the string.
#[verifier::external_body]
pub fn push_char(s: &mut String, c: char)
    ensures
        final(s)@ == old(s)@.push(c),
{
    s.push(c);
}

/// Builds the `String` whose characters are exactly those of `v`, in order.
pub fn chars_to_string(v: &Vec<char>) -> (s: String)
    ensures
        s@ == v@,
{
    let mut s = String::new();
    let mut i: usize = 0;
    while i < v.len()
        invariant
            i <= v@.len(),
            s@ =~= v@.subrange(0, i as int),
        decreases v@.len() - i,
    {
        push_char(&mut s, v[i]);
        proof {
            assert(s@ =~= v@.subrange(0, i + 1 as int));
        }
        i = i + 1;
    }
    proof {
        assert(s@ =~= v@);
    }
    s
}

/// The decimal digit character for a value below ten.
pub open spec fn spec_digit_char(d: int) -> char {
    if d == 0 {
        '0'
    } else if d == 1 {
        '1'
    } else if d == 2 {
        '2'
    } else if d == 3 {
        '3'
    } else if d == 4 {
        '4'
    } else if d == 5 {
        '5'
    } else if d == 6 {
        '6'
    } else if d == 7 {
        '7'
    } else if d == 8 {
        '8'
    } else {
        '9'
    }
}

/// The usual decimal numeral of a non-negative integer, most significant
/// digit first, with no leading zeros (a single `0` for zero).
pub open spec fn spec_decimal(n: int) -> Seq<char>
    recommends
        n >= 0,
    decreases n,
{
    if n < 10 {
        seq![spec_digit_char(n)]
    } else {
        spec_decimal(n / 10).push(spec_digit_char(n % 10))
    }
}

fn digit_char_of(d: u64) -> (c: char)
    requires
        d < 10,
    ensures
        c == spec_digit_char(d as int),
{
    if d == 0 {
        '0'
    } else if d == 1 {
        '1'
    } else if d == 2 {
        '2'
    } else if d == 3 {
        '3'
    } else if d == 4 {
        '4'
    } else if d == 5 {
        '5'
    } else if d == 6 {
        '6'
    } else if d == 7 {
        '7'
    } else if d == 8 {
        '8'
    } else {
        '9'
    }
}

/// Renders a number as its decimal numeral.
pub fn decimal_string(n: u64) -> (s: String)
    ensures
        s@ == spec_decimal(n as int),
{
    let mut digits: Vec<char> = Vec::new();
    let mut m = n;
    loop
        invariant_except_break
            digits@.len() == 0 ==> m == n,
            digits@.len() >= 1 ==> m > 0 && spec_decimal(n as int) =~= spec_decimal(m as int)
                + digits@.reverse(),
        ensures
            spec_decimal(n as int) =~= digits@.reverse(),
        decreases m,
    {
        let d = m % 10;
        let c = digit_char_of(d);
        let ghost pre = digits@;
        let ghost m0 = m as int;
        digits.push(c);
        m = m / 10;
        proof {
            assert(digits@.reverse() =~= seq![c] + pre.reverse());
            if m0 < 10 {
                assert(spec_decimal(m0) =~= seq![c]);
            } else {
                assert(spec_decimal(m0) == spec_decimal(m0 / 10).push(spec_digit_char(m0 % 10)));
                assert(spec_decimal(m0) =~= spec_decimal(m0 / 10) + seq![c]);
            }
            if pre.len() == 0 {
                if m0 < 10 {
                    assert(spec_decimal(n as int) =~= digits@.reverse());
                } else {
                    assert(spec_decimal(n as int) =~= spec_decimal(m as int) + digits@.reverse());
                }
            } else {
                if m0 < 10 {
                    assert(spec_decimal(n as int) =~= spec_decimal(m0) + pre.reverse());
                    assert(spec_decimal(n as int) =~= digits@.reverse());
                } else {
                    assert(spec_decimal(n as int) =~= (spec_decimal(m0 / 10) + seq![c])
                        + pre.reverse());
                    assert((spec_decimal(m0 / 10) + seq![c]) + pre.reverse() =~= spec_decimal(
                        m0 / 10,
                    ) + (seq![c] + pre.reverse()));
                    assert(spec_decimal(n as int) =~= spec_decimal(m as int) + digits@.reverse());
                }
            }
        }
        if m == 0 {
            break;
        }
    }
    let mut s = String::new();
    let mut i: usize = digits.len();
    while i > 0
        invariant
            i <= digits@.len(),
            s@ =~= digits@.subrange(i as int, digits@.len() as int).reverse(),
        decreases i,
    {
        i = i - 1;
        push_char(&mut s, digits[i]);
        proof {
            let tail = digits@.subrange(i + 1 as int, digits@.len() as int);
            assert(digits@.subrange(i as int, digits@.len() as int).reverse() =~= tail
                .reverse().push(digits@[i as int]));
        }
    }
    proof {
        assert(digits@.subrange(0, digits@.len() as int) =~= digits@);
        assert(s@ =~= digits@.reverse());
    }
    s
}


/// The decimal numeral of an integer, with a leading minus sign when
/// negative.
pub open spec fn spec_int_decimal(n: int) -> Seq<char> {
    if n < 0 {
        "-"@ + spec_decimal(-n)
    } else {
        spec_decimal(n)
    }
}

/// Renders a signed number as its decimal numeral.
pub fn int_decimal(i: i32) -> (s: String)
    ensures
        s@ == spec_int_decimal(i as int),
{
    if i < 0 {
        let mut s = String::from_str("-");
        let m: u64 = (-(i as i64)) as u64;
        let digits = decimal_string(m);
        s.append(digits.as_str());
        s
    } else {
        decimal_string(i as u64)
    }
}

} // verus!
