//! The numbers of the line grammars: an optional sign, digits with an
//! optional fraction, and an optional exponent.

use vstd::prelude::*;
use crate::text::chars_of;

verus! {

/// Whether `c` is a decimal digit.
pub open spec fn is_digit(c: char) -> bool {
    '0' <= c <= '9'
}

/// Whether `c` is a sign.
pub open spec fn is_sign(c: char) -> bool {
    c == '+' || c == '-'
}

/// The first place at or after `from` that holds no digit.
pub open spec fn digits_end(text: Seq<char>, from: int) -> int
    decreases text.len() - from,
{
    if 0 <= from < text.len() && is_digit(text[from]) {
        digits_end(text, from + 1)
    } else {
        from
    }
}

/// The place behind a sign at `from`, and `from` itself where there is none.
pub open spec fn sign_end(text: Seq<char>, from: int) -> int {
    if 0 <= from < text.len() && is_sign(text[from]) {
        from + 1
    } else {
        from
    }
}

/// The place behind the digits and the fraction that start at `from`, or -1
/// where they hold no digit in the last part: digits alone, or digits, which
/// may be missing, then a point and at least one digit.
pub open spec fn mantissa_end(text: Seq<char>, from: int) -> int {
    let whole = digits_end(text, from);
    if 0 <= whole < text.len() && text[whole] == '.' {
        let fraction = digits_end(text, whole + 1);
        if fraction > whole + 1 {
            fraction
        } else {
            -1
        }
    } else if whole > from {
        whole
    } else {
        -1
    }
}

/// Whether the whole text is a decimal number: an optional sign, then digits
/// with an optional fraction, then an optional exponent, which is the letter
/// `e` in either case, an optional sign and at least one digit.
pub open spec fn is_decimal(text: Seq<char>) -> bool {
    let mantissa = mantissa_end(text, sign_end(text, 0));
    if mantissa < 0 {
        false
    } else if mantissa == text.len() {
        true
    } else if text[mantissa] == 'e' || text[mantissa] == 'E' {
        let digits = sign_end(text, mantissa + 1);
        let end = digits_end(text, digits);
        end > digits && end == text.len()
    } else {
        false
    }
}

/// Tells whether `c` is a decimal digit.
pub fn char_is_digit(c: char) -> (digit: bool)
    ensures
        digit == is_digit(c),
{
    '0' <= c && c <= '9'
}

/// Finds the first place at or after `from` that holds no digit.
pub fn skip_digits(text: &Vec<char>, from: usize) -> (end: usize)
    requires
        from <= text@.len(),
    ensures
        end == digits_end(text@, from as int),
        from <= end <= text@.len(),
{
    let mut i: usize = from;
    while i < text.len() && char_is_digit(text[i])
        invariant
            from <= i <= text@.len(),
            digits_end(text@, from as int) == digits_end(text@, i as int),
        decreases text@.len() - i,
    {
        i += 1;
    }
    i
}

/// Finds the place behind a sign at `from`.
pub fn skip_sign(text: &Vec<char>, from: usize) -> (end: usize)
    requires
        from <= text@.len(),
    ensures
        end == sign_end(text@, from as int),
        from <= end <= text@.len(),
{
    if from < text.len() && (text[from] == '+' || text[from] == '-') {
        from + 1
    } else {
        from
    }
}

/// Tells whether the whole text is a decimal number.
pub fn check_decimal(text: &str) -> (decimal: bool)
    ensures
        decimal == is_decimal(text@),
{
    let chars = chars_of(text);
    let n = chars.len();
    let start = skip_sign(&chars, 0);
    let whole = skip_digits(&chars, start);
    let mantissa = if whole < n && chars[whole] == '.' {
        let fraction = skip_digits(&chars, whole + 1);
        if fraction > whole + 1 {
            fraction
        } else {
            return false;
        }
    } else if whole > start {
        whole
    } else {
        return false;
    };
    if mantissa == n {
        true
    } else if chars[mantissa] == 'e' || chars[mantissa] == 'E' {
        let digits = skip_sign(&chars, mantissa + 1);
        let end = skip_digits(&chars, digits);
        end > digits && end == n
    } else {
        false
    }
}

} // verus!
