//! The texts that denote a floating-point number.

use vstd::prelude::*;
use crate::text::ascii::{char_is_digit, eq_ci, is_digit, matches_word_at};
use crate::text::chars::chars_of;

verus! {

/// The end of the digits that begin at position `k`.
pub open spec fn digits_end(s: Seq<char>, k: int) -> int
    decreases s.len() - k,
{
    if 0 <= k < s.len() && is_digit(s[k]) {
        digits_end(s, k + 1)
    } else {
        k
    }
}

pub open spec fn is_sign(c: char) -> bool {
    c == '+' || c == '-'
}

/// An optional exponent takes up the text from position `k` on.
pub open spec fn is_exponent(s: Seq<char>, k: int) -> bool {
    if k == s.len() {
        true
    } else {
        let m = if k + 1 < s.len() && is_sign(s[k + 1]) {
            k + 2
        } else {
            k + 1
        };
        &&& s[k] == 'e' || s[k] == 'E'
        &&& m < s.len()
        &&& digits_end(s, m) == s.len()
    }
}

/// Digits with an optional point among or around them, and an optional
/// exponent.
pub open spec fn is_number_text(s: Seq<char>) -> bool {
    let a = digits_end(s, 0);
    if a < s.len() && s[a] == '.' {
        let b = digits_end(s, a + 1);
        (a > 0 || b > a + 1) && is_exponent(s, b)
    } else {
        a > 0 && is_exponent(s, a)
    }
}

/// What `f64::from_str` accepts: an optional sign, then `inf`, `infinity`,
/// `nan` in any case, or a number.
pub open spec fn is_float_text(s: Seq<char>) -> bool {
    let t = if s.len() > 0 && is_sign(s[0]) {
        s.skip(1)
    } else {
        s
    };
    eq_ci(t, "inf"@) || eq_ci(t, "infinity"@) || eq_ci(t, "nan"@) || is_number_text(t)
}

pub fn skip_digits(s: &[char], from: usize) -> (r: usize)
    requires
        from <= s@.len(),
    ensures
        r == digits_end(s@, from as int),
        from <= r <= s@.len(),
{
    let mut k: usize = from;
    while k < s.len() && char_is_digit(s[k])
        invariant
            from <= k <= s@.len(),
            digits_end(s@, from as int) == digits_end(s@, k as int),
        decreases s@.len() - k,
    {
        k += 1;
    }
    k
}

fn exponent_from(s: &[char], k: usize) -> (r: bool)
    requires
        k <= s@.len(),
    ensures
        r == is_exponent(s@, k as int),
{
    let n: usize = s.len();
    if k == n {
        return true;
    }
    if s[k] != 'e' && s[k] != 'E' {
        return false;
    }
    let m: usize = if k + 1 < n && (s[k + 1] == '+' || s[k + 1] == '-') {
        k + 2
    } else {
        k + 1
    };
    m < n && skip_digits(s, m) == n
}

pub fn number_text(s: &[char]) -> (r: bool)
    ensures
        r == is_number_text(s@),
{
    let a: usize = skip_digits(s, 0);
    if a < s.len() && s[a] == '.' {
        let b: usize = skip_digits(s, a + 1);
        (a > 0 || b > a + 1) && exponent_from(s, b)
    } else {
        a > 0 && exponent_from(s, a)
    }
}

/// Whether two texts are equal up to ASCII case.
pub fn equal_ci(s: &[char], word: &str) -> (r: bool)
    ensures
        r == eq_ci(s@, word@),
{
    let w: Vec<char> = chars_of(word);
    s.len() == w.len() && matches_word_at(s, 0, w.as_slice())
}

/// Whether `f64::from_str` accepts the text.
pub fn float_text(s: &[char]) -> (r: bool)
    ensures
        r == is_float_text(s@),
{
    let from: usize = if s.len() > 0 && (s[0] == '+' || s[0] == '-') {
        1
    } else {
        0
    };
    let t: &[char] = vstd::slice::slice_subrange(s, from, s.len());
    assert(t@ =~= if from == 1 {
        s@.skip(1)
    } else {
        s@
    });
    equal_ci(t, "inf") || equal_ci(t, "infinity") || equal_ci(t, "nan") || number_text(t)
}

} // verus!
