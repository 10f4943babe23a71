//! Unicode white space and trimming.

use vstd::prelude::*;
use vstd::string::*;
use crate::text::chars::{chars_of, text_of_range};

verus! {

/// The code points that carry the Unicode `White_Space` property.
pub open spec fn is_space(c: char) -> bool {
    ||| '\u{9}' <= c && c <= '\u{D}'
    ||| c == ' '
    ||| c == '\u{85}'
    ||| c == '\u{A0}'
    ||| c == '\u{1680}'
    ||| '\u{2000}' <= c && c <= '\u{200A}'
    ||| c == '\u{2028}'
    ||| c == '\u{2029}'
    ||| c == '\u{202F}'
    ||| c == '\u{205F}'
    ||| c == '\u{3000}'
}

/// The first position at or after `k` that holds no white space.
pub open spec fn space_run_end(s: Seq<char>, k: int) -> int
    decreases s.len() - k,
{
    if 0 <= k < s.len() && is_space(s[k]) {
        space_run_end(s, k + 1)
    } else {
        k
    }
}

/// The start of the run of white space that ends at `k`.
pub open spec fn space_run_start(s: Seq<char>, k: int) -> int
    decreases k,
{
    if 0 < k <= s.len() && is_space(s[k - 1]) {
        space_run_start(s, k - 1)
    } else {
        k
    }
}

pub open spec fn trim_start(s: Seq<char>) -> Seq<char> {
    s.subrange(space_run_end(s, 0), s.len() as int)
}

pub open spec fn trim_end(s: Seq<char>) -> Seq<char> {
    s.subrange(0, space_run_start(s, s.len() as int))
}

/// `s` without the white space at its two ends.
pub open spec fn trim(s: Seq<char>) -> Seq<char> {
    trim_end(trim_start(s))
}

/// The bounds of a run of white space read forwards.
pub proof fn lemma_space_run_end(s: Seq<char>, k: int)
    requires
        0 <= k <= s.len(),
    ensures
        k <= space_run_end(s, k) <= s.len(),
        forall|i: int| k <= i < space_run_end(s, k) ==> is_space(#[trigger] s[i]),
        space_run_end(s, k) < s.len() ==> !is_space(s[space_run_end(s, k)]),
    decreases s.len() - k,
{
    if k < s.len() && is_space(s[k]) {
        lemma_space_run_end(s, k + 1);
    }
}

/// The bounds of a run of white space read backwards.
proof fn lemma_space_run_start(s: Seq<char>, k: int)
    requires
        0 <= k <= s.len(),
    ensures
        0 <= space_run_start(s, k) <= k,
        forall|i: int| space_run_start(s, k) <= i < k ==> is_space(#[trigger] s[i]),
        space_run_start(s, k) > 0 ==> !is_space(s[space_run_start(s, k) - 1]),
    decreases k,
{
    if 0 < k && is_space(s[k - 1]) {
        lemma_space_run_start(s, k - 1);
    }
}

/// Trimming drops the white space at both ends, and nothing else.
pub proof fn lemma_trim(s: Seq<char>) -> (r: (int, int))
    ensures
        0 <= r.0 <= r.1 <= s.len(),
        trim(s) == s.subrange(r.0, r.1),
        forall|i: int| 0 <= i < r.0 ==> is_space(#[trigger] s[i]),
        forall|i: int| r.1 <= i < s.len() ==> is_space(#[trigger] s[i]),
        r.0 < r.1 ==> !is_space(s[r.0]) && !is_space(s[r.1 - 1]),
{
    let a = space_run_end(s, 0);
    let rest = trim_start(s);
    let b = space_run_start(rest, rest.len() as int);
    lemma_space_run_end(s, 0);
    lemma_space_run_start(rest, rest.len() as int);
    assert(trim(s) =~= s.subrange(a, a + b));
    assert forall|i: int| a + b <= i < s.len() implies is_space(#[trigger] s[i]) by {
        assert(rest[i - a] == s[i]);
    }
    if b > 0 {
        assert(rest[b - 1] == s[a + b - 1]);
    }
    (a, a + b)
}

/// What stands between white space and neither begins nor ends with any is what
/// trimming leaves.
pub proof fn lemma_trimmed_part(s: Seq<char>, a: int, b: int)
    requires
        0 <= a < b <= s.len(),
        forall|i: int| 0 <= i < a ==> is_space(#[trigger] s[i]),
        forall|i: int| b <= i < s.len() ==> is_space(#[trigger] s[i]),
        !is_space(s[a]),
        !is_space(s[b - 1]),
    ensures
        trim(s) == s.subrange(a, b),
{
    let (x, y) = lemma_trim(s);
    assert(x <= a && b <= y);
    assert(x == a);
    assert(y == b);
}

pub fn char_is_space(c: char) -> (r: bool)
    ensures
        r == is_space(c),
{
    ('\u{9}' <= c && c <= '\u{D}') || c == ' ' || c == '\u{85}' || c == '\u{A0}' || c == '\u{1680}'
        || ('\u{2000}' <= c && c <= '\u{200A}') || c == '\u{2028}' || c == '\u{2029}' || c
        == '\u{202F}' || c == '\u{205F}' || c == '\u{3000}'
}

/// The first position at or after `k` that holds no white space.
pub fn skip_space(s: &[char], k: usize) -> (r: usize)
    requires
        k <= s@.len(),
    ensures
        r == space_run_end(s@, k as int),
        k <= r <= s@.len(),
{
    let mut i: usize = k;
    while i < s.len() && char_is_space(s[i])
        invariant
            k <= i <= s@.len(),
            space_run_end(s@, k as int) == space_run_end(s@, i as int),
        decreases s@.len() - i,
    {
        i += 1;
    }
    i
}

/// The range of `s` that remains when the white space at both ends is dropped.
pub fn trim_range(s: &[char]) -> (r: (usize, usize))
    ensures
        r.0 <= r.1 <= s@.len(),
        s@.subrange(r.0 as int, r.1 as int) == trim(s@),
{
    let start: usize = skip_space(s, 0);
    let mut end: usize = s.len();
    let ghost rest = s@.subrange(start as int, s@.len() as int);
    assert(rest == trim_start(s@));
    while end > start && char_is_space(s[end - 1])
        invariant
            start <= end <= s@.len(),
            rest == s@.subrange(start as int, s@.len() as int),
            space_run_start(rest, rest.len() as int) == space_run_start(rest, end - start),
        decreases end - start,
    {
        assert(rest[end - start - 1] == s@[end - 1]);
        end -= 1;
    }
    proof {
        if end > start {
            assert(rest[end - start - 1] == s@[end - 1]);
        }
        assert(space_run_start(rest, end - start) == end - start);
        assert(s@.subrange(start as int, end as int) =~= trim(s@));
    }
    (start, end)
}

/// `str::trim`.
pub fn trimmed<'a>(s: &'a str) -> (r: &'a str)
    ensures
        r@ == trim(s@),
{
    let chars: Vec<char> = super::chars::chars_of(s);
    let (start, end) = trim_range(chars.as_slice());
    s.substring_char(start, end)
}

/// `s` without the characters `c` at its end.
pub open spec fn trim_end_char(s: Seq<char>, c: char) -> Seq<char>
    decreases s.len(),
{
    if s.len() > 0 && s.last() == c {
        trim_end_char(s.drop_last(), c)
    } else {
        s
    }
}

/// `s` without the characters `c` at its beginning.
pub open spec fn trim_start_char(s: Seq<char>, c: char) -> Seq<char>
    decreases s.len(),
{
    if s.len() > 0 && s[0] == c {
        trim_start_char(s.drop_first(), c)
    } else {
        s
    }
}

/// `str::trim_matches` with a character.
pub open spec fn trim_char(s: Seq<char>, c: char) -> Seq<char> {
    trim_end_char(trim_start_char(s, c), c)
}

/// The end of the text without the characters `c` at its end.
pub fn without_char_at_end(s: &[char], c: char) -> (n: usize)
    ensures
        n <= s@.len(),
        trim_end_char(s@, c) == s@.take(n as int),
{
    let mut n: usize = s.len();
    assert(s@.take(n as int) =~= s@);
    while n > 0 && s[n - 1] == c
        invariant
            n <= s@.len(),
            trim_end_char(s@, c) == trim_end_char(s@.take(n as int), c),
        decreases n,
    {
        assert(s@.take(n as int).drop_last() =~= s@.take(n - 1));
        n -= 1;
    }
    n
}

/// `str::trim_matches` with a character.
pub fn without_char_around(s: &[char], c: char) -> (r: Vec<char>)
    ensures
        r@ == trim_char(s@, c),
{
    let mut k: usize = 0;
    assert(s@.skip(0) =~= s@);
    while k < s.len() && s[k] == c
        invariant
            k <= s@.len(),
            trim_start_char(s@, c) == trim_start_char(s@.skip(k as int), c),
        decreases s@.len() - k,
    {
        assert(s@.skip(k as int).drop_first() =~= s@.skip(k + 1));
        k += 1;
    }
    let inner: &[char] = vstd::slice::slice_subrange(s, k, s.len());
    assert(inner@ =~= s@.skip(k as int));
    let n: usize = without_char_at_end(inner, c);
    let text: String = text_of_range(inner, 0, n);
    assert(inner@.subrange(0, n as int) =~= inner@.take(n as int));
    chars_of(text.as_str())
}

} // verus!
