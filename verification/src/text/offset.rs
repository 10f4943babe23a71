//! Byte offsets of character positions.

use vstd::prelude::*;
use vstd::string::*;
use vstd::utf8::*;

verus! {

/// The number of bytes that UTF-8 uses for `c`.
pub open spec fn char_width(c: char) -> nat {
    encode_scalar(c as u32).len()
}

/// The number of bytes in the UTF-8 form of `s`.
pub open spec fn byte_len(s: Seq<char>) -> nat {
    encode_utf8(s).len()
}

/// The byte offset at which character `k` of `s` begins.
pub open spec fn byte_offset(s: Seq<char>, k: int) -> nat {
    byte_len(s.take(k))
}

/// `offset` is the byte offset of the optional character position `k`.
pub open spec fn is_offset_of(offset: Option<usize>, s: Seq<char>, k: Option<int>) -> bool {
    match (offset, k) {
        (Some(o), Some(i)) => o == byte_offset(s, i),
        (None, None) => true,
        _ => false,
    }
}

pub proof fn lemma_char_width(c: char)
    ensures
        1 <= char_width(c) <= 4,
        c as u32 <= 0x7F ==> char_width(c) == 1,
        0x80 <= c as u32 <= 0x7FF ==> char_width(c) == 2,
        0x800 <= c as u32 <= 0xFFFF ==> char_width(c) == 3,
        0x10000 <= c as u32 ==> char_width(c) == 4,
{
}

/// The length of a concatenation is the sum of the lengths.
pub proof fn lemma_byte_len_concat(a: Seq<char>, b: Seq<char>)
    ensures
        encode_utf8(a + b) == encode_utf8(a) + encode_utf8(b),
        byte_len(a + b) == byte_len(a) + byte_len(b),
    decreases a.len(),
{
    if a.len() == 0 {
        assert(a + b =~= b);
        assert(encode_utf8(a) + encode_utf8(b) =~= encode_utf8(b));
    } else {
        lemma_byte_len_concat(a.drop_first(), b);
        assert((a + b).drop_first() =~= a.drop_first() + b);
        assert(encode_utf8(a + b) =~= encode_utf8(a) + encode_utf8(b));
    }
}

/// A text has at least as many bytes as characters.
pub proof fn lemma_byte_len_bounds(s: Seq<char>)
    ensures
        s.len() <= byte_len(s) <= 4 * s.len(),
    decreases s.len(),
{
    if s.len() > 0 {
        lemma_char_width(s[0]);
        lemma_byte_len_bounds(s.drop_first());
    }
}

/// One more character moves the offset by its width.
pub proof fn lemma_byte_offset_step(s: Seq<char>, k: int)
    requires
        0 <= k < s.len(),
    ensures
        byte_offset(s, k + 1) == byte_offset(s, k) + char_width(s[k]),
        byte_offset(s, k) < byte_offset(s, k + 1),
{
    assert(s.take(k + 1) =~= s.take(k) + seq![s[k]]);
    lemma_byte_len_concat(s.take(k), seq![s[k]]);
    lemma_char_width(s[k]);
    let one = seq![s[k]];
    assert(one.drop_first() =~= Seq::<char>::empty());
    assert(encode_utf8(one.drop_first()) =~= Seq::<u8>::empty());
    assert(encode_utf8(one) =~= encode_scalar(s[k] as u32));
}

/// Offsets grow with the position.
pub proof fn lemma_byte_offset_monotone(s: Seq<char>, j: int, k: int)
    requires
        0 <= j <= k <= s.len(),
    ensures
        byte_offset(s, j) + (k - j) <= byte_offset(s, k),
    decreases k - j,
{
    if j < k {
        lemma_byte_offset_step(s, k - 1);
        lemma_byte_offset_monotone(s, j, k - 1);
    }
}

/// The offsets at the two ends of a text.
pub proof fn lemma_byte_offset_ends(s: Seq<char>)
    ensures
        byte_offset(s, 0) == 0,
        byte_offset(s, s.len() as int) == byte_len(s),
{
    assert(s.take(s.len() as int) =~= s);
    assert(s.take(0) =~= Seq::<char>::empty());
}

/// A text in memory has at most `usize::MAX` bytes.
pub fn byte_count(s: &str) -> (n: usize)
    ensures
        n == byte_len(s@),
        s@.len() <= n,
{
    proof {
        lemma_byte_len_bounds(s@);
    }
    s.as_bytes().len()
}

/// `char::len_utf8`.
pub fn width_of(c: char) -> (n: usize)
    ensures
        n == char_width(c),
        1 <= n <= 4,
{
    proof {
        lemma_char_width(c);
    }
    let code: u32 = c as u32;
    if code <= 0x7F {
        1
    } else if code <= 0x7FF {
        2
    } else if code <= 0xFFFF {
        3
    } else {
        4
    }
}

/// The byte offset at which character `k` begins.
pub fn offset_at(s: &[char], k: usize) -> (n: usize)
    requires
        k <= s@.len(),
        byte_len(s@) <= usize::MAX,
    ensures
        n == byte_offset(s@, k as int),
        n <= byte_len(s@),
{
    proof {
        lemma_byte_offset_ends(s@);
        lemma_byte_offset_monotone(s@, k as int, s@.len() as int);
    }
    let mut i: usize = 0;
    let mut n: usize = 0;
    while i < k
        invariant
            i <= k <= s@.len(),
            n == byte_offset(s@, i as int),
            byte_len(s@) <= usize::MAX,
        decreases k - i,
    {
        proof {
            lemma_byte_offset_step(s@, i as int);
            lemma_byte_offset_ends(s@);
            lemma_byte_offset_monotone(s@, i + 1, s@.len() as int);
        }
        n += width_of(s[i]);
        i += 1;
    }
    n
}

/// The byte offset of an optional character position.
pub fn offset_of_position(s: &[char], k: Option<usize>) -> (r: Option<usize>)
    requires
        k is Some ==> k->0 <= s@.len(),
        byte_len(s@) <= usize::MAX,
    ensures
        r is Some <==> k is Some,
        r is Some ==> r->0 == byte_offset(s@, k->0 as int) && r->0 <= byte_len(s@),
{
    match k {
        Some(i) => Some(offset_at(s, i)),
        None => None,
    }
}

/// The least character position whose byte offset is at least `offset`, or
/// the length of `s` where there is none.
pub open spec fn position_from(s: Seq<char>, offset: int, k: int) -> int
    decreases s.len() - k,
{
    if 0 <= k < s.len() && byte_offset(s, k) < offset {
        position_from(s, offset, k + 1)
    } else {
        k
    }
}

/// The least character position whose byte offset is at least `offset`.
pub fn position_at(s: &[char], offset: usize) -> (k: usize)
    requires
        byte_len(s@) <= usize::MAX,
    ensures
        k == position_from(s@, offset as int, 0),
        k <= s@.len(),
{
    let mut i: usize = 0;
    let mut n: usize = 0;
    proof {
        lemma_byte_offset_ends(s@);
    }
    while i < s.len() && n < offset
        invariant
            i <= s@.len(),
            n == byte_offset(s@, i as int),
            byte_len(s@) <= usize::MAX,
            position_from(s@, offset as int, 0) == position_from(s@, offset as int, i as int),
        decreases s@.len() - i,
    {
        proof {
            lemma_byte_offset_step(s@, i as int);
            lemma_byte_offset_ends(s@);
            lemma_byte_offset_monotone(s@, i + 1, s@.len() as int);
        }
        n += width_of(s[i]);
        i += 1;
    }
    i
}

} // verus!
