//! Splitting a text at a separator, and joining texts.

use vstd::prelude::*;
use vstd::string::*;
use crate::text::chars::{chars_of, text_of_range, texts};
use crate::text::search::{find_char, position_of_char};

verus! {

/// The pieces of `s` from position `from` on, cut at every `c`. There is
/// always at least one piece.
pub open spec fn pieces_from(s: Seq<char>, c: char, from: int) -> Seq<Seq<char>>
    decreases s.len() - from,
    via pieces_from_decreases
{
    match find_char(s, c, from) {
        Some(k) => if from <= k < s.len() {
            seq![s.subrange(from, k)] + pieces_from(s, c, k + 1)
        } else {
            seq![s.skip(from)]
        },
        None => seq![s.skip(from)],
    }
}

#[via_fn]
proof fn pieces_from_decreases(s: Seq<char>, c: char, from: int) {
}

/// `str::split` at a character.
pub open spec fn pieces(s: Seq<char>, c: char) -> Seq<Seq<char>> {
    pieces_from(s, c, 0)
}

/// The texts with `sep` between each two.
pub open spec fn joined(parts: Seq<Seq<char>>, sep: Seq<char>) -> Seq<char>
    decreases parts.len(),
{
    if parts.len() == 0 {
        Seq::empty()
    } else if parts.len() == 1 {
        parts[0]
    } else {
        joined(parts.drop_last(), sep) + sep + parts.last()
    }
}

/// Joined texts begin with the first, and go on with the others joined.
pub proof fn lemma_joined_first(parts: Seq<Seq<char>>, sep: Seq<char>)
    requires
        parts.len() > 1,
    ensures
        joined(parts, sep) == parts[0] + sep + joined(parts.skip(1), sep),
    decreases parts.len(),
{
    let rest = parts.skip(1);
    if parts.len() == 2 {
        assert(parts.drop_last().len() == 1);
        assert(joined(parts.drop_last(), sep) == parts[0]);
        assert(joined(rest, sep) == parts[1]);
    } else {
        lemma_joined_first(parts.drop_last(), sep);
        assert(parts.drop_last().skip(1) =~= rest.drop_last());
        assert(joined(rest, sep) == joined(rest.drop_last(), sep) + sep + parts.last());
        assert(joined(parts, sep) =~= parts[0] + sep + joined(rest, sep));
    }
}

/// `[String]::join`.
pub fn join_texts(parts: &[String], sep: &str) -> (r: String)
    ensures
        r@ == joined(texts(parts@), sep@),
{
    let mut r: String = String::new();
    let mut i: usize = 0;
    assert(texts(parts@).take(0) =~= Seq::<Seq<char>>::empty());
    while i < parts.len()
        invariant
            i <= parts@.len(),
            r@ == joined(texts(parts@).take(i as int), sep@),
        decreases parts@.len() - i,
    {
        let ghost grown = texts(parts@).take(i + 1);
        assert(grown.drop_last() =~= texts(parts@).take(i as int));
        assert(grown.last() == parts@[i as int]@);
        if i > 0 {
            r.append(sep);
        }
        r.append(parts[i].as_str());
        proof {
            if i == 0 {
                assert(r@ =~= parts@[0]@);
            }
        }
        i += 1;
    }
    assert(texts(parts@).take(parts@.len() as int) =~= texts(parts@));
    r
}

/// `str::split` at a character.
pub fn split_text(s: &str, c: char) -> (r: Vec<String>)
    ensures
        texts(r@) == pieces(s@, c),
        r@.len() > 0,
{
    let chars: Vec<char> = chars_of(s);
    let mut r: Vec<String> = Vec::new();
    let mut from: usize = 0;
    assert(texts(r@) + pieces_from(s@, c, 0) =~= pieces(s@, c));
    let mut next: Option<usize> = position_of_char(chars.as_slice(), c, from);
    while next.is_some()
        invariant
            chars@ == s@,
            from <= s@.len(),
            next is Some <==> find_char(s@, c, from as int) is Some,
            next is Some ==> find_char(s@, c, from as int) == Some(next->0 as int) && from
                <= next->0 < s@.len(),
            texts(r@) + pieces_from(s@, c, from as int) == pieces(s@, c),
        decreases s@.len() - from,
    {
        let k: usize = next.unwrap();
        let ghost before = texts(r@);
        r.push(text_of_range(chars.as_slice(), from, k));
        assert(texts(r@) =~= before.push(s@.subrange(from as int, k as int)));
        assert(texts(r@) + pieces_from(s@, c, k + 1) =~= before + (seq![
            s@.subrange(from as int, k as int),
        ] + pieces_from(s@, c, k + 1)));
        from = k + 1;
        next = position_of_char(chars.as_slice(), c, from);
    }
    let ghost before = texts(r@);
    r.push(text_of_range(chars.as_slice(), from, chars.len()));
    assert(s@.skip(from as int) =~= s@.subrange(from as int, s@.len() as int));
    assert(texts(r@) =~= before + seq![s@.skip(from as int)]);
    r
}

} // verus!
