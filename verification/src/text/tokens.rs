//! The tokens of a text between white space.

use vstd::prelude::*;
use crate::text::chars::{text_of_range, texts};
use crate::text::trim::{char_is_space, is_space, lemma_space_run_end, skip_space, space_run_end};

verus! {

/// The end of the run of other characters that begins at position `k`.
pub open spec fn token_end(s: Seq<char>, k: int) -> int
    decreases s.len() - k,
{
    if 0 <= k < s.len() && !is_space(s[k]) {
        token_end(s, k + 1)
    } else {
        k
    }
}

/// The tokens from position `i` on.
pub open spec fn tokens_from(s: Seq<char>, i: int) -> Seq<Seq<char>>
    decreases s.len() - i,
{
    let from = space_run_end(s, i);
    if i < 0 || i > s.len() || from >= s.len() {
        Seq::empty()
    } else {
        proof {
            lemma_space_run_end(s, i);
            lemma_token_end(s, from);
        }
        seq![s.subrange(from, token_end(s, from))] + tokens_from(s, token_end(s, from))
    }
}

/// `str::split_whitespace`.
pub open spec fn tokens(s: Seq<char>) -> Seq<Seq<char>> {
    tokens_from(s, 0)
}

pub proof fn lemma_token_end(s: Seq<char>, k: int)
    requires
        0 <= k <= s.len(),
    ensures
        k <= token_end(s, k) <= s.len(),
        k < s.len() && !is_space(s[k]) ==> k < token_end(s, k),
    decreases s.len() - k,
{
    if k < s.len() && !is_space(s[k]) {
        lemma_token_end(s, k + 1);
    }
}

/// The end of the token that begins at position `from`.
pub fn end_of_token(s: &[char], from: usize) -> (r: usize)
    requires
        from <= s@.len(),
    ensures
        r == token_end(s@, from as int),
        from <= r <= s@.len(),
        from < s@.len() && !is_space(s@[from as int]) ==> from < r,
{
    let mut k: usize = from;
    while k < s.len() && !char_is_space(s[k])
        invariant
            from <= k <= s@.len(),
            token_end(s@, from as int) == token_end(s@, k as int),
        decreases s@.len() - k,
    {
        k += 1;
    }
    proof {
        lemma_token_end(s@, from as int);
    }
    k
}

/// `str::split_whitespace`.
pub fn split_tokens(s: &[char]) -> (r: Vec<String>)
    ensures
        texts(r@) == tokens(s@),
{
    let mut r: Vec<String> = Vec::new();
    let mut i: usize = 0;
    assert(texts(r@) + tokens_from(s@, 0) =~= tokens(s@));
    loop
        invariant
            i <= s@.len(),
            texts(r@) + tokens_from(s@, i as int) == tokens(s@),
        decreases s@.len() - i,
    {
        let from: usize = skip_space(s, i);
        proof {
            lemma_space_run_end(s@, i as int);
        }
        if from >= s.len() {
            assert(texts(r@) + Seq::<Seq<char>>::empty() =~= texts(r@));
            return r;
        }
        let end: usize = end_of_token(s, from);
        let ghost before = texts(r@);
        let ghost token = s@.subrange(from as int, end as int);
        r.push(text_of_range(s, from, end));
        assert(texts(r@) =~= before.push(token));
        assert(before.push(token) + tokens_from(s@, end as int) =~= before + (seq![token]
            + tokens_from(s@, end as int)));
        i = end;
    }
}

} // verus!
