//! Keyword search in SQL text that looks through quotes, comments and nesting.

use std::borrow::Cow;
use vstd::prelude::*;
use vstd::string::*;
use crate::sql::lexical::{Found, Piece, block_end, lemma_piece_at, piece_at, piece_from};
use crate::text::ascii::{matches_word_at, word_at};
use crate::text::chars::{chars_of, text_of};
use crate::text::offset::{byte_count, byte_len, is_offset_of, offset_at};
use crate::text::search::{
    find_char, find_part, lemma_replaced_absent, position_of_part, replace_part, replaced,
};
use crate::text::trim::{lemma_space_run_end, skip_space, space_run_end};

verus! {

/// The first position from `from` on at which `word` stands, up to ASCII case.
pub open spec fn find_word(s: Seq<char>, word: Seq<char>, from: int) -> Option<int>
    decreases s.len() - from,
{
    if from < 0 || from >= s.len() {
        None
    } else if word_at(s, from, word) {
        Some(from)
    } else {
        find_word(s, word, from + 1)
    }
}

/// The first position from `from` on at which `word` stands in code, that is
/// outside comments and quoted segments.
pub open spec fn find_word_in_code(s: Seq<char>, word: Seq<char>, from: int) -> Option<int>
    decreases s.len() - from,
{
    if from < 0 || from >= s.len() {
        None
    } else {
        proof {
            lemma_piece_at(s, from);
        }
        match piece_at(s, from) {
            Piece::Comment { end: Some(e) } => find_word_in_code(s, word, e),
            Piece::Quoted { end: Some(e) } => find_word_in_code(s, word, e),
            Piece::Code => if word_at(s, from, word) {
                Some(from)
            } else {
                find_word_in_code(s, word, from + 1)
            },
            _ => None,
        }
    }
}

/// ASCII-case-insensitive search; the result is a byte offset into `haystack`.
pub fn find_ascii_ci(haystack: &str, needle: &str) -> (r: Option<usize>)
    requires
        needle@.len() > 0,
    ensures
        is_offset_of(r, haystack@, find_word(haystack@, needle@, 0)),
{
    let s: Vec<char> = chars_of(haystack);
    let word: Vec<char> = chars_of(needle);
    // The length in bytes fits a machine word, and so do the offsets.
    let _bytes: usize = byte_count(haystack);
    let mut k: usize = 0;
    while k < s.len()
        invariant
            k <= s@.len(),
            s@ == haystack@,
            word@ == needle@,
            byte_len(s@) <= usize::MAX,
            find_word(haystack@, needle@, 0) == find_word(haystack@, needle@, k as int),
        decreases s@.len() - k,
    {
        if matches_word_at(s.as_slice(), k, word.as_slice()) {
            return Some(offset_at(s.as_slice(), k));
        }
        k += 1;
    }
    None
}

/// As [`find_ascii_ci`], but only outside comments and quoted segments, so
/// that a split at a keyword does not fire inside an identifier such as
/// "time TO live".
pub fn find_ascii_ci_outside_quotes(haystack: &str, needle: &str) -> (r: Option<usize>)
    ensures
        is_offset_of(r, haystack@, find_word_in_code(haystack@, needle@, 0)),
{
    let s: Vec<char> = chars_of(haystack);
    let word: Vec<char> = chars_of(needle);
    // The length in bytes fits a machine word, and so do the offsets.
    let _bytes: usize = byte_count(haystack);
    let mut k: usize = 0;
    while k < s.len()
        invariant
            k <= s@.len(),
            s@ == haystack@,
            word@ == needle@,
            byte_len(s@) <= usize::MAX,
            find_word_in_code(haystack@, needle@, 0) == find_word_in_code(
                haystack@,
                needle@,
                k as int,
            ),
        decreases s@.len() - k,
    {
        match piece_from(s.as_slice(), k) {
            Found::Comment(Some(e)) => {
                k = e;
            },
            Found::Quoted(Some(e)) => {
                k = e;
            },
            Found::Code => {
                if matches_word_at(s.as_slice(), k, word.as_slice()) {
                    return Some(offset_at(s.as_slice(), k));
                }
                k += 1;
            },
            _ => {
                return None;
            },
        }
    }
    None
}

/// The end of the white space and comments that begin at position `i`. A
/// comment that is never closed is not skipped.
pub open spec fn trivia_end(s: Seq<char>, i: int) -> int
    decreases s.len() - i,
{
    let k = space_run_end(s, i);
    if i < 0 || i > s.len() {
        i
    } else {
        proof {
            lemma_space_run_end(s, i);
            if k < s.len() {
                lemma_piece_at(s, k);
            }
        }
        match piece_at(s, k) {
            Piece::Comment { end: Some(e) } => trivia_end(s, e),
            _ => k,
        }
    }
}

/// A text without its leading white space and comments.
pub open spec fn without_trivia(s: Seq<char>) -> Seq<char> {
    s.skip(trivia_end(s, 0))
}

pub proof fn lemma_trivia_end(s: Seq<char>, i: int)
    requires
        0 <= i <= s.len(),
    ensures
        i <= trivia_end(s, i) <= s.len(),
    decreases s.len() - i,
{
    let k = space_run_end(s, i);
    lemma_space_run_end(s, i);
    if k < s.len() {
        lemma_piece_at(s, k);
        match piece_at(s, k) {
            Piece::Comment { end: Some(e) } => {
                lemma_trivia_end(s, e);
            },
            _ => {},
        }
    }
}

/// The end of the trivia that begins at position `from`.
pub fn end_of_trivia(s: &[char], from: usize) -> (r: usize)
    requires
        from <= s@.len(),
    ensures
        r == trivia_end(s@, from as int),
        from <= r <= s@.len(),
{
    let mut i: usize = from;
    loop
        invariant
            from <= i <= s@.len(),
            trivia_end(s@, from as int) == trivia_end(s@, i as int),
        decreases s@.len() - i,
    {
        let k: usize = skip_space(s, i);
        if k >= s.len() {
            return k;
        }
        match piece_from(s, k) {
            Found::Comment(Some(e)) => {
                i = e;
            },
            _ => {
                return k;
            },
        }
    }
}

/// `input` without its leading white space and comments, so that a keyword
/// test sees through `TABLE /* v2 */ IF NOT EXISTS`.
pub fn skip_leading_ws_and_comments<'a>(input: &'a str) -> (r: &'a str)
    ensures
        r@ == without_trivia(input@),
{
    let s: Vec<char> = chars_of(input);
    let k: usize = end_of_trivia(s.as_slice(), 0);
    suffix_from(input, k)
}

/// The text from character `k` on.
pub fn suffix_from<'a>(s: &'a str, k: usize) -> (r: &'a str)
    requires
        k <= s@.len(),
    ensures
        r@ == s@.skip(k as int),
{
    let r = s.substring_char(k, s.unicode_len());
    assert(r@ =~= s@.skip(k as int));
    r
}

/// The identifier that a delimited or bare token denotes: a matched outer pair
/// of `"` or of backticks is removed and the doubled delimiter inside collapsed.
pub open spec fn decoded_identifier(s: Seq<char>) -> Seq<char> {
    if is_delimited(s) {
        replaced(s.subrange(1, s.len() - 1), seq![s[0], s[0]], seq![s[0]])
    } else {
        s
    }
}

/// The text stands between a matched pair of identifier delimiters.
pub open spec fn is_delimited(s: Seq<char>) -> bool {
    s.len() >= 2 && (s[0] == '"' || s[0] == '`') && s.last() == s[0]
}

/// Decodes one identifier. The result borrows from `ident` unless an escape
/// had to be collapsed.
pub fn decode_identifier<'a>(ident: &'a str) -> (r: Cow<'a, str>)
    ensures
        r@ == decoded_identifier(ident@),
        r is Owned <==> is_delimited(ident@) && find_part(
            ident@.subrange(1, ident@.len() - 1),
            seq![ident@[0], ident@[0]],
            0,
        ) is Some,
{
    let s: Vec<char> = chars_of(ident);
    let n: usize = s.len();
    if n >= 2 && (s[0] == '"' || s[0] == '`') && s[n - 1] == s[0] {
        let inner: &str = ident.substring_char(1, n - 1);
        let inside: Vec<char> = chars_of(inner);
        let doubled: Vec<char> = vec![s[0], s[0]];
        assert(doubled@ =~= seq![s@[0], s@[0]]);
        if position_of_part(inside.as_slice(), doubled.as_slice(), 0).is_some() {
            let single: Vec<char> = vec![s[0]];
            assert(single@ =~= seq![s@[0]]);
            let decoded: Vec<char> = replace_part(
                inside.as_slice(),
                doubled.as_slice(),
                single.as_slice(),
            );
            return Cow::Owned(text_of(decoded.as_slice()));
        }
        proof {
            lemma_replaced_absent(inside@, doubled@, seq![s@[0]], 0);
            assert(inside@.skip(0) =~= inside@);
        }
        return Cow::Borrowed(inner);
    }
    Cow::Borrowed(ident)
}

/// The rest of `s` behind `word`, where `s` begins with it up to ASCII case.
pub open spec fn behind_word(s: Seq<char>, word: Seq<char>) -> Option<Seq<char>> {
    if word_at(s, 0, word) {
        Some(s.skip(word.len() as int))
    } else {
        None
    }
}

/// The rest of `s` behind its leading trivia, where there is any.
pub open spec fn behind_trivia(s: Seq<char>) -> Option<Seq<char>> {
    if without_trivia(s).len() < s.len() {
        Some(without_trivia(s))
    } else {
        None
    }
}

/// The rest of `s` behind `IF NOT EXISTS`, with the trivia that separates the
/// three words.
pub open spec fn behind_if_not_exists(s: Seq<char>) -> Option<Seq<char>> {
    match behind_word(without_trivia(s), "IF"@) {
        None => None,
        Some(a) => match behind_trivia(a) {
            None => None,
            Some(b) => match behind_word(b, "NOT"@) {
                None => None,
                Some(c) => match behind_trivia(c) {
                    None => None,
                    Some(d) => behind_word(d, "EXISTS"@),
                },
            },
        },
    }
}

/// Whether the prefix is there and ends at a word's end, and what is left.
pub open spec fn stripped_if_not_exists(s: Seq<char>) -> (bool, Seq<char>) {
    match behind_if_not_exists(s) {
        None => (false, s),
        Some(rest) => match behind_trivia(rest) {
            Some(operand) => (true, operand),
            None => if rest.len() == 0 {
                (true, rest)
            } else if rest[0] == '"' || rest[0] == '`' || rest[0] == '(' {
                (true, rest)
            } else {
                (false, s)
            },
        },
    }
}

fn take_word<'a>(value: &'a str, word: &str) -> (r: Option<&'a str>)
    ensures
        r is Some <==> behind_word(value@, word@) is Some,
        r is Some ==> behind_word(value@, word@) == Some(r->0@),
{
    let s: Vec<char> = chars_of(value);
    let w: Vec<char> = chars_of(word);
    if matches_word_at(s.as_slice(), 0, w.as_slice()) {
        Some(suffix_from(value, w.len()))
    } else {
        None
    }
}

fn separated<'a>(value: &'a str) -> (r: Option<&'a str>)
    ensures
        r is Some <==> behind_trivia(value@) is Some,
        r is Some ==> behind_trivia(value@) == Some(r->0@),
{
    let s: Vec<char> = chars_of(value);
    let k: usize = end_of_trivia(s.as_slice(), 0);
    if k > 0 {
        Some(suffix_from(value, k))
    } else {
        None
    }
}

/// Strips `IF NOT EXISTS`, in any case and with any trivia between the words,
/// where a word boundary, an opening delimiter or a parenthesis follows it.
/// Returns whether it was there, and the rest.
pub fn strip_if_not_exists<'a>(input: &'a str) -> (r: (bool, &'a str))
    ensures
        (r.0, r.1@) == stripped_if_not_exists(input@),
{
    let cleaned: &str = skip_leading_ws_and_comments(input);
    let after_if: &str = match take_word(cleaned, "IF") {
        None => {
            return (false, input);
        },
        Some(rest) => match separated(rest) {
            None => {
                return (false, input);
            },
            Some(rest) => rest,
        },
    };
    let after_not: &str = match take_word(after_if, "NOT") {
        None => {
            return (false, input);
        },
        Some(rest) => match separated(rest) {
            None => {
                return (false, input);
            },
            Some(rest) => rest,
        },
    };
    let rest: &str = match take_word(after_not, "EXISTS") {
        None => {
            return (false, input);
        },
        Some(rest) => rest,
    };
    if let Some(operand) = separated(rest) {
        return (true, operand);
    }
    if rest.unicode_len() == 0 {
        return (true, rest);
    }
    let next: char = rest.get_char(0);
    if next == '"' || next == '`' || next == '(' {
        (true, rest)
    } else {
        (false, input)
    }
}

/// Scanning a text from position `k` on is scanning the rest of it.
proof fn lemma_block_end_shift(s: Seq<char>, k: int, i: int, depth: nat)
    requires
        0 <= k <= s.len(),
        0 <= i,
    ensures
        block_end(s, k + i, depth) == (match block_end(s.skip(k), i, depth) {
            Some(e) => Some(e + k),
            None => None,
        }),
    decreases s.len() - i,
{
    let t = s.skip(k);
    if depth > 0 && i < t.len() {
        assert(t[i] == s[k + i]);
        if i + 1 < t.len() {
            assert(t[i + 1] == s[k + i + 1]);
        }
        if i + 1 < t.len() {
            lemma_block_end_shift(s, k, i + 2, depth + 1);
            lemma_block_end_shift(s, k, i + 2, (depth - 1) as nat);
        }
        lemma_block_end_shift(s, k, i + 1, depth);
    }
}

proof fn lemma_find_char_shift(s: Seq<char>, k: int, c: char, i: int)
    requires
        0 <= k <= s.len(),
        0 <= i,
    ensures
        find_char(s, c, k + i) == (match find_char(s.skip(k), c, i) {
            Some(e) => Some(e + k),
            None => None,
        }),
    decreases s.len() - i,
{
    if i < s.len() - k {
        assert(s.skip(k)[i] == s[k + i]);
        lemma_find_char_shift(s, k, c, i + 1);
    }
}

proof fn lemma_space_run_shift(s: Seq<char>, k: int, i: int)
    requires
        0 <= k <= s.len(),
        0 <= i,
    ensures
        space_run_end(s, k + i) == space_run_end(s.skip(k), i) + k,
    decreases s.len() - i,
{
    if i < s.len() - k {
        assert(s.skip(k)[i] == s[k + i]);
        lemma_space_run_shift(s, k, i + 1);
    }
}

proof fn lemma_trivia_shift(s: Seq<char>, k: int, i: int)
    requires
        0 <= k <= s.len(),
        0 <= i <= s.len() - k,
    ensures
        trivia_end(s, k + i) == trivia_end(s.skip(k), i) + k,
    decreases s.len() - k - i,
{
    let t = s.skip(k);
    let a = space_run_end(t, i);
    lemma_space_run_shift(s, k, i);
    lemma_space_run_end(t, i);
    if a < t.len() {
        assert(t[a] == s[k + a]);
        if a + 1 < t.len() {
            assert(t[a + 1] == s[k + a + 1]);
        }
        lemma_block_end_shift(s, k, a + 2, 1);
        lemma_find_char_shift(s, k, '\n', a + 2);
        lemma_piece_at(t, a);
        match piece_at(t, a) {
            Piece::Comment { end: Some(e) } => {
                lemma_trivia_shift(s, k, e);
            },
            _ => {},
        }
    }
}

/// Behind the trivia there is no more trivia.
proof fn lemma_trivia_done(s: Seq<char>, i: int)
    requires
        0 <= i <= s.len(),
    ensures
        trivia_end(s, trivia_end(s, i)) == trivia_end(s, i),
    decreases s.len() - i,
{
    let k = space_run_end(s, i);
    lemma_space_run_end(s, i);
    if k < s.len() {
        lemma_piece_at(s, k);
        match piece_at(s, k) {
            Piece::Comment { end: Some(e) } => {
                lemma_trivia_done(s, e);
            },
            _ => {},
        }
    }
}

/// Skipping leading white space and comments twice is skipping them once.
pub proof fn law_skipping_is_idempotent(s: Seq<char>)
    ensures
        without_trivia(without_trivia(s)) == without_trivia(s),
{
    let k = trivia_end(s, 0);
    lemma_trivia_end(s, 0);
    lemma_trivia_done(s, 0);
    lemma_trivia_shift(s, k, 0);
    assert(s.skip(k).skip(0) =~= s.skip(k));
}

/// Nothing but leading text is taken away: the rest is a suffix of the input.
pub proof fn law_stripping_leaves_a_suffix(s: Seq<char>)
    ensures
        exists|k: int|
            0 <= k <= s.len() && #[trigger] s.skip(k) == stripped_if_not_exists(s).1,
{
    let cleaned = without_trivia(s);
    lemma_trivia_end(s, 0);
    assert(s.skip(0) =~= s);
    if behind_if_not_exists(s) is Some {
        let k0 = trivia_end(s, 0);
        let a = cleaned.skip("IF"@.len() as int);
        let k1 = k0 + "IF"@.len();
        assert(a =~= s.skip(k1));
        lemma_trivia_end(a, 0);
        let b = without_trivia(a);
        let k2 = k1 + trivia_end(a, 0);
        assert(b =~= s.skip(k2));
        let c = b.skip("NOT"@.len() as int);
        let k3 = k2 + "NOT"@.len();
        assert(c =~= s.skip(k3));
        lemma_trivia_end(c, 0);
        let d = without_trivia(c);
        let k4 = k3 + trivia_end(c, 0);
        assert(d =~= s.skip(k4));
        let rest = d.skip("EXISTS"@.len() as int);
        let k5 = k4 + "EXISTS"@.len();
        assert(rest =~= s.skip(k5));
        lemma_trivia_end(rest, 0);
        let k6 = k5 + trivia_end(rest, 0);
        assert(without_trivia(rest) =~= s.skip(k6));
    }
}

/// What the search outside quotes finds is the word, and the plain search finds
/// it no later.
pub proof fn law_code_match_is_a_match(s: Seq<char>, word: Seq<char>, from: int)
    requires
        0 <= from,
    ensures
        find_word_in_code(s, word, from) matches Some(k) ==> from <= k < s.len() && word_at(
            s,
            k,
            word,
        ) && piece_at(s, k) is Code && find_word(s, word, from) is Some && find_word(
            s,
            word,
            from,
        )->0 <= k,
    decreases s.len() - from,
{
    if from < s.len() {
        lemma_piece_at(s, from);
        match piece_at(s, from) {
            Piece::Comment { end: Some(e) } => {
                law_code_match_is_a_match(s, word, e);
                if find_word_in_code(s, word, e) is Some {
                    lemma_find_word_earlier(s, word, from, e);
                }
            },
            Piece::Quoted { end: Some(e) } => {
                law_code_match_is_a_match(s, word, e);
                if find_word_in_code(s, word, e) is Some {
                    lemma_find_word_earlier(s, word, from, e);
                }
            },
            Piece::Code => {
                if !word_at(s, from, word) {
                    law_code_match_is_a_match(s, word, from + 1);
                }
            },
            _ => {},
        }
    }
}

proof fn lemma_find_word_earlier(s: Seq<char>, word: Seq<char>, a: int, b: int)
    requires
        0 <= a <= b,
        find_word(s, word, b) is Some,
    ensures
        find_word(s, word, a) is Some,
        find_word(s, word, a)->0 <= find_word(s, word, b)->0,
    decreases b - a,
{
    lemma_find_word_bound(s, word, b);
    if a < b {
        lemma_find_word_earlier(s, word, a + 1, b);
        lemma_find_word_bound(s, word, a + 1);
    }
}

proof fn lemma_find_word_bound(s: Seq<char>, word: Seq<char>, from: int)
    requires
        0 <= from,
    ensures
        find_word(s, word, from) matches Some(k) ==> from <= k < s.len(),
    decreases s.len() - from,
{
    if from < s.len() && !word_at(s, from, word) {
        lemma_find_word_bound(s, word, from + 1);
    }
}

} // verus!
