//! Splitting a `SELECT` statement into its clauses.

use vstd::prelude::*;
use crate::sql::cypher::str_texts;
use crate::sql::lexical::{lemma_quote_end, pair_at, quote_end, quoted_end, same_position};
use crate::text::ascii::{char_is_alphanumeric, is_alphanumeric, matches_word_at, word_at};
use crate::text::chars::{chars_of, text_of_range, texts};
use crate::text::offset::{
    byte_count, byte_offset, is_offset_of, offset_at, offset_of_position, position_at,
    position_from,
};
use crate::text::split::{joined, lemma_joined_first};
use crate::text::trim::{is_space, lemma_trim, lemma_trimmed_part, trim, trimmed};

verus! {

/// Letters, digits, `_`, `$` and everything beyond ASCII belong to an
/// identifier.
pub open spec fn is_identifier_char(c: char) -> bool {
    is_alphanumeric(c) || c == '_' || c == '$' || c as u32 >= 0x80
}

/// The bytes that belong to an identifier.
pub open spec fn identifier_byte(b: u8) -> bool {
    is_identifier_char(b as char)
}

/// Whether a byte belongs to an identifier: dollar signs and the bytes of
/// characters beyond ASCII do.
pub fn is_identifier_byte(b: u8) -> (r: bool)
    ensures
        r == identifier_byte(b),
{
    char_continues_identifier(b as char)
}

pub fn char_continues_identifier(c: char) -> (r: bool)
    ensures
        r == is_identifier_char(c),
{
    char_is_alphanumeric(c) || c == '_' || c == '$' || c as u32 >= 0x80
}

pub open spec fn is_literal_quote(c: char) -> bool {
    c == '\'' || c == '"'
}

/// The word at position `i` is no part of a longer identifier.
pub open spec fn stands_alone(s: Seq<char>, i: int, word: Seq<char>) -> bool {
    &&& i == 0 || !is_identifier_char(s[i - 1])
    &&& i + word.len() == s.len() || !is_identifier_char(s[(i + word.len()) as int])
}

/// The depth of parentheses behind `c`; an unmatched `)` is ignored.
pub open spec fn depth_behind(c: char, depth: nat) -> nat {
    if c == '(' {
        depth + 1
    } else if c == ')' && depth > 0 {
        (depth - 1) as nat
    } else {
        depth
    }
}

/// Scans from position `i` at the given depth for the first `word` from
/// `start` on that stands outside quoted segments and parentheses; with
/// `alone`, as a word of its own.
pub open spec fn find_outside(
    s: Seq<char>,
    word: Seq<char>,
    start: int,
    alone: bool,
    i: int,
    depth: nat,
) -> Option<int>
    decreases s.len() - i,
{
    if i < 0 || i >= s.len() {
        None
    } else if is_literal_quote(s[i]) {
        proof {
            lemma_quote_end(s, i + 1, s[i]);
        }
        match quote_end(s, i + 1, s[i]) {
            Some(e) => find_outside(s, word, start, alone, e, depth),
            None => None,
        }
    } else {
        let behind = depth_behind(s[i], depth);
        if i >= start && behind == 0 && word_at(s, i, word) && (alone ==> stands_alone(s, i, word)) {
            Some(i)
        } else {
            find_outside(s, word, start, alone, i + 1, behind)
        }
    }
}

/// The first keyword from position `start` on.
pub open spec fn find_keyword(s: Seq<char>, word: Seq<char>, start: int) -> Option<int> {
    find_outside(s, word, start, true, 0, 0)
}

/// The first operator.
pub open spec fn find_operator(s: Seq<char>, op: Seq<char>) -> Option<int> {
    find_outside(s, op, 0, false, 0, 0)
}

/// What is found outside quotes and parentheses stands there, up to ASCII case.
pub proof fn lemma_find_outside(
    s: Seq<char>,
    word: Seq<char>,
    start: int,
    alone: bool,
    i: int,
    depth: nat,
)
    requires
        0 <= i,
    ensures
        find_outside(s, word, start, alone, i, depth) matches Some(k) ==> i <= k && start <= k && k
            < s.len() && word_at(s, k, word),
    decreases s.len() - i,
{
    if i < s.len() {
        if is_literal_quote(s[i]) {
            lemma_quote_end(s, i + 1, s[i]);
            match quote_end(s, i + 1, s[i]) {
                Some(e) => lemma_find_outside(s, word, start, alone, e, depth),
                None => {},
            }
        } else {
            lemma_find_outside(s, word, start, alone, i + 1, depth_behind(s[i], depth));
        }
    }
}

/// A keyword that is found stands there, up to ASCII case.
pub proof fn lemma_find_keyword(s: Seq<char>, word: Seq<char>, start: int)
    ensures
        find_keyword(s, word, start) matches Some(k) ==> start <= k && 0 <= k && k + word.len()
            <= s.len() && word_at(s, k, word),
{
    lemma_find_outside(s, word, start, true, 0, 0);
}

pub fn position_outside(s: &[char], word: &[char], start: usize, alone: bool) -> (r: Option<usize>)
    ensures
        same_position(r, find_outside(s@, word@, start as int, alone, 0, 0)),
        r is Some ==> start <= r->0 < s@.len() && r->0 + word@.len() <= s@.len(),
{
    let mut depth: usize = 0;
    let mut i: usize = 0;
    let ghost target = find_outside(s@, word@, start as int, alone, 0, 0);
    while i < s.len()
        invariant
            i <= s@.len(),
            depth <= i,
            i <= s.len(),
            target == find_outside(s@, word@, start as int, alone, 0, 0),
            find_outside(s@, word@, start as int, alone, i as int, depth as nat) == target,
        decreases s@.len() - i,
    {
        let c: char = s[i];
        if c == '\'' || c == '"' {
            match quoted_end(s, i + 1, c) {
                Some(e) => {
                    i = e;
                },
                None => {
                    return None;
                },
            }
        } else {
            if c == '(' {
                depth += 1;
            } else if c == ')' && depth > 0 {
                depth -= 1;
            }
            if i >= start && depth == 0 && matches_word_at(s, i, word) {
                let end: usize = i + word.len();
                if !alone || ((i == 0 || !char_continues_identifier(s[i - 1])) && (end == s.len()
                    || !char_continues_identifier(s[end]))) {
                    return Some(i);
                }
            }
            i += 1;
        }
    }
    None
}

/// The first keyword from character `start` on.
pub fn keyword_position(s: &[char], keyword: &str, start: usize) -> (r: Option<usize>)
    ensures
        same_position(r, find_keyword(s@, keyword@, start as int)),
        r is Some ==> start <= r->0 && r->0 + keyword@.len() <= s@.len(),
{
    let word: Vec<char> = chars_of(keyword);
    position_outside(s, word.as_slice(), start, true)
}

/// The byte offset of the first keyword outside quotes and parentheses.
pub fn find_top_level_keyword(sql: &str, keyword: &str) -> (r: Option<usize>)
    ensures
        is_offset_of(r, sql@, find_keyword(sql@, keyword@, 0)),
{
    let s: Vec<char> = chars_of(sql);
    // The length in bytes fits a machine word, and so do the offsets.
    let _bytes: usize = byte_count(sql);
    let position: Option<usize> = keyword_position(s.as_slice(), keyword, 0);
    offset_of_position(s.as_slice(), position)
}

/// The byte offset, `start_at` or more, of the first keyword outside quotes
/// and parentheses.
pub fn find_top_level_keyword_from(sql: &str, keyword: &str, start_at: usize) -> (r: Option<usize>)
    ensures
        is_offset_of(
            r,
            sql@,
            find_keyword(sql@, keyword@, position_from(sql@, start_at as int, 0)),
        ),
{
    let s: Vec<char> = chars_of(sql);
    // The length in bytes fits a machine word, and so do the offsets.
    let _bytes: usize = byte_count(sql);
    let start: usize = position_at(s.as_slice(), start_at);
    let position: Option<usize> = keyword_position(s.as_slice(), keyword, start);
    offset_of_position(s.as_slice(), position)
}

/// The byte offset of the first operator outside quotes and parentheses.
pub fn find_top_level_operator(input: &str, operator: &str) -> (r: Option<usize>)
    ensures
        is_offset_of(r, input@, find_operator(input@, operator@)),
{
    let s: Vec<char> = chars_of(input);
    let op: Vec<char> = chars_of(operator);
    // The length in bytes fits a machine word, and so do the offsets.
    let _bytes: usize = byte_count(input);
    let position: Option<usize> = position_outside(s.as_slice(), op.as_slice(), 0, false);
    offset_of_position(s.as_slice(), position)
}

/// The position of the first of the keywords from `start` on, or the end.
pub open spec fn clause_end(s: Seq<char>, start: int, keywords: Seq<Seq<char>>) -> int
    decreases keywords.len(),
{
    if keywords.len() == 0 {
        s.len() as int
    } else {
        let others = clause_end(s, start, keywords.drop_last());
        match find_keyword(s, keywords.last(), start) {
            Some(k) => if k < others {
                k
            } else {
                others
            },
            None => others,
        }
    }
}

pub fn end_of_clause(s: &[char], start: usize, keywords: &[&str]) -> (r: usize)
    requires
        start <= s@.len(),
    ensures
        r == clause_end(s@, start as int, str_texts(keywords@)),
        start <= r <= s@.len(),
{
    let ghost words = str_texts(keywords@);
    let mut end: usize = s.len();
    let mut k: usize = 0;
    assert(words.take(0) =~= Seq::<Seq<char>>::empty());
    while k < keywords.len()
        invariant
            k <= keywords@.len(),
            words == str_texts(keywords@),
            start <= end <= s@.len(),
            end == clause_end(s@, start as int, words.take(k as int)),
        decreases keywords@.len() - k,
    {
        assert(words.take(k + 1).drop_last() =~= words.take(k as int));
        assert(words.take(k + 1).last() == keywords@[k as int]@);
        if let Some(at) = keyword_position(s, keywords[k], start) {
            if at < end {
                end = at;
            }
        }
        k += 1;
    }
    assert(words.take(words.len() as int) =~= words);
    end
}

/// The byte offset of the end of the clause whose text begins at byte offset
/// `start_at`: where the first of the keywords stands, or the text ends.
pub fn find_clause_end(sql: &str, start_at: usize, keywords: &[&str]) -> (r: usize)
    ensures
        r == byte_offset(
            sql@,
            clause_end(sql@, position_from(sql@, start_at as int, 0), str_texts(keywords@)),
        ),
{
    let s: Vec<char> = chars_of(sql);
    // The length in bytes fits a machine word, and so do the offsets.
    let _bytes: usize = byte_count(sql);
    let start: usize = position_at(s.as_slice(), start_at);
    let end: usize = end_of_clause(s.as_slice(), start, keywords);
    offset_at(s.as_slice(), end)
}

/// The position of the comma that ends the item read from position `i` inside
/// `depth` open parentheses and brackets, or the text's end.
pub open spec fn item_end(s: Seq<char>, i: int, depth: nat) -> int
    decreases s.len() - i,
{
    if i < 0 || i >= s.len() {
        s.len() as int
    } else if is_literal_quote(s[i]) {
        proof {
            lemma_quote_end(s, i + 1, s[i]);
        }
        match quote_end(s, i + 1, s[i]) {
            Some(e) => item_end(s, e, depth),
            None => s.len() as int,
        }
    } else if s[i] == '(' || s[i] == '[' {
        item_end(s, i + 1, depth + 1)
    } else if s[i] == ')' || s[i] == ']' {
        item_end(s, i + 1, if depth > 0 {
            (depth - 1) as nat
        } else {
            0
        })
    } else if s[i] == ',' && depth == 0 {
        i
    } else {
        item_end(s, i + 1, depth)
    }
}

pub proof fn lemma_item_end(s: Seq<char>, i: int, depth: nat)
    requires
        0 <= i <= s.len(),
    ensures
        i <= item_end(s, i, depth) <= s.len(),
    decreases s.len() - i,
{
    if i < s.len() {
        if is_literal_quote(s[i]) {
            lemma_quote_end(s, i + 1, s[i]);
            match quote_end(s, i + 1, s[i]) {
                Some(e) => lemma_item_end(s, e, depth),
                None => {},
            }
        } else {
            lemma_item_end(s, i + 1, depth + 1);
            lemma_item_end(s, i + 1, depth);
            if depth > 0 {
                lemma_item_end(s, i + 1, (depth - 1) as nat);
            }
        }
    }
}

/// The trimmed items from position `from` on, without the blank ones.
pub open spec fn list_items_from(s: Seq<char>, from: int) -> Seq<Seq<char>>
    decreases s.len() - from,
{
    if from < 0 || from > s.len() {
        Seq::empty()
    } else {
        proof {
            lemma_item_end(s, from, 0);
        }
        let end = item_end(s, from, 0);
        let item = trim(s.subrange(from, end));
        let head = if item.len() > 0 {
            seq![item]
        } else {
            Seq::empty()
        };
        if end < s.len() {
            head + list_items_from(s, end + 1)
        } else {
            head
        }
    }
}

/// The items of a comma-separated list.
pub open spec fn list_items(s: Seq<char>) -> Seq<Seq<char>> {
    list_items_from(s, 0)
}

fn end_of_item(s: &[char], from: usize) -> (r: usize)
    requires
        from <= s@.len(),
    ensures
        r == item_end(s@, from as int, 0),
        from <= r <= s@.len(),
{
    let mut i: usize = from;
    let mut depth: usize = 0;
    while i < s.len()
        invariant
            from <= i <= s@.len(),
            i <= s.len(),
            depth <= i,
            item_end(s@, from as int, 0) == item_end(s@, i as int, depth as nat),
        decreases s@.len() - i,
    {
        let c: char = s[i];
        if c == '\'' || c == '"' {
            match quoted_end(s, i + 1, c) {
                Some(e) => {
                    i = e;
                },
                None => {
                    return s.len();
                },
            }
        } else if c == '(' || c == '[' {
            depth += 1;
            i += 1;
        } else if c == ')' || c == ']' {
            if depth > 0 {
                depth -= 1;
            }
            i += 1;
        } else if c == ',' && depth == 0 {
            return i;
        } else {
            i += 1;
        }
    }
    i
}

/// The trimmed text of a range of characters.
pub fn trimmed_range(s: &[char], from: usize, to: usize) -> (r: String)
    requires
        from <= to <= s@.len(),
    ensures
        r@ == trim(s@.subrange(from as int, to as int)),
{
    let whole: String = text_of_range(s, from, to);
    trimmed(whole.as_str()).to_owned()
}

pub fn items_of_list(s: &[char]) -> (items: Vec<String>)
    ensures
        texts(items@) == list_items(s@),
{
    let mut items: Vec<String> = Vec::new();
    let mut from: usize = 0;
    assert(texts(items@) + list_items_from(s@, 0) =~= list_items(s@));
    loop
        invariant
            from <= s@.len(),
            texts(items@) + list_items_from(s@, from as int) == list_items(s@),
        decreases s@.len() - from,
    {
        let end: usize = end_of_item(s, from);
        let item: String = trimmed_range(s, from, end);
        let ghost before = texts(items@);
        let ghost head = if item@.len() > 0 {
            seq![item@]
        } else {
            Seq::empty()
        };
        if item.as_str().unicode_len() > 0 {
            items.push(item);
        }
        assert(texts(items@) =~= before + head);
        if end == s.len() {
            return items;
        }
        assert(before + (head + list_items_from(s@, end + 1)) =~= (before + head)
            + list_items_from(s@, end + 1));
        from = end + 1;
    }
}

/// Splits at the commas outside quotes, parentheses and brackets; the items
/// are trimmed and blank ones are left out.
pub fn split_top_level_list(input: &str) -> (items: Vec<String>)
    ensures
        texts(items@) == list_items(input@),
{
    let s: Vec<char> = chars_of(input);
    items_of_list(s.as_slice())
}

/// The depth of parentheses and brackets behind a text, read from position `i`
/// at the given depth. `None` where a quote stays open, or a comma outside
/// quotes, parentheses and brackets splits the text.
pub open spec fn depth_left(t: Seq<char>, i: int, depth: nat) -> Option<nat>
    decreases t.len() - i,
{
    if i < 0 || i >= t.len() {
        Some(depth)
    } else if is_literal_quote(t[i]) {
        proof {
            lemma_quote_end(t, i + 1, t[i]);
        }
        match quote_end(t, i + 1, t[i]) {
            Some(e) => depth_left(t, e, depth),
            None => None,
        }
    } else if t[i] == '(' || t[i] == '[' {
        depth_left(t, i + 1, depth + 1)
    } else if t[i] == ')' || t[i] == ']' {
        depth_left(t, i + 1, if depth > 0 {
            (depth - 1) as nat
        } else {
            0
        })
    } else if t[i] == ',' && depth == 0 {
        None
    } else {
        depth_left(t, i + 1, depth)
    }
}

/// The text `t` stands at position `a` of `s`, with no quote behind it.
spec fn stands_at(s: Seq<char>, a: int, t: Seq<char>) -> bool {
    &&& 0 <= a
    &&& a + t.len() <= s.len()
    &&& forall|i: int| 0 <= i < t.len() ==> s[a + i] == #[trigger] t[i]
    &&& a + t.len() == s.len() || !is_literal_quote(s[a + t.len()])
}

/// A quoted segment that is closed in a text is closed there wherever the text
/// stands, and where it is closed within the text, it is so in the text alone.
proof fn lemma_quote_end_within(s: Seq<char>, a: int, t: Seq<char>, i: int, q: char)
    requires
        stands_at(s, a, t),
        is_literal_quote(q),
        0 <= i <= t.len(),
    ensures
        quote_end(t, i, q) matches Some(e) ==> quote_end(s, a + i, q) == Some(a + e),
        quote_end(s, a + i, q) matches Some(e) ==> e <= a + t.len() ==> quote_end(t, i, q) == Some(
            e - a,
        ),
    decreases t.len() - i,
{
    lemma_quote_end(s, a + i, q);
    if i < t.len() {
        assert(s[a + i] == t[i]);
        if i + 1 < t.len() {
            assert(s[a + i + 1] == t[i + 1]);
        }
        if pair_at(t, i, q, q) {
            assert(pair_at(s, a + i, q, q));
            lemma_quote_end_within(s, a, t, i + 2, q);
        } else {
            assert(!pair_at(s, a + i, q, q));
            if t[i] != q {
                lemma_quote_end_within(s, a, t, i + 1, q);
            }
        }
    }
}

/// Reading on from within a text that stands somewhere comes to its end.
proof fn lemma_item_end_across(s: Seq<char>, a: int, t: Seq<char>, i: int, depth: nat)
    requires
        stands_at(s, a, t),
        0 <= i <= t.len(),
        depth_left(t, i, depth) is Some,
    ensures
        item_end(s, a + i, depth) == item_end(s, a + t.len(), depth_left(t, i, depth)->0),
    decreases t.len() - i,
{
    if i < t.len() {
        assert(s[a + i] == t[i]);
        if is_literal_quote(t[i]) {
            lemma_quote_end(t, i + 1, t[i]);
            lemma_quote_end_within(s, a, t, i + 1, t[i]);
            lemma_item_end_across(s, a, t, quote_end(t, i + 1, t[i])->0, depth);
        } else if t[i] == '(' || t[i] == '[' {
            lemma_item_end_across(s, a, t, i + 1, depth + 1);
        } else if t[i] == ')' || t[i] == ']' {
            lemma_item_end_across(s, a, t, i + 1, if depth > 0 {
                (depth - 1) as nat
            } else {
                0
            });
        } else {
            lemma_item_end_across(s, a, t, i + 1, depth);
        }
    }
}

proof fn lemma_item_end_skips_space(s: Seq<char>, from: int, to: int, depth: nat)
    requires
        0 <= from <= to <= s.len(),
        forall|i: int| from <= i < to ==> is_space(#[trigger] s[i]),
    ensures
        item_end(s, from, depth) == item_end(s, to, depth),
    decreases to - from,
{
    if from < to {
        assert(is_space(s[from]));
        lemma_item_end_skips_space(s, from + 1, to, depth);
    }
}

/// A quoted segment ends behind its quote.
proof fn lemma_quote_before_end(s: Seq<char>, i: int, q: char)
    requires
        0 <= i <= s.len(),
    ensures
        quote_end(s, i, q) matches Some(e) ==> 0 < e <= s.len() && s[e - 1] == q,
    decreases s.len() - i,
{
    lemma_quote_end(s, i, q);
    if i < s.len() {
        if pair_at(s, i, q, q) {
            lemma_quote_before_end(s, i + 2, q);
        } else if s[i] != q {
            lemma_quote_before_end(s, i + 1, q);
        }
    }
}

/// What stands before a splitting comma, with white space behind it, is closed.
proof fn lemma_item_is_closed(s: Seq<char>, a: int, t: Seq<char>, end: int, i: int, depth: nat)
    requires
        stands_at(s, a, t),
        a + t.len() <= end < s.len(),
        forall|j: int| a + t.len() <= j < end ==> is_space(#[trigger] s[j]),
        0 <= i <= t.len(),
        item_end(s, a + i, depth) == end,
    ensures
        depth_left(t, i, depth) == Some(0nat),
    decreases t.len() - i,
{
    if i < t.len() {
        assert(s[a + i] == t[i]);
        if is_literal_quote(t[i]) {
            let q = t[i];
            lemma_quote_before_end(s, a + i + 1, q);
            let e = quote_end(s, a + i + 1, q)->0;
            lemma_item_end(s, e, depth);
            assert(e <= a + t.len()) by {
                if e > a + t.len() {
                    assert(is_space(s[e - 1]));
                }
            }
            lemma_quote_end(s, a + i + 1, q);
            lemma_quote_end_within(s, a, t, i + 1, q);
            lemma_item_is_closed(s, a, t, end, e - a, depth);
        } else if t[i] == '(' || t[i] == '[' {
            lemma_item_is_closed(s, a, t, end, i + 1, depth + 1);
        } else if t[i] == ')' || t[i] == ']' {
            lemma_item_is_closed(s, a, t, end, i + 1, if depth > 0 {
                (depth - 1) as nat
            } else {
                0
            });
        } else {
            lemma_item_is_closed(s, a, t, end, i + 1, depth);
        }
    } else {
        lemma_item_end_skips_space(s, a + t.len(), end, depth);
        lemma_item_end(s, end + 1, depth);
        lemma_item_end(s, end + 1, depth + 1);
        if depth > 0 {
            lemma_item_end(s, end + 1, (depth - 1) as nat);
        }
        if is_literal_quote(s[end]) {
            lemma_quote_end(s, end + 1, s[end]);
            if let Some(e) = quote_end(s, end + 1, s[end]) {
                lemma_item_end(s, e, depth);
            }
        }
    }
}

/// What stands at the end of a text, with white space behind it, is not split
/// in the text, and so not by itself, and conversely.
proof fn lemma_last_item(s: Seq<char>, a: int, t: Seq<char>, i: int, depth: nat)
    requires
        stands_at(s, a, t),
        forall|j: int| a + t.len() <= j < s.len() ==> is_space(#[trigger] s[j]),
        0 <= i <= t.len(),
    ensures
        item_end(s, a + i, depth) == s.len() <==> item_end(t, i, depth) == t.len(),
    decreases t.len() - i,
{
    if i < t.len() {
        assert(s[a + i] == t[i]);
        if is_literal_quote(t[i]) {
            let q = t[i];
            lemma_quote_end(s, a + i + 1, q);
            lemma_quote_before_end(s, a + i + 1, q);
            lemma_quote_end_within(s, a, t, i + 1, q);
            if let Some(e) = quote_end(s, a + i + 1, q) {
                assert(e <= a + t.len()) by {
                    if e > a + t.len() {
                        assert(is_space(s[e - 1]));
                    }
                }
                lemma_last_item(s, a, t, e - a, depth);
            }
        } else if t[i] == '(' || t[i] == '[' {
            lemma_last_item(s, a, t, i + 1, depth + 1);
        } else if t[i] == ')' || t[i] == ']' {
            lemma_last_item(s, a, t, i + 1, if depth > 0 {
                (depth - 1) as nat
            } else {
                0
            });
        } else {
            lemma_last_item(s, a, t, i + 1, depth);
        }
    } else {
        lemma_item_end_skips_space(s, a + t.len(), s.len() as int, depth);
    }
}

/// The item is not blank, has no white space around it, and no comma splits it.
pub open spec fn is_item(t: Seq<char>) -> bool {
    t.len() > 0 && trim(t) == t && item_end(t, 0, 0) == t.len()
}

/// The texts are items, and all but the last leave nothing open.
pub open spec fn are_items(items: Seq<Seq<char>>) -> bool {
    &&& forall|i: int| 0 <= i < items.len() ==> is_item(#[trigger] items[i])
    &&& forall|i: int|
        0 <= i < items.len() - 1 ==> depth_left(#[trigger] items[i], 0, 0) == Some(0nat)
}

proof fn lemma_list_items(s: Seq<char>, from: int)
    requires
        0 <= from <= s.len(),
    ensures
        are_items(list_items_from(s, from)),
    decreases s.len() - from,
{
    lemma_item_end(s, from, 0);
    let end = item_end(s, from, 0);
    let piece = s.subrange(from, end);
    let item = trim(piece);
    let (x, y) = lemma_trim(piece);
    let a = from + x;
    assert(item =~= s.subrange(a, from + y));
    if item.len() > 0 {
        assert forall|j: int| a + item.len() <= j < end implies is_space(#[trigger] s[j]) by {
            assert(piece[j - from] == s[j]);
        }
        assert forall|j: int| from <= j < a implies is_space(#[trigger] s[j]) by {
            assert(piece[j - from] == s[j]);
        }
        assert(item[0] == piece[x] && item.last() == piece[y - 1]);
        lemma_trimmed_part(item, 0, item.len() as int);
        assert(item.subrange(0, item.len() as int) =~= item);
        lemma_item_end_skips_space(s, from, a, 0);
        if end < s.len() {
            lemma_splitting_comma(s, from, 0);
            assert(stands_at(s, a, item));
            lemma_item_is_closed(s, a, item, end, 0, 0);
            lemma_item_end_across(item, 0, item, 0, 0);
        } else {
            assert(stands_at(s, a, item));
            lemma_last_item(s, a, item, 0, 0);
        }
        assert(is_item(item));
    }
    if end < s.len() {
        lemma_list_items(s, end + 1);
        let rest = list_items_from(s, end + 1);
        if item.len() > 0 {
            let all = seq![item] + rest;
            assert(forall|i: int| 1 <= i < all.len() ==> #[trigger] all[i] == rest[i - 1]);
        } else {
            assert(Seq::<Seq<char>>::empty() + rest =~= rest);
        }
    }
}

/// An item that does not end with the text ends at a comma.
proof fn lemma_splitting_comma(s: Seq<char>, i: int, depth: nat)
    requires
        0 <= i <= s.len(),
    ensures
        item_end(s, i, depth) < s.len() ==> s[item_end(s, i, depth)] == ',',
    decreases s.len() - i,
{
    if i < s.len() {
        if is_literal_quote(s[i]) {
            lemma_quote_end(s, i + 1, s[i]);
            if let Some(e) = quote_end(s, i + 1, s[i]) {
                lemma_splitting_comma(s, e, depth);
            }
        } else {
            lemma_splitting_comma(s, i + 1, depth + 1);
            lemma_splitting_comma(s, i + 1, depth);
            if depth > 0 {
                lemma_splitting_comma(s, i + 1, (depth - 1) as nat);
            }
        }
    }
}

/// Joined items split into themselves, with at most a blank before them.
proof fn lemma_joined_items(s: Seq<char>, p: int, a: int, items: Seq<Seq<char>>)
    requires
        are_items(items),
        items.len() > 0,
        0 <= p <= a <= s.len(),
        forall|i: int| p <= i < a ==> is_space(#[trigger] s[i]),
        s.skip(a) == joined(items, ", "@),
    ensures
        list_items_from(s, p) == items,
    decreases items.len(),
{
    reveal_strlit(", ");
    let t = items[0];
    let n = t.len() as int;
    let rest = items.skip(1);
    let text = joined(items, ", "@);
    assert(is_item(t));
    if items.len() > 1 {
        lemma_joined_first(items, ", "@);
        assert(text[n] == ',' && text[n + 1] == ' ');
        assert(s.skip(a)[n] == ',' && s.skip(a)[n + 1] == ' ');
    } else {
        assert(text == t);
    }
    assert(text.len() >= n);
    assert forall|i: int| 0 <= i < n implies s[a + i] == #[trigger] t[i] by {
        assert(s.skip(a)[i] == text[i]);
    }
    assert(stands_at(s, a, t));
    lemma_item_end_skips_space(s, p, a, 0);
    if items.len() > 1 {
        assert(depth_left(items[0], 0, 0) == Some(0nat));
        lemma_item_end_across(s, a, t, 0, 0);
    } else {
        lemma_last_item(s, a, t, 0, 0);
    }
    let end = a + n;
    assert(item_end(s, p, 0) == end);
    let piece = s.subrange(p, end);
    let (x, y) = lemma_trim(t);
    assert(x == 0 && y == n);
    assert(piece[a - p] == t[0] && piece.last() == t[n - 1]) by {
        assert(s[a + (n - 1)] == t[n - 1]);
        assert(s[a + 0] == t[0]);
    }
    assert forall|i: int| 0 <= i < a - p implies is_space(#[trigger] piece[i]) by {
        assert(piece[i] == s[p + i]);
    }
    lemma_trimmed_part(piece, a - p, piece.len() as int);
    assert(piece.subrange(a - p, piece.len() as int) =~= t);
    if items.len() > 1 {
        assert(s.skip(end + 2) =~= joined(rest, ", "@)) by {
            assert(s.skip(end + 2) =~= s.skip(a).skip(n + 2));
            assert(text.skip(n + 2) =~= joined(rest, ", "@));
        }
        assert forall|i: int| 0 <= i < rest.len() implies is_item(#[trigger] rest[i]) by {
            assert(rest[i] == items[i + 1]);
        }
        assert forall|i: int| 0 <= i < rest.len() - 1 implies depth_left(#[trigger] rest[i], 0, 0)
            == Some(0nat) by {
            assert(rest[i] == items[i + 1]);
        }
        lemma_joined_items(s, end + 1, end + 2, rest);
    }
    assert(list_items_from(s, p) =~= items);
}

/// Items joined with a comma and a blank are the items of the list.
pub proof fn law_joined_items_are_the_items(items: Seq<Seq<char>>)
    requires
        are_items(items),
    ensures
        list_items(joined(items, ", "@)) == items,
{
    let text = joined(items, ", "@);
    if items.len() > 0 {
        assert(text.skip(0) =~= text);
        lemma_joined_items(text, 0, 0, items);
    } else {
        let (x, y) = lemma_trim(text.subrange(0, 0));
        assert(list_items(text) =~= items);
    }
}

/// The items of a list are not blank, have no white space around them, and hold
/// no comma that splits them; joined with a comma and a blank and split again,
/// they are the same items.
pub proof fn law_items_split_into_themselves(input: Seq<char>)
    ensures
        forall|i: int| 0 <= i < list_items(input).len() ==> is_item(#[trigger] list_items(input)[i]),
        list_items(joined(list_items(input), ", "@)) == list_items(input),
{
    let items = list_items(input);
    let text = joined(items, ", "@);
    lemma_list_items(input, 0);
    if items.len() > 0 {
        assert(text.skip(0) =~= text);
        lemma_joined_items(text, 0, 0, items);
    } else {
        let (x, y) = lemma_trim(text.subrange(0, 0));
        assert(list_items(text) =~= items);
    }
}

} // verus!
