//! Clause search in Cypher text, and naming the graph of a query.

use vstd::prelude::*;
use vstd::string::*;
use crate::sql::lexical::{
    Found, Piece, block_comment_end, block_end, end_of_line, has_pair_at, is_quote, lemma_block_end,
    line_end, pair_at, same_position,
};
use crate::text::ascii::{
    char_is_ascii_space, is_alphanumeric, is_ascii_space, lower, matches_word_at, word_at,
};
use crate::text::chars::{chars_of, same_text, text_of, text_of_range};
use crate::text::offset::{byte_count, is_offset_of, offset_of_position};
use crate::text::search::lemma_find_char;
use crate::text::trim::{
    is_space, lemma_trim, lemma_trimmed_part, trim, trim_end_char, trimmed, without_char_at_end,
};

verus! {

/// The model of a list of string slices.
pub open spec fn str_texts(v: Seq<&str>) -> Seq<Seq<char>> {
    Seq::new(v.len(), |i: int| v[i]@)
}

/// The position behind the closing `q`, read from position `i` inside the
/// quoted segment. A doubled `q` is content, and so is a character behind a
/// backslash, except between backticks.
pub open spec fn cypher_quote_end(s: Seq<char>, i: int, q: char) -> Option<int>
    decreases s.len() - i,
{
    if i < 0 || i >= s.len() {
        None
    } else if s[i] == '\\' && q != '`' && i + 1 < s.len() {
        cypher_quote_end(s, i + 2, q)
    } else if pair_at(s, i, q, q) {
        cypher_quote_end(s, i + 2, q)
    } else if s[i] == q {
        Some(i + 1)
    } else {
        cypher_quote_end(s, i + 1, q)
    }
}

/// What begins at a position of Cypher code.
pub open spec fn cypher_piece_at(s: Seq<char>, i: int) -> Piece {
    if pair_at(s, i, '/', '/') {
        Piece::Comment { end: Some(line_end(s, i + 2)) }
    } else if pair_at(s, i, '/', '*') {
        Piece::Comment { end: block_end(s, i + 2, 1) }
    } else if 0 <= i < s.len() && is_quote(s[i]) {
        Piece::Quoted { end: cypher_quote_end(s, i + 1, s[i]) }
    } else {
        Piece::Code
    }
}

/// The end of the ASCII white space that begins at position `i`.
pub open spec fn ascii_space_end(s: Seq<char>, i: int) -> int
    decreases s.len() - i,
{
    if 0 <= i < s.len() && is_ascii_space(s[i]) {
        ascii_space_end(s, i + 1)
    } else {
        i
    }
}

/// The end of the words, where they stand from position `at` on, each behind
/// ASCII white space.
pub open spec fn words_end(s: Seq<char>, at: int, words: Seq<Seq<char>>) -> Option<int>
    decreases words.len(),
{
    if words.len() == 0 {
        Some(at)
    } else {
        let k = ascii_space_end(s, at);
        if k > at && word_at(s, k, words[0]) {
            words_end(s, k + words[0].len(), words.skip(1))
        } else {
            None
        }
    }
}

/// The keywords stand at position `i`, set off by ASCII white space or the
/// ends of the text.
pub open spec fn clause_at(s: Seq<char>, i: int, keywords: Seq<Seq<char>>) -> bool {
    &&& i == 0 || is_ascii_space(s[i - 1])
    &&& word_at(s, i, keywords[0])
    &&& words_end(s, i + keywords[0].len(), keywords.skip(1)) matches Some(end) && (end == s.len()
        || is_ascii_space(s[end]))
}

pub open spec fn find_clause_from(s: Seq<char>, keywords: Seq<Seq<char>>, i: int) -> Option<int>
    decreases s.len() - i,
{
    if i < 0 || i >= s.len() {
        None
    } else {
        proof {
            lemma_cypher_piece_at(s, i);
        }
        match cypher_piece_at(s, i) {
            Piece::Comment { end: Some(e) } => find_clause_from(s, keywords, e),
            Piece::Quoted { end: Some(e) } => find_clause_from(s, keywords, e),
            Piece::Code => if clause_at(s, i, keywords) {
                Some(i)
            } else {
                find_clause_from(s, keywords, i + 1)
            },
            _ => None,
        }
    }
}

/// The first clause that begins with the keywords, outside strings, quoted
/// names and comments.
pub open spec fn find_clause(s: Seq<char>, keywords: Seq<Seq<char>>) -> Option<int> {
    if keywords.len() == 0 {
        None
    } else {
        find_clause_from(s, keywords, 0)
    }
}

proof fn lemma_cypher_quote_end(s: Seq<char>, i: int, q: char)
    requires
        0 <= i <= s.len(),
    ensures
        cypher_quote_end(s, i, q) is Some ==> i < cypher_quote_end(s, i, q)->0 <= s.len(),
    decreases s.len() - i,
{
    if i < s.len() {
        if i + 1 < s.len() {
            lemma_cypher_quote_end(s, i + 2, q);
        }
        lemma_cypher_quote_end(s, i + 1, q);
    }
}

pub proof fn lemma_cypher_piece_at(s: Seq<char>, i: int)
    requires
        0 <= i < s.len(),
    ensures
        match cypher_piece_at(s, i) {
            Piece::Comment { end } => end is Some ==> i < end->0 <= s.len(),
            Piece::Quoted { end } => end is Some ==> i < end->0 <= s.len(),
            Piece::Code => true,
        },
{
    if pair_at(s, i, '/', '/') {
        lemma_find_char(s, '\n', i + 2);
    } else if pair_at(s, i, '/', '*') {
        lemma_block_end(s, i + 2, 1);
    } else if is_quote(s[i]) {
        lemma_cypher_quote_end(s, i + 1, s[i]);
    }
}

fn cypher_quoted_end(s: &[char], from: usize, q: char) -> (r: Option<usize>)
    requires
        from <= s@.len(),
    ensures
        same_position(r, cypher_quote_end(s@, from as int, q)),
        r is Some ==> from < r->0 <= s@.len(),
{
    let mut i: usize = from;
    while i < s.len()
        invariant
            from <= i <= s@.len(),
            cypher_quote_end(s@, from as int, q) == cypher_quote_end(s@, i as int, q),
        decreases s@.len() - i,
    {
        if s[i] == '\\' && q != '`' && s.len() - i > 1 {
            i += 2;
        } else if has_pair_at(s, i, q, q) {
            i += 2;
        } else if s[i] == q {
            return Some(i + 1);
        } else {
            i += 1;
        }
    }
    None
}

fn cypher_piece_from(s: &[char], i: usize) -> (r: Found)
    requires
        i < s@.len(),
    ensures
        r.is_piece(cypher_piece_at(s@, i as int)),
        r matches Found::Comment(Some(e)) ==> i < e <= s@.len(),
        r matches Found::Quoted(Some(e)) ==> i < e <= s@.len(),
{
    // The length fits a machine word, and so do the positions.
    let _n: usize = s.len();
    if has_pair_at(s, i, '/', '/') {
        Found::Comment(Some(end_of_line(s, i + 2)))
    } else if has_pair_at(s, i, '/', '*') {
        Found::Comment(block_comment_end(s, i + 2))
    } else if s[i] == '\'' || s[i] == '"' || s[i] == '`' {
        Found::Quoted(cypher_quoted_end(s, i + 1, s[i]))
    } else {
        Found::Code
    }
}

fn skip_ascii_space(s: &[char], from: usize) -> (r: usize)
    requires
        from <= s@.len(),
    ensures
        r == ascii_space_end(s@, from as int),
        from <= r <= s@.len(),
{
    let mut i: usize = from;
    while i < s.len() && char_is_ascii_space(s[i])
        invariant
            from <= i <= s@.len(),
            ascii_space_end(s@, from as int) == ascii_space_end(s@, i as int),
        decreases s@.len() - i,
    {
        i += 1;
    }
    i
}

fn clause_stands_at(s: &[char], i: usize, keywords: &[&str]) -> (r: bool)
    requires
        i < s@.len(),
        keywords@.len() > 0,
    ensures
        r == clause_at(s@, i as int, str_texts(keywords@)),
{
    let ghost words = str_texts(keywords@);
    if i > 0 && !char_is_ascii_space(s[i - 1]) {
        return false;
    }
    let first: Vec<char> = chars_of(keywords[0]);
    assert(words[0] == first@);
    if !matches_word_at(s, i, first.as_slice()) {
        return false;
    }
    let mut end: usize = i + first.len();
    let mut k: usize = 1;
    while k < keywords.len()
        invariant
            1 <= k <= keywords@.len(),
            words == str_texts(keywords@),
            end <= s@.len(),
            words_end(s@, i + words[0].len(), words.skip(1)) == words_end(
                s@,
                end as int,
                words.skip(k as int),
            ),
        decreases keywords@.len() - k,
    {
        let keyword: Vec<char> = chars_of(keywords[k]);
        let start: usize = skip_ascii_space(s, end);
        assert(words.skip(k as int)[0] == keyword@);
        assert(words.skip(k as int).skip(1) =~= words.skip(k + 1));
        if start == end || !matches_word_at(s, start, keyword.as_slice()) {
            return false;
        }
        end = start + keyword.len();
        k += 1;
    }
    end == s.len() || char_is_ascii_space(s[end])
}

fn clause_position(s: &[char], keywords: &[&str]) -> (r: Option<usize>)
    ensures
        same_position(r, find_clause(s@, str_texts(keywords@))),
        r is Some ==> r->0 < s@.len(),
{
    if keywords.len() == 0 {
        return None;
    }
    let ghost words = str_texts(keywords@);
    let mut i: usize = 0;
    while i < s.len()
        invariant
            i <= s@.len(),
            keywords@.len() > 0,
            words == str_texts(keywords@),
            find_clause(s@, words) == find_clause_from(s@, words, i as int),
        decreases s@.len() - i,
    {
        match cypher_piece_from(s, i) {
            Found::Comment(Some(e)) => {
                i = e;
            },
            Found::Quoted(Some(e)) => {
                i = e;
            },
            Found::Code => {
                if clause_stands_at(s, i, keywords) {
                    return Some(i);
                }
                i += 1;
            },
            _ => {
                return None;
            },
        }
    }
    None
}

/// Finds a sequence of keywords, set off by white space, outside strings,
/// backtick-quoted names and comments. The result is a byte offset.
pub fn find_cypher_clause(haystack: &str, keywords: &[&str]) -> (r: Option<usize>)
    ensures
        is_offset_of(r, haystack@, find_clause(haystack@, str_texts(keywords@))),
{
    let s: Vec<char> = chars_of(haystack);
    // The length in bytes fits a machine word, and so do the offsets.
    let _bytes: usize = byte_count(haystack);
    let position: Option<usize> = clause_position(s.as_slice(), keywords);
    offset_of_position(s.as_slice(), position)
}

/// The least of two optional positions.
pub open spec fn least(a: Option<int>, b: Option<int>) -> Option<int> {
    match (a, b) {
        (Some(x), Some(y)) => if x <= y {
            a
        } else {
            b
        },
        (Some(_), None) => a,
        _ => b,
    }
}

/// The first clause before which `FROM` can stand.
pub open spec fn insertion_point(s: Seq<char>) -> Option<int> {
    least(
        least(
            least(
                least(find_clause(s, seq!["WHERE"@]), find_clause(s, seq!["RETURN"@])),
                find_clause(s, seq!["ORDER"@, "BY"@]),
            ),
            find_clause(s, seq!["LIMIT"@]),
        ),
        find_clause(s, seq!["SKIP"@]),
    )
}

/// The query text proper.
pub open spec fn bare_query(cypher: Seq<char>) -> Seq<char> {
    trim(trim_end_char(trim(cypher), ';'))
}

/// The query with the graph named, unless it is the default graph or the
/// query names one itself.
pub open spec fn with_graph_target(graph: Seq<char>, cypher: Seq<char>) -> Seq<char> {
    let g = trim(graph);
    let c = bare_query(cypher);
    if g.len() == 0 || g == "default"@ || find_clause(c, seq!["FROM"@]) is Some {
        c
    } else {
        match insertion_point(c) {
            Some(k) => c.take(k) + "FROM "@ + g + " "@ + c.skip(k),
            None => c + " FROM "@ + g,
        }
    }
}

fn one_clause(s: &[char], keyword: &'static str) -> (r: Option<usize>)
    ensures
        same_position(r, find_clause(s@, seq![keyword@])),
        r is Some ==> r->0 < s@.len(),
{
    let keywords: [&'static str; 1] = [keyword];
    assert(str_texts(keywords@) =~= seq![keyword@]);
    clause_position(s, &keywords)
}

fn least_position(a: Option<usize>, b: Option<usize>) -> (r: Option<usize>)
    ensures
        forall|x: Option<int>, y: Option<int>|
            same_position(a, x) && same_position(b, y) ==> same_position(r, #[trigger] least(x, y)),
        r == a || r == b,
{
    match (a, b) {
        (Some(x), Some(y)) => if x <= y {
            a
        } else {
            b
        },
        (Some(_), None) => a,
        _ => b,
    }
}

fn bare_query_chars(cypher: &str) -> (r: Vec<char>)
    ensures
        r@ == bare_query(cypher@),
{
    let outer: Vec<char> = chars_of(trimmed(cypher));
    let n: usize = without_char_at_end(outer.as_slice(), ';');
    let core: String = text_of_range(outer.as_slice(), 0, n);
    assert(core@ =~= outer@.take(n as int));
    chars_of(trimmed(core.as_str()))
}

/// Names the graph in a query: `FROM graph` goes before the first `WHERE`,
/// `RETURN`, `ORDER BY`, `LIMIT` or `SKIP` clause, or to the end.
pub fn inject_graph_target_into_cypher(graph: &str, cypher: &str) -> (r: String)
    ensures
        r@ == with_graph_target(graph@, cypher@),
{
    let graph: &str = trimmed(graph);
    let c: Vec<char> = bare_query_chars(cypher);
    if graph.unicode_len() == 0 || same_text(graph, "default") {
        return text_of(c.as_slice());
    }
    if one_clause(c.as_slice(), "FROM").is_some() {
        return text_of(c.as_slice());
    }
    let where_at: Option<usize> = one_clause(c.as_slice(), "WHERE");
    let return_at: Option<usize> = one_clause(c.as_slice(), "RETURN");
    let order_by: [&'static str; 2] = ["ORDER", "BY"];
    assert(str_texts(order_by@) =~= seq!["ORDER"@, "BY"@]);
    let order_at: Option<usize> = clause_position(c.as_slice(), &order_by);
    let limit_at: Option<usize> = one_clause(c.as_slice(), "LIMIT");
    let skip_at: Option<usize> = one_clause(c.as_slice(), "SKIP");
    let insertion: Option<usize> = least_position(
        least_position(
            least_position(least_position(where_at, return_at), order_at),
            limit_at,
        ),
        skip_at,
    );
    assert(same_position(insertion, insertion_point(c@)));
    match insertion {
        Some(k) => {
            let mut r: String = text_of_range(c.as_slice(), 0, k);
            let rest: String = text_of_range(c.as_slice(), k, c.len());
            r.append("FROM ");
            r.append(graph);
            r.append(" ");
            r.append(rest.as_str());
            assert(c@.subrange(0, k as int) =~= c@.take(k as int));
            assert(c@.subrange(k as int, c@.len() as int) =~= c@.skip(k as int));
            r
        },
        None => {
            let mut r: String = text_of(c.as_slice());
            r.append(" FROM ");
            r.append(graph);
            r
        },
    }
}

/// Read piece by piece from position `i` on, the text has a piece that begins
/// at position `k`.
pub open spec fn lands_on(s: Seq<char>, i: int, k: int) -> bool
    decreases s.len() - i,
{
    if i == k {
        true
    } else if i < 0 || i > k || i >= s.len() {
        false
    } else {
        proof {
            lemma_cypher_piece_at(s, i);
        }
        match cypher_piece_at(s, i) {
            Piece::Comment { end: Some(e) } => lands_on(s, e, k),
            Piece::Quoted { end: Some(e) } => lands_on(s, e, k),
            Piece::Code => lands_on(s, i + 1, k),
            _ => false,
        }
    }
}

/// No quote and no comment is open at the end: what is put behind the text is
/// code.
pub open spec fn ends_in_code(s: Seq<char>) -> bool {
    lands_on(s.push(' '), 0, s.len() as int)
}

/// The graph has a name of its own.
pub open spec fn is_named(graph: Seq<char>) -> bool {
    trim(graph).len() > 0 && trim(graph) != "default"@
}

/// The texts are the same before position `k`, and there is nothing at `k` that
/// a piece before it could depend on.
spec fn agree_before(s: Seq<char>, u: Seq<char>, k: int) -> bool {
    &&& 0 <= k < s.len()
    &&& k < u.len()
    &&& forall|i: int| 0 <= i < k ==> s[i] == #[trigger] u[i]
    &&& s[k] == u[k] || ((k == 0 || is_ascii_space(s[k - 1])) && s[k] != '\n' && u[k] != '\n')
}

proof fn lemma_block_end_is_behind(s: Seq<char>, i: int, depth: nat)
    requires
        0 <= i,
        depth > 0,
        block_end(s, i, depth) is Some,
    ensures
        block_end(s, i, depth)->0 > i,
    decreases s.len() - i,
{
    if pair_at(s, i, '/', '*') {
        lemma_block_end_is_behind(s, i + 2, depth + 1);
    } else if pair_at(s, i, '*', '/') {
        if depth > 1 {
            lemma_block_end_is_behind(s, i + 2, (depth - 1) as nat);
        }
    } else {
        lemma_block_end_is_behind(s, i + 1, depth);
    }
}

proof fn lemma_same_block(s: Seq<char>, u: Seq<char>, k: int, i: int, depth: nat)
    requires
        agree_before(s, u, k),
        0 <= i,
        block_end(s, i, depth) matches Some(e) && e <= k,
    ensures
        block_end(u, i, depth) == block_end(s, i, depth),
    decreases s.len() - i,
{
    if depth > 0 {
        lemma_block_end_is_behind(s, i, depth);
        if pair_at(s, i, '/', '*') {
            lemma_block_end_is_behind(s, i + 2, depth + 1);
            lemma_same_block(s, u, k, i + 2, depth + 1);
        } else if pair_at(s, i, '*', '/') {
            if depth > 1 {
                lemma_block_end_is_behind(s, i + 2, (depth - 1) as nat);
            }
            lemma_same_block(s, u, k, i + 2, (depth - 1) as nat);
        } else {
            lemma_block_end_is_behind(s, i + 1, depth);
            lemma_same_block(s, u, k, i + 1, depth);
        }
    }
}

proof fn lemma_same_quote(s: Seq<char>, u: Seq<char>, k: int, i: int, q: char)
    requires
        agree_before(s, u, k),
        0 <= i,
        is_quote(q),
        cypher_quote_end(s, i, q) matches Some(e) && e <= k,
    ensures
        cypher_quote_end(u, i, q) == cypher_quote_end(s, i, q),
    decreases s.len() - i,
{
    lemma_cypher_quote_end(s, i, q);
    if s[i] == '\\' && q != '`' {
        lemma_cypher_quote_end(s, i + 2, q);
        lemma_same_quote(s, u, k, i + 2, q);
    } else if pair_at(s, i, q, q) {
        lemma_cypher_quote_end(s, i + 2, q);
        lemma_same_quote(s, u, k, i + 2, q);
    } else if s[i] != q {
        lemma_cypher_quote_end(s, i + 1, q);
        lemma_same_quote(s, u, k, i + 1, q);
    }
}

proof fn lemma_same_landing(s: Seq<char>, u: Seq<char>, i: int, k: int)
    requires
        agree_before(s, u, k),
        0 <= i,
        lands_on(s, i, k),
    ensures
        lands_on(u, i, k),
    decreases s.len() - i,
{
    if i < k {
        lemma_cypher_piece_at(s, i);
        match cypher_piece_at(s, i) {
            Piece::Comment { end: Some(e) } => {
                assert(lands_on(s, e, k));
                assert(e <= k);
                if pair_at(s, i, '/', '/') {
                    lemma_find_char(s, '\n', i + 2);
                    lemma_find_char(u, '\n', i + 2);
                    assert(u[e] == '\n');
                } else {
                    lemma_same_block(s, u, k, i + 2, 1);
                }
                lemma_same_landing(s, u, e, k);
            },
            Piece::Quoted { end: Some(e) } => {
                assert(lands_on(s, e, k));
                assert(e <= k);
                lemma_same_quote(s, u, k, i + 1, s[i]);
                lemma_same_landing(s, u, e, k);
            },
            Piece::Code => {
                assert(cypher_piece_at(u, i) is Code);
                lemma_same_landing(s, u, i + 1, k);
            },
            _ => {},
        }
    }
}

/// A clause that is found begins a piece of code.
proof fn lemma_found_clause(s: Seq<char>, keywords: Seq<Seq<char>>, i: int)
    requires
        0 <= i <= s.len(),
    ensures
        find_clause_from(s, keywords, i) matches Some(k) ==> i <= k < s.len() && lands_on(s, i, k)
            && clause_at(s, k, keywords),
    decreases s.len() - i,
{
    if i < s.len() {
        lemma_cypher_piece_at(s, i);
        match cypher_piece_at(s, i) {
            Piece::Comment { end: Some(e) } => lemma_found_clause(s, keywords, e),
            Piece::Quoted { end: Some(e) } => lemma_found_clause(s, keywords, e),
            Piece::Code => lemma_found_clause(s, keywords, i + 1),
            _ => {},
        }
    }
}

/// A clause that begins a piece of code is found, if not an earlier one.
proof fn lemma_clause_is_found(s: Seq<char>, keywords: Seq<Seq<char>>, i: int, k: int)
    requires
        0 <= i <= k < s.len(),
        lands_on(s, i, k),
        cypher_piece_at(s, k) is Code,
        clause_at(s, k, keywords),
    ensures
        find_clause_from(s, keywords, i) is Some,
    decreases s.len() - i,
{
    if i < k {
        lemma_cypher_piece_at(s, i);
        match cypher_piece_at(s, i) {
            Piece::Comment { end: Some(e) } => {
                assert(lands_on(s, e, k));
                lemma_clause_is_found(s, keywords, e, k);
            },
            Piece::Quoted { end: Some(e) } => {
                assert(lands_on(s, e, k));
                lemma_clause_is_found(s, keywords, e, k);
            },
            Piece::Code => {
                assert(lands_on(s, i + 1, k));
                lemma_clause_is_found(s, keywords, i + 1, k);
            },
            _ => {},
        }
    }
}

proof fn lemma_lands_behind(s: Seq<char>, i: int, k: int)
    requires
        0 <= i <= k < s.len(),
        lands_on(s, i, k),
        cypher_piece_at(s, k) is Code,
    ensures
        lands_on(s, i, k + 1),
    decreases s.len() - i,
{
    lemma_cypher_piece_at(s, i);
    if i < k {
        match cypher_piece_at(s, i) {
            Piece::Comment { end: Some(e) } => {
                assert(lands_on(s, e, k));
                lemma_lands_behind(s, e, k);
            },
            Piece::Quoted { end: Some(e) } => {
                assert(lands_on(s, e, k));
                lemma_lands_behind(s, e, k);
            },
            Piece::Code => {
                assert(lands_on(s, i + 1, k));
                lemma_lands_behind(s, i + 1, k);
            },
            _ => {},
        }
    } else {
        assert(lands_on(s, k + 1, k + 1));
    }
}

/// Where an insertion point is found, code begins, set off by white space.
proof fn lemma_insertion_point(s: Seq<char>)
    ensures
        insertion_point(s) matches Some(k) ==> 0 <= k < s.len() && lands_on(s, 0, k) && (k == 0
            || is_ascii_space(s[k - 1])) && s[k] != '\n',
{
    reveal_strlit("WHERE");
    reveal_strlit("RETURN");
    reveal_strlit("ORDER");
    reveal_strlit("BY");
    reveal_strlit("LIMIT");
    reveal_strlit("SKIP");
    lemma_found_clause(s, seq!["WHERE"@], 0);
    lemma_found_clause(s, seq!["RETURN"@], 0);
    lemma_found_clause(s, seq!["ORDER"@, "BY"@], 0);
    lemma_found_clause(s, seq!["LIMIT"@], 0);
    lemma_found_clause(s, seq!["SKIP"@], 0);
    assert(lower("WHERE"@[0]) != '\n' && lower("RETURN"@[0]) != '\n' && lower("ORDER"@[0]) != '\n'
        && lower("LIMIT"@[0]) != '\n' && lower("SKIP"@[0]) != '\n');
}

/// A text is a query text proper where it neither begins nor ends with white
/// space, and does not end with a semicolon.
proof fn lemma_bare(s: Seq<char>)
    requires
        s.len() > 0,
        !is_space(s[0]),
        !is_space(s.last()),
        s.last() != ';',
    ensures
        bare_query(s) == s,
{
    lemma_trimmed_part(s, 0, s.len() as int);
    assert(s.subrange(0, s.len() as int) =~= s);
}

/// A query that names its graph is left alone: naming the graph, or another
/// one, once more changes nothing. A query without a graph to name stays as it
/// is. Left out are an empty query, one that keeps a semicolon at its end, as
/// `RETURN 1; ;` does, and, where the name goes to the end, a query that ends
/// inside a quote or a comment, and a name that ends with a semicolon.
pub proof fn law_graph_is_named_once(graph: Seq<char>, other: Seq<char>, cypher: Seq<char>)
    requires
        ({
            let c = bare_query(cypher);
            &&& c.len() > 0
            &&& c.last() != ';'
            &&& is_named(graph) && find_clause(c, seq!["FROM"@]) is None && insertion_point(c)
                is None ==> ends_in_code(c) && trim(graph).last() != ';'
        }),
    ensures
        is_named(graph) ==> with_graph_target(other, with_graph_target(graph, cypher))
            == with_graph_target(graph, cypher),
        !is_named(graph) ==> with_graph_target(graph, cypher) == bare_query(cypher),
        with_graph_target(graph, with_graph_target(graph, cypher)) == with_graph_target(
            graph,
            cypher,
        ),
{
    let c = bare_query(cypher);
    let g = trim(graph);
    let from = seq!["FROM"@];
    let (a, b) = lemma_trim(trim_end_char(trim(cypher), ';'));
    lemma_bare(c);
    if is_named(graph) && find_clause(c, from) is None {
        let (x, y) = lemma_trim(graph);
        let r = with_graph_target(graph, cypher);
        reveal_strlit("FROM");
        reveal_strlit("FROM ");
        reveal_strlit(" FROM ");
        reveal_strlit(" ");
        lemma_insertion_point(c);
        let at = match insertion_point(c) {
            Some(k) => k,
            None => c.len() as int + 1,
        };
        match insertion_point(c) {
            Some(k) => {
                assert(r[k] == 'F');
                assert(agree_before(c, r, k));
                lemma_same_landing(c, r, 0, k);
                assert(r.last() == c.last());
                assert(k > 0 ==> r[0] == c[0]);
            },
            None => {
                let k = c.len() as int;
                assert(r[k] == ' ');
                assert(agree_before(c.push(' '), r, k));
                lemma_same_landing(c.push(' '), r, 0, k);
                lemma_lands_behind(r, 0, k);
                assert(r[0] == c[0]);
                assert(r.last() == g.last());
            },
        }
        assert(r[at] == 'F' && r[at + 1] == 'R' && r[at + 2] == 'O' && r[at + 3] == 'M');
        assert(r[at + 4] == ' ');
        assert(word_at(r, at, "FROM"@));
        assert(from.skip(1) =~= Seq::<Seq<char>>::empty());
        assert(at == 0 || is_ascii_space(r[at - 1]));
        assert(clause_at(r, at, from));
        lemma_clause_is_found(r, from, 0, at);
        lemma_bare(r);
    }
}

/// A text without quotes and comments is code throughout.
proof fn lemma_plain_text(s: Seq<char>, i: int, k: int)
    requires
        0 <= i <= k <= s.len(),
        forall|j: int| 0 <= j < k ==> !is_quote(#[trigger] s[j]),
        forall|j: int|
            0 <= j < k ==> !(#[trigger] pair_at(s, j, '/', '/')) && !pair_at(s, j, '/', '*'),
    ensures
        lands_on(s, i, k),
    decreases k - i,
{
    if i < k {
        assert(!pair_at(s, i, '/', '/'));
        assert(!is_quote(s[i]));
        lemma_plain_text(s, i + 1, k);
    }
}

/// In a query proper without quotes and comments a graph with a plain name is
/// named once, and never exchanged for another; the default graph is not named.
pub proof fn law_plain_query_names_one_graph(g: Seq<char>, h: Seq<char>, c: Seq<char>)
    requires
        g.len() > 0,
        g != "default"@,
        forall|i: int| 0 <= i < g.len() ==> is_alphanumeric(#[trigger] g[i]),
        c.len() > 0,
        c == trim(c),
        c.last() != ';',
        forall|i: int| 0 <= i < c.len() ==> !is_quote(#[trigger] c[i]),
        forall|i: int|
            0 <= i < c.len() ==> !(#[trigger] pair_at(c, i, '/', '/')) && !pair_at(c, i, '/', '*'),
    ensures
        with_graph_target(h, with_graph_target(g, c)) == with_graph_target(g, c),
        with_graph_target(""@, c) == c,
        with_graph_target("default"@, c) == c,
{
    let (a, b) = lemma_trim(c);
    assert(a == 0 && b == c.len());
    lemma_bare(c);
    assert(is_alphanumeric(g[0]) && is_alphanumeric(g.last()));
    lemma_trimmed_part(g, 0, g.len() as int);
    assert(g.subrange(0, g.len() as int) =~= g);
    let s = c.push(' ');
    assert forall|j: int| 0 <= j < c.len() implies !(#[trigger] pair_at(s, j, '/', '/'))
        && !pair_at(s, j, '/', '*') by {
        assert(!pair_at(c, j, '/', '/'));
    }
    assert forall|j: int| 0 <= j < c.len() implies !is_quote(#[trigger] s[j]) by {
        assert(!is_quote(c[j]));
    }
    lemma_plain_text(s, 0, c.len() as int);
    law_graph_is_named_once(g, h, c);
    reveal_strlit("");
    reveal_strlit("default");
    let (x, y) = lemma_trim(""@);
    lemma_trimmed_part("default"@, 0, 7);
    assert("default"@.subrange(0, 7) =~= "default"@);
}

} // verus!
