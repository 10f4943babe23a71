//! The lexical pieces of SQL text: comments, quoted segments and code.

use vstd::prelude::*;
use crate::text::search::{find_char, lemma_find_char, position_of_char};

verus! {

/// The characters `a` and `b` stand at positions `i` and `i + 1`.
pub open spec fn pair_at(s: Seq<char>, i: int, a: char, b: char) -> bool {
    0 <= i && i + 1 < s.len() && s[i] == a && s[i + 1] == b
}

/// The position behind a block comment, read from position `i` inside
/// `depth` open comments. Comments nest. `None` where one is never closed.
pub open spec fn block_end(s: Seq<char>, i: int, depth: nat) -> Option<int>
    decreases s.len() - i,
{
    if depth == 0 {
        Some(i)
    } else if i < 0 || i >= s.len() {
        None
    } else if pair_at(s, i, '/', '*') {
        block_end(s, i + 2, depth + 1)
    } else if pair_at(s, i, '*', '/') {
        block_end(s, i + 2, (depth - 1) as nat)
    } else {
        block_end(s, i + 1, depth)
    }
}

/// The position of the line's end: its line feed, or the text's end.
pub open spec fn line_end(s: Seq<char>, i: int) -> int {
    match find_char(s, '\n', i) {
        Some(k) => k,
        None => s.len() as int,
    }
}

/// The position behind the closing `q`, read from position `i` inside the
/// quoted segment. A doubled `q` is content. `None` where it is never closed.
pub open spec fn quote_end(s: Seq<char>, i: int, q: char) -> Option<int>
    decreases s.len() - i,
{
    if i < 0 || i >= s.len() {
        None
    } else if pair_at(s, i, q, q) {
        quote_end(s, i + 2, q)
    } else if s[i] == q {
        Some(i + 1)
    } else {
        quote_end(s, i + 1, q)
    }
}

pub open spec fn is_quote(c: char) -> bool {
    c == '\'' || c == '"' || c == '`'
}

/// What begins at a position of SQL code.
pub enum Piece {
    /// A comment, with the position behind it.
    Comment { end: Option<int> },
    /// A quoted segment, with the position behind it.
    Quoted { end: Option<int> },
    /// One character of code.
    Code,
}

pub open spec fn piece_at(s: Seq<char>, i: int) -> Piece {
    if pair_at(s, i, '/', '*') {
        Piece::Comment { end: block_end(s, i + 2, 1) }
    } else if pair_at(s, i, '-', '-') {
        Piece::Comment { end: Some(line_end(s, i + 2)) }
    } else if 0 <= i < s.len() && is_quote(s[i]) {
        Piece::Quoted { end: quote_end(s, i + 1, s[i]) }
    } else {
        Piece::Code
    }
}

pub proof fn lemma_block_end(s: Seq<char>, i: int, depth: nat)
    requires
        0 <= i <= s.len(),
    ensures
        block_end(s, i, depth) is Some ==> i <= block_end(s, i, depth)->0 <= s.len(),
    decreases s.len() - i,
{
    if depth > 0 && i < s.len() {
        if pair_at(s, i, '/', '*') {
            lemma_block_end(s, i + 2, depth + 1);
        } else if pair_at(s, i, '*', '/') {
            lemma_block_end(s, i + 2, (depth - 1) as nat);
        } else {
            lemma_block_end(s, i + 1, depth);
        }
    }
}

pub proof fn lemma_quote_end(s: Seq<char>, i: int, q: char)
    requires
        0 <= i <= s.len(),
    ensures
        quote_end(s, i, q) is Some ==> i < quote_end(s, i, q)->0 <= s.len(),
    decreases s.len() - i,
{
    if i < s.len() {
        if pair_at(s, i, q, q) {
            lemma_quote_end(s, i + 2, q);
        } else if s[i] != q {
            lemma_quote_end(s, i + 1, q);
        }
    }
}

/// A piece ends behind its beginning and within the text.
pub proof fn lemma_piece_at(s: Seq<char>, i: int)
    requires
        0 <= i < s.len(),
    ensures
        match piece_at(s, i) {
            Piece::Comment { end } => end is Some ==> i < end->0 <= s.len(),
            Piece::Quoted { end } => end is Some ==> i < end->0 <= s.len(),
            Piece::Code => true,
        },
{
    if pair_at(s, i, '/', '*') {
        lemma_block_end(s, i + 2, 1);
    } else if pair_at(s, i, '-', '-') {
        lemma_find_char(s, '\n', i + 2);
    } else if is_quote(s[i]) {
        lemma_quote_end(s, i + 1, s[i]);
    }
}

/// Whether `a` and `b` stand at positions `i` and `i + 1`.
pub fn has_pair_at(s: &[char], i: usize, a: char, b: char) -> (r: bool)
    requires
        i < s@.len(),
    ensures
        r == pair_at(s@, i as int, a, b),
{
    s.len() - i > 1 && s[i] == a && s[i + 1] == b
}

/// The position behind a block comment whose opening ends before `from`.
pub fn block_comment_end(s: &[char], from: usize) -> (r: Option<usize>)
    requires
        from <= s@.len(),
    ensures
        r is Some <==> block_end(s@, from as int, 1) is Some,
        r is Some ==> block_end(s@, from as int, 1) == Some(r->0 as int) && from <= r->0
            <= s@.len(),
{
    let mut i: usize = from;
    let mut depth: usize = 1;
    while i < s.len() && depth > 0
        invariant
            from <= i <= s@.len(),
            depth <= i - from + 1,
            i < s@.len() ==> depth < usize::MAX,
            block_end(s@, from as int, 1) == block_end(s@, i as int, depth as nat),
        decreases s@.len() - i,
    {
        if has_pair_at(s, i, '/', '*') {
            depth += 1;
            i += 2;
        } else if has_pair_at(s, i, '*', '/') {
            depth -= 1;
            i += 2;
        } else {
            i += 1;
        }
    }
    if depth > 0 {
        None
    } else {
        Some(i)
    }
}

/// The position of the line's end.
pub fn end_of_line(s: &[char], from: usize) -> (r: usize)
    requires
        from <= s@.len(),
    ensures
        r == line_end(s@, from as int),
        from <= r <= s@.len(),
{
    match position_of_char(s, '\n', from) {
        Some(k) => k,
        None => s.len(),
    }
}

/// The position behind the closing `q`, from a position inside the segment.
pub fn quoted_end(s: &[char], from: usize, q: char) -> (r: Option<usize>)
    requires
        from <= s@.len(),
    ensures
        r is Some <==> quote_end(s@, from as int, q) is Some,
        r is Some ==> quote_end(s@, from as int, q) == Some(r->0 as int) && from < r->0
            <= s@.len(),
{
    let mut i: usize = from;
    while i < s.len()
        invariant
            from <= i <= s@.len(),
            quote_end(s@, from as int, q) == quote_end(s@, i as int, q),
        decreases s@.len() - i,
    {
        if has_pair_at(s, i, q, q) {
            i += 2;
        } else if s[i] == q {
            return Some(i + 1);
        } else {
            i += 1;
        }
    }
    None
}

/// What begins at a position of SQL code.
#[derive(Debug)]
pub enum Found {
    Comment(Option<usize>),
    Quoted(Option<usize>),
    Code,
}

impl Found {
    /// The piece that this describes.
    pub open spec fn is_piece(self, piece: Piece) -> bool {
        match self {
            Found::Comment(end) => match piece {
                Piece::Comment { end: e } => same_position(end, e),
                _ => false,
            },
            Found::Quoted(end) => match piece {
                Piece::Quoted { end: e } => same_position(end, e),
                _ => false,
            },
            Found::Code => piece is Code,
        }
    }
}

/// Two optional positions are the same.
pub open spec fn same_position(a: Option<usize>, b: Option<int>) -> bool {
    match (a, b) {
        (Some(x), Some(y)) => x == y,
        (None, None) => true,
        _ => false,
    }
}

/// What begins at position `i`.
pub fn piece_from(s: &[char], i: usize) -> (r: Found)
    requires
        i < s@.len(),
    ensures
        r.is_piece(piece_at(s@, i as int)),
        r matches Found::Comment(Some(e)) ==> i < e <= s@.len(),
        r matches Found::Quoted(Some(e)) ==> i < e <= s@.len(),
{
    // The length fits a machine word, and so do the positions.
    let _n: usize = s.len();
    if has_pair_at(s, i, '/', '*') {
        Found::Comment(block_comment_end(s, i + 2))
    } else if has_pair_at(s, i, '-', '-') {
        Found::Comment(Some(end_of_line(s, i + 2)))
    } else if s[i] == '\'' || s[i] == '"' || s[i] == '`' {
        Found::Quoted(quoted_end(s, i + 1, s[i]))
    } else {
        Found::Code
    }
}

} // verus!
