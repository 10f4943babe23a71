//! Keyword search at the top level of SQL text, outside parentheses, brackets
//! and braces.

use vstd::prelude::*;
use crate::sql::lexical::{
    Found, Piece, is_quote, lemma_piece_at, piece_at, piece_from, same_position,
};
use crate::text::ascii::{matches_word_at, word_at};
use crate::text::chars::chars_of;
use crate::text::offset::{byte_count, is_offset_of, offset_of_position};

verus! {

pub open spec fn is_open(c: char) -> bool {
    c == '(' || c == '[' || c == '{'
}

pub open spec fn is_close(c: char) -> bool {
    c == ')' || c == ']' || c == '}'
}

/// The delimiter that `close` closes.
pub open spec fn opener_of(close: char) -> char {
    if close == ')' {
        '('
    } else if close == ']' {
        '['
    } else {
        '{'
    }
}

/// The outcome of a scan.
pub struct Scan {
    /// Where the word was found.
    pub found: Option<int>,
    /// Where a quoted segment begins that is never closed.
    pub unterminated: Option<int>,
    /// A comment is never closed, or the delimiters do not match.
    pub malformed: bool,
}

/// What begins at `i` when the quote at `skip` counts as plain text.
pub open spec fn piece_unless(s: Seq<char>, i: int, skip: Option<int>) -> Piece {
    if skip == Some(i) && is_quote(s[i]) {
        Piece::Code
    } else {
        piece_at(s, i)
    }
}

/// Scans from position `i`, with the delimiters of `open` still open, for the
/// first `word` that stands in code at the top level. With `complete`, the
/// text behind the word is scanned too.
pub open spec fn scan_from(
    s: Seq<char>,
    word: Seq<char>,
    skip: Option<int>,
    complete: bool,
    i: int,
    open: Seq<char>,
    found: Option<int>,
) -> Scan
    decreases s.len() - i,
{
    if i < 0 || i >= s.len() {
        Scan { found, unterminated: None, malformed: open.len() > 0 }
    } else {
        proof {
            lemma_piece_at(s, i);
        }
        match piece_unless(s, i, skip) {
            Piece::Comment { end: None } => Scan {
                found: None,
                unterminated: None,
                malformed: true,
            },
            Piece::Comment { end: Some(e) } => scan_from(s, word, skip, complete, e, open, found),
            Piece::Quoted { end: None } => Scan {
                found,
                unterminated: Some(i),
                malformed: open.len() > 0,
            },
            Piece::Quoted { end: Some(e) } => scan_from(s, word, skip, complete, e, open, found),
            Piece::Code => if is_open(s[i]) {
                scan_from(s, word, skip, complete, i + 1, open.push(s[i]), found)
            } else if is_close(s[i]) {
                if open.len() > 0 && open.last() == opener_of(s[i]) {
                    scan_from(s, word, skip, complete, i + 1, open.drop_last(), found)
                } else {
                    Scan { found: None, unterminated: None, malformed: true }
                }
            } else if open.len() == 0 && found is None && word_at(s, i, word) {
                if complete {
                    scan_from(s, word, skip, complete, i + 1, open, Some(i))
                } else {
                    Scan { found: Some(i), unterminated: None, malformed: false }
                }
            } else {
                scan_from(s, word, skip, complete, i + 1, open, found)
            },
        }
    }
}

/// A scan of the whole text.
pub open spec fn scan(s: Seq<char>, word: Seq<char>, skip: Option<int>, complete: bool) -> Scan {
    scan_from(s, word, skip, complete, 0, Seq::empty(), None)
}

/// The first `word` at the top level. Where a quoted segment is never closed
/// and the word was not found before it, its quote counts as plain text in a
/// second and last scan.
pub open spec fn find_at_top_level(s: Seq<char>, word: Seq<char>) -> Option<int> {
    let first = scan(s, word, None, false);
    if first.found is Some {
        first.found
    } else if first.unterminated is Some {
        scan(s, word, first.unterminated, false).found
    } else {
        None
    }
}

/// The text has no unterminated quote or comment and no unmatched delimiter.
pub open spec fn is_well_nested(s: Seq<char>, word: Seq<char>) -> bool {
    let all = scan(s, word, None, true);
    !all.malformed && all.unterminated is None
}

/// Once found, a position stays, unless a fault follows.
proof fn lemma_found_stays(
    s: Seq<char>,
    word: Seq<char>,
    skip: Option<int>,
    i: int,
    open: Seq<char>,
    at: int,
)
    requires
        0 <= i,
    ensures
        ({
            let all = scan_from(s, word, skip, true, i, open, Some(at));
            &&& all.found is Some ==> all.found == Some(at)
            &&& !all.malformed ==> all.found == Some(at)
        }),
    decreases s.len() - i,
{
    if i < s.len() {
        lemma_piece_at(s, i);
        match piece_unless(s, i, skip) {
            Piece::Comment { end: Some(e) } => lemma_found_stays(s, word, skip, e, open, at),
            Piece::Quoted { end: Some(e) } => lemma_found_stays(s, word, skip, e, open, at),
            Piece::Code => {
                lemma_found_stays(s, word, skip, i + 1, open, at);
                lemma_found_stays(s, word, skip, i + 1, open.push(s[i]), at);
                lemma_found_stays(s, word, skip, i + 1, open.drop_last(), at);
            },
            _ => {},
        }
    }
}

/// A complete scan from a position on, beside one that stops at the word.
proof fn lemma_complete_scan(
    s: Seq<char>,
    word: Seq<char>,
    skip: Option<int>,
    i: int,
    open: Seq<char>,
)
    requires
        0 <= i,
    ensures
        ({
            let all = scan_from(s, word, skip, true, i, open, None);
            let early = scan_from(s, word, skip, false, i, open, None);
            &&& all.found is Some ==> early == (Scan {
                found: all.found,
                unterminated: None,
                malformed: false,
            })
            &&& early.found is None ==> all == early
            &&& !all.malformed ==> all.found == early.found
        }),
    decreases s.len() - i,
{
    if i < s.len() {
        lemma_piece_at(s, i);
        match piece_unless(s, i, skip) {
            Piece::Comment { end: Some(e) } => lemma_complete_scan(s, word, skip, e, open),
            Piece::Quoted { end: Some(e) } => lemma_complete_scan(s, word, skip, e, open),
            Piece::Code => {
                lemma_complete_scan(s, word, skip, i + 1, open);
                lemma_complete_scan(s, word, skip, i + 1, open.push(s[i]));
                lemma_complete_scan(s, word, skip, i + 1, open.drop_last());
                lemma_found_stays(s, word, skip, i + 1, open, i);
            },
            _ => {},
        }
    }
}

/// Completing a scan never changes which word is found: where a complete scan
/// finds one, the scan that stops there finds the same, and where that finds
/// none, they are one scan. What a complete scan adds is the report of faults
/// in the rest of the text.
pub proof fn law_completing_finds_the_same(s: Seq<char>, word: Seq<char>, skip: Option<int>)
    ensures
        ({
            let all = scan(s, word, skip, true);
            let early = scan(s, word, skip, false);
            &&& all.found is Some ==> early == (Scan {
                found: all.found,
                unterminated: None,
                malformed: false,
            })
            &&& early.found is None ==> all == early
        }),
{
    lemma_complete_scan(s, word, skip, 0, Seq::empty());
}

/// On a text without faults the strict and the tolerant search agree.
pub proof fn law_strict_search_agrees(s: Seq<char>, word: Seq<char>)
    requires
        is_well_nested(s, word),
    ensures
        find_at_top_level(s, word) == scan(s, word, None, true).found,
{
    lemma_complete_scan(s, word, None, 0, Seq::empty());
}

/// A scan finds the word in code, at the top level or not at all.
proof fn lemma_scan_found(
    s: Seq<char>,
    word: Seq<char>,
    skip: Option<int>,
    complete: bool,
    i: int,
    open: Seq<char>,
    found: Option<int>,
)
    requires
        0 <= i,
        found is Some ==> word_at(s, found->0, word) && 0 <= found->0 < s.len(),
    ensures
        ({
            let r = scan_from(s, word, skip, complete, i, open, found).found;
            r is Some ==> word_at(s, r->0, word) && 0 <= r->0 < s.len()
        }),
    decreases s.len() - i,
{
    if i < s.len() {
        lemma_piece_at(s, i);
        match piece_unless(s, i, skip) {
            Piece::Comment { end: Some(e) } => {
                lemma_scan_found(s, word, skip, complete, e, open, found);
            },
            Piece::Quoted { end: Some(e) } => {
                lemma_scan_found(s, word, skip, complete, e, open, found);
            },
            Piece::Code => {
                lemma_scan_found(s, word, skip, complete, i + 1, open, found);
                lemma_scan_found(s, word, skip, complete, i + 1, open.push(s[i]), found);
                lemma_scan_found(s, word, skip, complete, i + 1, open.drop_last(), found);
                if word_at(s, i, word) {
                    lemma_scan_found(s, word, skip, complete, i + 1, open, Some(i));
                }
            },
            _ => {},
        }
    }
}

/// What the search finds at the top level is the word, up to ASCII case.
pub proof fn law_top_level_match_is_the_word(s: Seq<char>, word: Seq<char>)
    ensures
        find_at_top_level(s, word) is Some ==> word_at(s, find_at_top_level(s, word)->0, word),
{
    let first = scan(s, word, None, false);
    lemma_scan_found(s, word, None, false, 0, Seq::empty(), None);
    lemma_scan_found(s, word, first.unterminated, false, 0, Seq::empty(), None);
}

/// The outcome of a scan, in positions of the text.
#[derive(Debug)]
pub struct Outcome {
    pub found: Option<usize>,
    pub unterminated: Option<usize>,
    pub malformed: bool,
}

impl Outcome {
    pub open spec fn is_scan(self, scan: Scan) -> bool {
        &&& same_position(self.found, scan.found)
        &&& same_position(self.unterminated, scan.unterminated)
        &&& self.malformed == scan.malformed
    }
}

pub open spec fn position(k: Option<usize>) -> Option<int> {
    match k {
        Some(i) => Some(i as int),
        None => None,
    }
}

/// Scans a text for the first word at its top level. The quote at
/// `skip_quote_at` counts as plain text; a complete scan goes on behind the
/// word.
pub fn at_top_level_impl(
    s: &[char],
    word: &[char],
    skip_quote_at: Option<usize>,
    complete_scan: bool,
) -> (r: Outcome)
    ensures
        r.is_scan(scan(s@, word@, position(skip_quote_at), complete_scan)),
        r.found is Some ==> r.found->0 < s@.len(),
        r.unterminated is Some ==> r.unterminated->0 < s@.len(),
{
    let mut nesting: Vec<char> = Vec::new();
    let mut found: Option<usize> = None;
    let mut i: usize = 0;
    let ghost skip = position(skip_quote_at);
    let ghost target = scan(s@, word@, skip, complete_scan);
    while i < s.len()
        invariant
            i <= s@.len(),
            skip == position(skip_quote_at),
            target == scan(s@, word@, skip, complete_scan),
            found is Some ==> found->0 < s@.len(),
            scan_from(s@, word@, skip, complete_scan, i as int, nesting@, position(found))
                == target,
        decreases s@.len() - i,
    {
        let c: char = s[i];
        let skipped: bool = match skip_quote_at {
            Some(at) => at == i && (c == '\'' || c == '"' || c == '`'),
            None => false,
        };
        if !skipped {
            match piece_from(s, i) {
                Found::Comment(None) => {
                    return Outcome { found: None, unterminated: None, malformed: true };
                },
                Found::Comment(Some(e)) => {
                    i = e;
                    continue;
                },
                Found::Quoted(None) => {
                    return Outcome {
                        found,
                        unterminated: Some(i),
                        malformed: nesting.len() > 0,
                    };
                },
                Found::Quoted(Some(e)) => {
                    i = e;
                    continue;
                },
                Found::Code => {},
            }
        }
        assert(piece_unless(s@, i as int, skip) is Code);
        if c == '(' || c == '[' || c == '{' {
            nesting.push(c);
        } else if c == ')' || c == ']' || c == '}' {
            let expected: char = if c == ')' {
                '('
            } else if c == ']' {
                '['
            } else {
                '{'
            };
            let ghost stack = nesting@;
            match nesting.pop() {
                Some(opened) => {
                    assert(nesting@ =~= stack.drop_last());
                    if opened != expected {
                        return Outcome { found: None, unterminated: None, malformed: true };
                    }
                },
                None => {
                    return Outcome { found: None, unterminated: None, malformed: true };
                },
            }
        } else if nesting.len() == 0 && found.is_none() && matches_word_at(s, i, word) {
            if !complete_scan {
                return Outcome { found: Some(i), unterminated: None, malformed: false };
            }
            found = Some(i);
        }
        i += 1;
    }
    Outcome { found, unterminated: None, malformed: nesting.len() > 0 }
}

/// As [`find_ascii_ci_outside_quotes`], and outside parentheses, brackets and
/// braces: a `WHERE` inside `FILTER (WHERE ...)` is not the statement's clause.
/// An unterminated quote is tolerated once, as plain text.
///
/// [`find_ascii_ci_outside_quotes`]: crate::sql::scan::find_ascii_ci_outside_quotes
pub fn find_ascii_ci_at_top_level(haystack: &str, needle: &str) -> (r: Option<usize>)
    ensures
        is_offset_of(r, haystack@, find_at_top_level(haystack@, needle@)),
{
    let s: Vec<char> = chars_of(haystack);
    let word: Vec<char> = chars_of(needle);
    // The length in bytes fits a machine word, and so do the offsets.
    let _bytes: usize = byte_count(haystack);
    let first: Outcome = at_top_level_impl(s.as_slice(), word.as_slice(), None, false);
    if first.found.is_some() {
        return offset_of_position(s.as_slice(), first.found);
    }
    match first.unterminated {
        Some(open) => {
            let second: Outcome = at_top_level_impl(
                s.as_slice(),
                word.as_slice(),
                Some(open),
                false,
            );
            offset_of_position(s.as_slice(), second.found)
        },
        None => None,
    }
}

/// A full scan that reports malformed text, for callers that have to tell an
/// absent clause from one that an unterminated quote, comment or delimiter
/// hides.
pub fn find_ascii_ci_at_top_level_checked(haystack: &str, needle: &str) -> (r: Result<
    Option<usize>,
    &'static str,
>)
    ensures
        r is Ok <==> is_well_nested(haystack@, needle@),
        r matches Ok(offset) ==> is_offset_of(
            offset,
            haystack@,
            scan(haystack@, needle@, None, true).found,
        ),
        r matches Err(message) ==> message@
            == "unterminated SQL quote, comment, or mismatched nesting delimiter"@,
{
    let s: Vec<char> = chars_of(haystack);
    let word: Vec<char> = chars_of(needle);
    // The length in bytes fits a machine word, and so do the offsets.
    let _bytes: usize = byte_count(haystack);
    let all: Outcome = at_top_level_impl(s.as_slice(), word.as_slice(), None, true);
    if all.malformed || all.unterminated.is_some() {
        Err("unterminated SQL quote, comment, or mismatched nesting delimiter")
    } else {
        Ok(offset_of_position(s.as_slice(), all.found))
    }
}

} // verus!
