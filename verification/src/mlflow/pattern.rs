//! Regular expressions, from the `regex` crate.

use vstd::prelude::*;
use vstd::string::*;
use crate::text::chars::{chars_of, opt_text};

verus! {

/// Whether a regular expression matches somewhere in a text; `None` where the
/// pattern is no regular expression.
pub uninterp spec fn regex_match(pattern: Seq<char>, text: Seq<char>) -> Option<bool>;

/// What the groups of a regular expression capture in a text, the whole match
/// first. The inner `None` where nothing matches, the error where the pattern
/// is no regular expression.
pub uninterp spec fn regex_captures(pattern: Seq<char>, text: Seq<char>) -> Result<
    Option<Seq<Option<Seq<char>>>>,
    Seq<char>,
>;

/// The character has a meaning of its own in a regular expression.
pub open spec fn is_meta(c: char) -> bool {
    c == '\\' || c == '.' || c == '+' || c == '*' || c == '?' || c == '(' || c == ')' || c == '|'
        || c == '[' || c == ']' || c == '{' || c == '}' || c == '^' || c == '$' || c == '#' || c
        == '&' || c == '-' || c == '~'
}

/// What stands in a regular expression for a character that means itself: a
/// backslash goes before one that has a meaning of its own.
pub open spec fn escaped_char(c: char) -> Seq<char> {
    if is_meta(c) {
        seq!['\\', c]
    } else {
        seq![c]
    }
}

/// `regex::Regex::new` and `Regex::is_match`: whether the pattern matches
/// somewhere in the text, a function of the two.
#[verifier::external_body]
pub(crate) fn is_regex_match(pattern: &str, text: &str) -> (r: Option<bool>)
    ensures
        r == regex_match(pattern@, text@),
{
    regex::Regex::new(pattern).ok().map(|re| re.is_match(text))
}

/// The texts of captured groups.
pub open spec fn opt_texts(v: Seq<Option<String>>) -> Seq<Option<Seq<char>>> {
    v.map_values(|t: Option<String>| opt_text(t))
}

pub open spec fn captures_view(r: Result<Option<Vec<Option<String>>>, String>) -> Result<
    Option<Seq<Option<Seq<char>>>>,
    Seq<char>,
> {
    match r {
        Ok(Some(groups)) => Ok(Some(opt_texts(groups@))),
        Ok(None) => Ok(None),
        Err(e) => Err(e@),
    }
}

/// `regex::Regex::new` and `Regex::captures`: the groups of the first match, a
/// function of the pattern and the text; the error is what its `Display` shows.
#[verifier::external_body]
pub(crate) fn regex_groups(pattern: &str, text: &str) -> (r: Result<
    Option<Vec<Option<String>>>,
    String,
>)
    ensures
        captures_view(r) == regex_captures(pattern@, text@),
{
    let re = regex::Regex::new(pattern).map_err(|e| e.to_string())?;
    Ok(
        re.captures(text).map(
            |c| c.iter().map(|g| g.map(|m| m.as_str().to_string())).collect(),
        ),
    )
}

/// What stands in a regular expression for one character of a `LIKE` pattern.
pub open spec fn like_piece(c: char) -> Seq<char> {
    if c == '%' {
        ".*"@
    } else if c == '_' {
        "."@
    } else {
        escaped_char(c)
    }
}

pub open spec fn like_pieces(p: Seq<char>) -> Seq<char>
    decreases p.len(),
{
    if p.len() == 0 {
        Seq::empty()
    } else {
        like_pieces(p.drop_last()) + like_piece(p.last())
    }
}

/// The regular expression of a `LIKE` pattern: `%` stands for any run of
/// characters, `_` for any one character, line feeds among them, and the rest
/// for itself.
pub open spec fn like_regex(p: Seq<char>) -> Seq<char> {
    "(?s)^"@ + like_pieces(p) + "$"@
}

/// The value matches a `LIKE` pattern.
pub open spec fn is_like(value: Seq<char>, pattern: Seq<char>) -> bool {
    regex_match(like_regex(pattern), value) == Some(true)
}

fn has_meaning(c: char) -> (r: bool)
    ensures
        r == is_meta(c),
{
    c == '\\' || c == '.' || c == '+' || c == '*' || c == '?' || c == '(' || c == ')' || c == '|'
        || c == '[' || c == ']' || c == '{' || c == '}' || c == '^' || c == '$' || c == '#' || c
        == '&' || c == '-' || c == '~'
}

/// The regular expression of a `LIKE` pattern.
pub fn like_regex_text(pattern: &str) -> (r: String)
    ensures
        r@ == like_regex(pattern@),
{
    let p: Vec<char> = chars_of(pattern);
    let mut r: String = "(?s)^".to_owned();
    let mut i: usize = 0;
    while i < p.len()
        invariant
            0 <= i <= p@.len(),
            r@ == "(?s)^"@ + like_pieces(p@.take(i as int)),
        decreases p@.len() - i,
    {
        let ghost before = r@;
        proof {
            assert(p@.take(i + 1).drop_last() =~= p@.take(i as int));
        }
        if p[i] == '%' {
            r.append(".*");
        } else if p[i] == '_' {
            r.append(".");
        } else {
            if has_meaning(p[i]) {
                r.push('\\');
            }
            r.push(p[i]);
        }
        assert(r@ =~= before + like_piece(p@[i as int]));
        assert(r@ =~= "(?s)^"@ + like_pieces(p@.take(i + 1)));
        i += 1;
    }
    assert(p@.take(i as int) =~= p@);
    r.append("$");
    r
}

/// Whether a value matches a SQL `LIKE` pattern, case-sensitively.
pub fn like_match(value: &str, pattern: &str) -> (r: bool)
    ensures
        r == is_like(value@, pattern@),
{
    let regex: String = like_regex_text(pattern);
    match is_regex_match(regex.as_str(), value) {
        Some(matched) => matched,
        None => false,
    }
}

} // verus!
