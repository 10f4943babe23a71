//! The grammar of search filters.

use vstd::prelude::*;
use vstd::string::*;
use crate::mlflow::error::{
    ErrorModel, MlflowError, around, internal_error, invalid_error, outcome, outcomes, text_around,
};
use crate::mlflow::pattern::{captures_view, opt_texts, regex_captures, regex_groups};
use crate::sql::lexical::{is_quote, quote_end, quoted_end};
use crate::text::ascii::{
    char_is_ascii_space, char_lower, char_upper, is_ascii_space, lower_text, matches_word_at,
    upper_text, word_at,
};
use crate::text::chars::{chars_of, opt_text, text_of, text_of_range, texts, views};
use crate::text::search::{replace_part, replaced};
use crate::text::trim::{trim, trimmed};

verus! {

/// The word `and` between spaces begins at position `k` of a clause that began
/// at position `start`.
pub open spec fn clause_ends(s: Seq<char>, start: int, k: int) -> bool {
    &&& word_at(s, k, "and"@)
    &&& k > start
    &&& is_ascii_space(s[k - 1])
    &&& k + 3 < s.len()
    &&& is_ascii_space(s[k + 3])
}

/// The clauses from position `k` on, where the current one began at `start`;
/// `None` where a quote is never closed.
pub open spec fn clauses_from(s: Seq<char>, start: int, k: int) -> Option<Seq<Seq<char>>>
    decreases s.len() - k,
{
    if k < 0 || k >= s.len() {
        Some(seq![trim(s.subrange(start, s.len() as int))])
    } else if is_quote(s[k]) {
        match quote_end(s, k + 1, s[k]) {
            Some(e) => if k < e <= s.len() {
                clauses_from(s, start, e)
            } else {
                None
            },
            None => None,
        }
    } else if clause_ends(s, start, k) {
        match clauses_from(s, k + 3, k + 3) {
            Some(rest) => Some(seq![trim(s.subrange(start, k))] + rest),
            None => None,
        }
    } else {
        clauses_from(s, start, k + 1)
    }
}

/// The clauses of a filter, which `and` joins outside quotes.
pub open spec fn filter_clauses(s: Seq<char>) -> Result<Seq<Seq<char>>, ErrorModel> {
    match clauses_from(s, 0, 0) {
        None => Err(invalid_error("unterminated quote in filter"@)),
        Some(clauses) => if exists|i: int| 0 <= i < clauses.len() && (#[trigger] clauses[i]).len() == 0 {
            Err(invalid_error("empty filter clause"@))
        } else {
            Ok(clauses)
        },
    }
}

fn trimmed_part(s: &[char], from: usize, to: usize) -> (r: String)
    requires
        from <= to <= s@.len(),
    ensures
        r@ == trim(s@.subrange(from as int, to as int)),
{
    let part: String = text_of_range(s, from, to);
    trimmed(part.as_str()).to_owned()
}

fn has_empty_text(v: &Vec<String>) -> (r: bool)
    ensures
        r == exists|i: int| 0 <= i < texts(v@).len() && (#[trigger] texts(v@)[i]).len() == 0,
{
    let mut i: usize = 0;
    while i < v.len()
        invariant
            i <= v@.len(),
            forall|j: int| 0 <= j < i ==> (#[trigger] texts(v@)[j]).len() > 0,
        decreases v@.len() - i,
    {
        if v[i].as_str().unicode_len() == 0 {
            assert(texts(v@)[i as int].len() == 0);
            return true;
        }
        i += 1;
    }
    false
}

/// The clauses of a filter, which `and` joins outside quotes.
pub fn split_filter_clauses(filter: &str) -> (r: Result<Vec<String>, MlflowError>)
    ensures
        outcomes(r) == filter_clauses(filter@),
{
    let s: Vec<char> = chars_of(filter);
    let s: &[char] = s.as_slice();
    let and: Vec<char> = chars_of("and");
    proof {
        reveal_strlit("and");
    }
    // The length fits a machine word, and so do the positions.
    let _n: usize = s.len();
    let mut clauses: Vec<String> = Vec::new();
    let mut start: usize = 0;
    let mut k: usize = 0;
    let ghost whole = clauses_from(s@, 0, 0);
    while k < s.len()
        invariant
            start <= k <= s@.len(),
            s@.len() <= usize::MAX,
            and@ == "and"@,
            and@.len() == 3,
            whole == match clauses_from(s@, start as int, k as int) {
                Some(rest) => Some(texts(clauses@) + rest),
                None => None::<Seq<Seq<char>>>,
            },
            whole == clauses_from(s@, 0, 0),
            s@ == filter@,
        decreases s@.len() - k,
    {
        let c: char = s[k];
        if c == '\'' || c == '"' || c == '`' {
            match quoted_end(s, k + 1, c) {
                Some(e) => {
                    k = e;
                },
                None => {
                    return Err(
                        MlflowError::invalid("unterminated quote in filter".to_owned()),
                    );
                },
            }
            continue;
        }
        if k > start && char_is_ascii_space(s[k - 1]) && s.len() - k > 3 && char_is_ascii_space(
            s[k + 3],
        ) && matches_word_at(s, k, and.as_slice()) {
            let ghost before = texts(clauses@);
            let part: String = trimmed_part(s, start, k);
            clauses.push(part);
            assert(texts(clauses@) =~= before.push(part@));
            k = k + 3;
            start = k;
            proof {
                if let Some(rest) = clauses_from(s@, start as int, k as int) {
                    assert(before + (seq![part@] + rest) =~= texts(clauses@) + rest);
                }
            }
            continue;
        }
        k += 1;
    }
    let ghost before = texts(clauses@);
    let part: String = trimmed_part(s, start, s.len());
    clauses.push(part);
    assert(texts(clauses@) =~= before + seq![part@]);
    assert(texts(clauses@) =~= views(clauses@));
    if has_empty_text(&clauses) {
        return Err(MlflowError::invalid("empty filter clause".to_owned()));
    }
    Ok(clauses)
}

/// The name that a raw identifier stands for, without its quotes.
pub open spec fn decoded_name(raw: Seq<char>) -> Seq<char> {
    if raw.len() >= 2 && raw[0] == '`' && raw.last() == '`' {
        replaced(raw.subrange(1, raw.len() - 1), "``"@, "`"@)
    } else if raw.len() >= 2 && raw[0] == '"' && raw.last() == '"' {
        replaced(raw.subrange(1, raw.len() - 1), "\"\""@, "\""@)
    } else {
        raw
    }
}

/// The name that a raw identifier of a filter stands for.
pub fn filter_identifier(raw: &str) -> (r: String)
    ensures
        r@ == decoded_name(raw@),
{
    let s: Vec<char> = chars_of(raw);
    let n: usize = s.len();
    proof {
        reveal_strlit("``");
        reveal_strlit("\"\"");
    }
    if n >= 2 && s[0] == '`' && s[n - 1] == '`' {
        let inner: String = text_of_range(s.as_slice(), 1, n - 1);
        replaced_text(inner.as_str(), "``", "`")
    } else if n >= 2 && s[0] == '"' && s[n - 1] == '"' {
        let inner: String = text_of_range(s.as_slice(), 1, n - 1);
        replaced_text(inner.as_str(), "\"\"", "\"")
    } else {
        raw.to_owned()
    }
}

/// The text with every `part` replaced.
fn replaced_text(s: &str, part: &str, by: &str) -> (r: String)
    requires
        part@.len() > 0,
    ensures
        r@ == replaced(s@, part@, by@),
{
    let s: Vec<char> = chars_of(s);
    let part: Vec<char> = chars_of(part);
    let by: Vec<char> = chars_of(by);
    let r: Vec<char> = replace_part(s.as_slice(), part.as_slice(), by.as_slice());
    text_of(r.as_slice())
}

/// The text in ASCII capitals.
pub fn upper_case(s: &str) -> (r: String)
    ensures
        r@ == upper_text(s@),
{
    let s: Vec<char> = chars_of(s);
    let mut r: String = String::new();
    let mut i: usize = 0;
    while i < s.len()
        invariant
            i <= s@.len(),
            r@ == upper_text(s@.take(i as int)),
        decreases s@.len() - i,
    {
        r.push(char_upper(s[i]));
        i += 1;
        assert(r@ =~= upper_text(s@.take(i as int)));
    }
    assert(s@.take(i as int) =~= s@);
    r
}

/// The text in ASCII small letters.
pub fn lower_case(s: &str) -> (r: String)
    ensures
        r@ == lower_text(s@),
{
    let s: Vec<char> = chars_of(s);
    let mut r: String = String::new();
    let mut i: usize = 0;
    while i < s.len()
        invariant
            i <= s@.len(),
            r@ == lower_text(s@.take(i as int)),
        decreases s@.len() - i,
    {
        r.push(char_lower(s[i]));
        i += 1;
        assert(r@ =~= lower_text(s@.take(i as int)));
    }
    assert(s@.take(i as int) =~= s@);
    r
}

/// The identifier, the operator and the value of a clause.
#[derive(Debug)]
pub struct FilterParts {
    pub key: String,
    pub op: String,
    pub value: String,
}

pub struct PartsModel {
    pub key: Seq<char>,
    pub op: Seq<char>,
    pub value: Seq<char>,
}

impl View for FilterParts {
    type V = PartsModel;

    open spec fn view(&self) -> PartsModel {
        PartsModel { key: self.key@, op: self.op@, value: self.value@ }
    }
}

/// The regular expression of a clause with a quoted value, or with a bare one.
pub open spec fn clause_regex(string_value: bool) -> Seq<char> {
    if string_value {
        "(?i)^\\s*((?:`(?:``|[^`])+`|\"(?:\"\"|[^\"])+\"|[^\\s!<>=]+))\\s*(!=|=|LIKE)\\s*'((?:''|[^'])*)'\\s*$"@
    } else {
        "(?i)^\\s*((?:`(?:``|[^`])+`|\"(?:\"\"|[^\"])+\"|[^\\s!<>=]+))\\s*(!=|<=|>=|<|>|=)\\s*([^\\s]+)\\s*$"@
    }
}

/// What a group captured.
pub open spec fn group(groups: Seq<Option<Seq<char>>>, i: int) -> Option<Seq<char>> {
    if i < groups.len() {
        groups[i]
    } else {
        None
    }
}

/// The parts of the clause `rest`, from what its regular expression captured.
pub open spec fn parts_from(
    captured: Result<Option<Seq<Option<Seq<char>>>>, Seq<char>>,
    rest: Seq<char>,
) -> Result<PartsModel, ErrorModel> {
    match captured {
        Err(e) => Err(internal_error("invalid built-in filter regex: "@ + e)),
        Ok(None) => Err(invalid_error(around("invalid filter clause '"@, rest, "'"@))),
        Ok(Some(groups)) => match (group(groups, 1), group(groups, 2), group(groups, 3)) {
            (None, _, _) => Err(invalid_error("filter is missing an identifier"@)),
            (Some(_), None, _) => Err(invalid_error("filter is missing an operator"@)),
            (Some(_), Some(_), None) => Err(invalid_error("filter is missing a value"@)),
            (Some(key), Some(op), Some(value)) => Ok(
                PartsModel {
                    key: decoded_name(key),
                    op: upper_text(op),
                    value: replaced(value, "''"@, "'"@),
                },
            ),
        },
    }
}

/// The parts of a clause.
pub open spec fn clause_parts(rest: Seq<char>, string_value: bool) -> Result<
    PartsModel,
    ErrorModel,
> {
    parts_from(regex_captures(clause_regex(string_value), rest), rest)
}

fn group_text<'a>(groups: &'a Vec<Option<String>>, i: usize) -> (r: Option<&'a String>)
    ensures
        (match r {
            Some(t) => Some(t@),
            None => None::<Seq<char>>,
        }) == group(opt_texts(groups@), i as int),
{
    if i < groups.len() {
        assert(opt_texts(groups@)[i as int] == opt_text(groups@[i as int]));
        groups[i].as_ref()
    } else {
        None
    }
}

/// The parts of the clause `rest`, from what its regular expression captured.
pub fn filter_parts(
    captured: Result<Option<Vec<Option<String>>>, String>,
    rest: &str,
) -> (r: Result<FilterParts, MlflowError>)
    ensures
        outcome(r) == parts_from(captures_view(captured), rest@),
{
    proof {
        reveal_strlit("''");
    }
    match captured {
        Err(e) => {
            let mut message: String = "invalid built-in filter regex: ".to_owned();
            message.append(e.as_str());
            Err(MlflowError::internal(message))
        },
        Ok(None) => Err(
            MlflowError::invalid(text_around("invalid filter clause '", rest, "'")),
        ),
        Ok(Some(groups)) => {
            let key: String = match group_text(&groups, 1) {
                Some(key) => filter_identifier(key.as_str()),
                None => {
                    return Err(
                        MlflowError::invalid("filter is missing an identifier".to_owned()),
                    );
                },
            };
            let op: String = match group_text(&groups, 2) {
                Some(op) => upper_case(op.as_str()),
                None => {
                    return Err(MlflowError::invalid("filter is missing an operator".to_owned()));
                },
            };
            let value: String = match group_text(&groups, 3) {
                Some(value) => replaced_text(value.as_str(), "''", "'"),
                None => {
                    return Err(MlflowError::invalid("filter is missing a value".to_owned()));
                },
            };
            Ok(FilterParts { key, op, value })
        },
    }
}

/// Reads a clause: an identifier, an operator and a value.
pub fn parse_filter_parts(rest: &str, string_value: bool) -> (r: Result<FilterParts, MlflowError>)
    ensures
        outcome(r) == clause_parts(rest@, string_value),
{
    let pattern: &str = if string_value {
        "(?i)^\\s*((?:`(?:``|[^`])+`|\"(?:\"\"|[^\"])+\"|[^\\s!<>=]+))\\s*(!=|=|LIKE)\\s*'((?:''|[^'])*)'\\s*$"
    } else {
        "(?i)^\\s*((?:`(?:``|[^`])+`|\"(?:\"\"|[^\"])+\"|[^\\s!<>=]+))\\s*(!=|<=|>=|<|>|=)\\s*([^\\s]+)\\s*$"
    };
    filter_parts(regex_groups(pattern, rest), rest)
}

} // verus!
