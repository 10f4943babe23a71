//! Query vectors in SQL text: literals, column references and expressions.

use vstd::prelude::*;
use crate::sql::clauses::trimmed_range;
use crate::sql::lexical::{lemma_quote_end, quote_end, quoted_end};
use crate::text::ascii::{char_is_alphanumeric, char_is_letter, is_alphanumeric, is_letter};
use crate::text::chars::{chars_of, copied, text_of, text_of_range, texts};
use crate::text::finite::{is_single_text, single_text};
use crate::text::search::{ends_with, find_char, has_part_at, position_of_char};
use crate::text::split::{pieces, split_text};
use crate::text::trim::{trim, trim_char, trim_range, trimmed, without_char_around};

verus! {

/// The vector operand of a query: the texts of a literal's components, each a
/// finite single-precision number, or an expression.
#[derive(Debug)]
pub enum VectorQuery {
    Literal(Vec<String>),
    Expression(String),
}

/// Where a query vector comes from.
#[derive(Debug)]
pub enum VectorSource {
    Literal(Vec<String>),
    ColumnRef { table: String, column: String },
    Expression(String),
}

pub enum VectorSourceModel {
    Literal(Seq<Seq<char>>),
    ColumnRef { table: Seq<char>, column: Seq<char> },
    Expression(Seq<char>),
}

impl View for VectorSource {
    type V = VectorSourceModel;

    open spec fn view(&self) -> VectorSourceModel {
        match self {
            VectorSource::Literal(components) => VectorSourceModel::Literal(texts(components@)),
            VectorSource::ColumnRef { table, column } => VectorSourceModel::ColumnRef {
                table: table@,
                column: column@,
            },
            VectorSource::Expression(text) => VectorSourceModel::Expression(text@),
        }
    }
}

/// Every quoted identifier from position `i` on is closed.
pub open spec fn quotes_closed(s: Seq<char>, i: int) -> bool
    decreases s.len() - i,
{
    if i < 0 || i >= s.len() {
        true
    } else if s[i] == '"' {
        proof {
            lemma_quote_end(s, i + 1, '"');
        }
        match quote_end(s, i + 1, '"') {
            Some(e) => quotes_closed(s, e),
            None => false,
        }
    } else {
        quotes_closed(s, i + 1)
    }
}

/// The first `.` outside quoted identifiers from position `i` on.
pub open spec fn first_dot(s: Seq<char>, i: int) -> Option<int>
    decreases s.len() - i,
{
    if i < 0 || i >= s.len() {
        None
    } else if s[i] == '"' {
        proof {
            lemma_quote_end(s, i + 1, '"');
        }
        match quote_end(s, i + 1, '"') {
            Some(e) => first_dot(s, e),
            None => None,
        }
    } else if s[i] == '.' {
        Some(i)
    } else {
        first_dot(s, i + 1)
    }
}

/// A bare identifier: a letter or `_`, then letters, digits and `_`.
pub open spec fn is_bare_identifier(s: Seq<char>) -> bool {
    &&& s.len() > 0
    &&& is_letter(s[0]) || s[0] == '_'
    &&& forall|i: int| 1 <= i < s.len() ==> is_alphanumeric(#[trigger] s[i]) || s[i] == '_'
}

/// A bare identifier, or a quoted one that is not empty and holds no quote.
pub open spec fn is_identifier_text(part: Seq<char>) -> bool {
    let t = trim(part);
    if t.len() >= 2 && t[0] == '"' && t.last() == '"' {
        t.len() > 2 && find_char(t.subrange(1, t.len() - 1), '"', 0) is None
    } else {
        is_bare_identifier(t)
    }
}

/// A reference of the form `table.column`, split at its first dot.
pub open spec fn qualified_reference(expr: Seq<char>) -> Option<(Seq<char>, Seq<char>)> {
    if !quotes_closed(expr, 0) {
        None
    } else {
        match first_dot(expr, 0) {
            None => None,
            Some(k) => if is_identifier_text(expr.take(k)) && is_identifier_text(
                expr.skip(k + 1),
            ) {
                Some((expr.take(k), expr.skip(k + 1)))
            } else {
                None
            },
        }
    }
}

/// What an expression denotes: a column, where it is a qualified reference.
pub open spec fn source_of_expression(expr: Seq<char>) -> VectorSourceModel {
    let t = trim(expr);
    match qualified_reference(t) {
        Some((table, column)) => VectorSourceModel::ColumnRef {
            table: trim(table),
            column: trim(column),
        },
        None => VectorSourceModel::Expression(t),
    }
}

/// A literal without its cast to a vector.
pub open spec fn without_cast(t: Seq<char>) -> Seq<char> {
    if ends_with(t, "::vector"@) || ends_with(t, "::VECTOR"@) {
        t.take(t.len() - 8)
    } else {
        t
    }
}

/// A literal without its cast and quotes.
pub open spec fn bare_literal(raw: Seq<char>) -> Seq<char> {
    trim(trim_char(trim_char(trim(without_cast(trim(raw))), '\''), '"'))
}

/// The trimmed texts between the commas.
pub open spec fn trimmed_pieces(s: Seq<char>) -> Seq<Seq<char>> {
    let parts = pieces(s, ',');
    Seq::new(parts.len(), |i: int| trim(parts[i]))
}

pub open spec fn all_single(parts: Seq<Seq<char>>) -> bool {
    forall|i: int| 0 <= i < parts.len() ==> is_single_text(#[trigger] parts[i])
}

/// The components of a vector literal: a bracketed, non-empty list of finite
/// single-precision numbers.
pub open spec fn vector_literal_components(raw: Seq<char>) -> Option<Seq<Seq<char>>> {
    let t = bare_literal(raw);
    if t.len() >= 2 && t[0] == '[' && t.last() == ']' {
        let inner = t.subrange(1, t.len() - 1);
        if trim(inner).len() == 0 || !all_single(trimmed_pieces(inner)) {
            None
        } else {
            Some(trimmed_pieces(inner))
        }
    } else {
        None
    }
}

/// What the text of a vector operand denotes.
pub open spec fn source_of_literal(raw: Seq<char>) -> VectorSourceModel {
    match vector_literal_components(raw) {
        Some(components) => VectorSourceModel::Literal(components),
        None => source_of_expression(raw),
    }
}

/// What a vector operand denotes.
pub open spec fn source_of_query(query: VectorQuery) -> VectorSourceModel {
    match query {
        VectorQuery::Literal(components) => VectorSourceModel::Literal(texts(components@)),
        VectorQuery::Expression(text) => source_of_expression(text@),
    }
}

fn has_bare_identifier(s: &[char]) -> (r: bool)
    ensures
        r == is_bare_identifier(s@),
{
    if s.len() == 0 || !(char_is_letter(s[0]) || s[0] == '_') {
        return false;
    }
    let mut i: usize = 1;
    while i < s.len()
        invariant
            1 <= i <= s@.len(),
            is_letter(s@[0]) || s@[0] == '_',
            forall|j: int| 1 <= j < i ==> is_alphanumeric(#[trigger] s@[j]) || s@[j] == '_',
        decreases s@.len() - i,
    {
        if !(char_is_alphanumeric(s[i]) || s[i] == '_') {
            return false;
        }
        i += 1;
    }
    true
}

fn is_identifier(part: &[char]) -> (r: bool)
    ensures
        r == is_identifier_text(part@),
{
    let (from, to) = trim_range(part);
    let t: &[char] = vstd::slice::slice_subrange(part, from, to);
    let n: usize = t.len();
    if n >= 2 && t[0] == '"' && t[n - 1] == '"' {
        let inner: &[char] = vstd::slice::slice_subrange(t, 1, n - 1);
        n > 2 && position_of_char(inner, '"', 0).is_none()
    } else {
        has_bare_identifier(t)
    }
}

/// Splits `table.column` at the first dot outside quotes, where both parts are
/// identifiers.
pub fn split_qualified_reference(expr: &str) -> (r: Option<(String, String)>)
    ensures
        r is Some <==> qualified_reference(expr@) is Some,
        r matches Some((table, column)) ==> qualified_reference(expr@) == Some((table@, column@)),
{
    let s: Vec<char> = chars_of(expr);
    let mut split: Option<usize> = None;
    let mut i: usize = 0;
    while i < s.len()
        invariant
            s@ == expr@,
            i <= s@.len(),
            quotes_closed(expr@, 0) == quotes_closed(expr@, i as int),
            split is None ==> first_dot(expr@, 0) == first_dot(expr@, i as int),
            split is Some ==> first_dot(expr@, 0) == Some(split->0 as int) && split->0 < s@.len(),
        decreases s@.len() - i,
    {
        if s[i] == '"' {
            match quoted_end(s.as_slice(), i + 1, '"') {
                Some(e) => {
                    i = e;
                },
                None => {
                    return None;
                },
            }
        } else {
            if s[i] == '.' && split.is_none() {
                split = Some(i);
            }
            i += 1;
        }
    }
    match split {
        None => None,
        Some(k) => {
            let n: usize = s.len();
            let table: &[char] = vstd::slice::slice_subrange(s.as_slice(), 0, k);
            let column: &[char] = vstd::slice::slice_subrange(s.as_slice(), k + 1, n);
            assert(table@ =~= expr@.take(k as int));
            assert(column@ =~= expr@.skip(k + 1));
            if is_identifier(table) && is_identifier(column) {
                Some((text_of(table), text_of(column)))
            } else {
                None
            }
        },
    }
}

/// What an expression denotes.
pub fn vector_source_from_expression(expr: &str) -> (r: VectorSource)
    ensures
        r@ == source_of_expression(expr@),
{
    let t: &str = trimmed(expr);
    match split_qualified_reference(t) {
        Some((table, column)) => VectorSource::ColumnRef {
            table: trimmed(table.as_str()).to_owned(),
            column: trimmed(column.as_str()).to_owned(),
        },
        None => VectorSource::Expression(t.to_owned()),
    }
}

fn bare_literal_chars(raw: &str) -> (r: Vec<char>)
    ensures
        r@ == bare_literal(raw@),
{
    proof {
        reveal_strlit("::vector");
        reveal_strlit("::VECTOR");
    }
    let t: Vec<char> = chars_of(trimmed(raw));
    let n: usize = t.len();
    let lower_cast: Vec<char> = chars_of("::vector");
    let upper_cast: Vec<char> = chars_of("::VECTOR");
    let end: usize = if n >= 8 && (has_part_at(t.as_slice(), n - 8, lower_cast.as_slice())
        || has_part_at(t.as_slice(), n - 8, upper_cast.as_slice())) {
        n - 8
    } else {
        n
    };
    let core: String = trimmed_range(t.as_slice(), 0, end);
    assert(t@.subrange(0, end as int) =~= without_cast(t@));
    let core: Vec<char> = chars_of(core.as_str());
    let single: Vec<char> = without_char_around(core.as_slice(), '\'');
    let double: Vec<char> = without_char_around(single.as_slice(), '"');
    let n: usize = double.len();
    let bare: String = trimmed_range(double.as_slice(), 0, n);
    assert(double@.subrange(0, n as int) =~= double@);
    chars_of(bare.as_str())
}

/// The component texts of a vector literal, such as `'[1, 2.5]'::vector`.
/// `None` where it is empty, or a component is no finite number.
pub fn parse_vector_literal(raw: &str) -> (r: Option<Vec<String>>)
    ensures
        r is Some <==> vector_literal_components(raw@) is Some,
        r is Some ==> vector_literal_components(raw@) == Some(texts(r->0@)),
{
    let t: Vec<char> = bare_literal_chars(raw);
    let n: usize = t.len();
    if !(n >= 2 && t[0] == '[' && t[n - 1] == ']') {
        return None;
    }
    let inner: String = text_of_range(t.as_slice(), 1, n - 1);
    if trimmed(inner.as_str()).unicode_len() == 0 {
        return None;
    }
    let parts: Vec<String> = split_text(inner.as_str(), ',');
    let ghost models = trimmed_pieces(inner@);
    let mut r: Vec<String> = Vec::new();
    let mut i: usize = 0;
    while i < parts.len()
        invariant
            i <= parts@.len(),
            texts(parts@) == pieces(inner@, ','),
            models == trimmed_pieces(inner@),
            vector_literal_components(raw@) == (if all_single(models) {
                Some(models)
            } else {
                None
            }),
            models.len() == parts@.len(),
            r@.len() == i,
            forall|j: int| 0 <= j < i ==> (#[trigger] r@[j])@ == models[j],
            forall|j: int| 0 <= j < i ==> is_single_text(#[trigger] models[j]),
        decreases parts@.len() - i,
    {
        assert(texts(parts@)[i as int] == parts@[i as int]@);
        let part: &str = trimmed(parts[i].as_str());
        let chars: Vec<char> = chars_of(part);
        assert(models[i as int] == chars@);
        if !single_text(chars.as_slice()) {
            assert(!is_single_text(models[i as int]));
            return None;
        }
        r.push(part.to_owned());
        i += 1;
    }
    assert(texts(r@) =~= models);
    Some(r)
}

/// What the text of a vector operand denotes.
pub fn vector_source_from_literal(raw: &str) -> (r: VectorSource)
    ensures
        r@ == source_of_literal(raw@),
{
    match parse_vector_literal(raw) {
        Some(components) => VectorSource::Literal(components),
        None => vector_source_from_expression(raw),
    }
}

/// What a vector operand denotes.
pub fn vector_source_from_query(query: &VectorQuery) -> (r: VectorSource)
    ensures
        r@ == source_of_query(*query),
{
    match query {
        VectorQuery::Literal(components) => {
            let mut copy: Vec<String> = Vec::new();
            let mut i: usize = 0;
            while i < components.len()
                invariant
                    i <= components@.len(),
                    copy@.len() == i,
                    forall|j: int| 0 <= j < i ==> (#[trigger] copy@[j])@ == components@[j]@,
                decreases components@.len() - i,
            {
                copy.push(copied(&components[i]));
                i += 1;
            }
            assert(texts(copy@) =~= texts(components@));
            VectorSource::Literal(copy)
        },
        VectorQuery::Expression(text) => vector_source_from_expression(text.as_str()),
    }
}

} // verus!
