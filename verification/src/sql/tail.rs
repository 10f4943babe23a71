//! The clauses at the end of a `SELECT` statement: bounds, order and a simple
//! predicate.

use vstd::prelude::*;
use vstd::string::*;
use crate::sql::clauses::{
    clause_end, end_of_clause, find_keyword, find_operator, is_literal_quote, keyword_position,
    list_items, position_outside, split_top_level_list, trimmed_range,
};
use crate::sql::cypher::str_texts;
use crate::sql::select::{OrderByClause, OrderByModel};
use crate::text::ascii::{ends_with_ci, eq_ci, matches_word_at};
use crate::text::chars::{chars_of, lemma_views_push, text_of, text_of_range, texts, views};
use crate::text::float::{equal_ci, float_text, is_float_text};
use crate::text::number::{parse_signed, parse_unsigned, read_signed, read_unsigned};
use crate::text::search::{find_char_back, last_position_of_char, replace_part, replaced};
use crate::text::tokens::{end_of_token, token_end};
use crate::text::trim::{skip_space, space_run_end, trim, trimmed};

verus! {

/// The first token between white space.
pub open spec fn first_token(s: Seq<char>) -> Seq<char> {
    let from = space_run_end(s, 0);
    s.subrange(from, token_end(s, from))
}

fn first_token_chars(s: &[char]) -> (r: Vec<char>)
    ensures
        r@ == first_token(s@),
{
    let from: usize = skip_space(s, 0);
    let k: usize = end_of_token(s, from);
    let token: String = text_of_range(s, from, k);
    chars_of(token.as_str())
}

/// The number behind a keyword, up to the first of `ends`.
pub open spec fn number_behind(
    sql: Seq<char>,
    keyword: Seq<char>,
    ends: Seq<Seq<char>>,
) -> Option<nat> {
    match find_keyword(sql, keyword, 0) {
        None => None,
        Some(k) => {
            let from = k + keyword.len();
            parse_unsigned(
                first_token(sql.subrange(from, clause_end(sql, from, ends))),
                usize::MAX as nat,
            )
        },
    }
}

fn number_after(s: &[char], keyword: &str, ends: &[&str]) -> (r: Option<usize>)
    ensures
        r is Some <==> number_behind(s@, keyword@, str_texts(ends@)) is Some,
        r is Some ==> number_behind(s@, keyword@, str_texts(ends@)) == Some(r->0 as nat),
{
    match keyword_position(s, keyword, 0) {
        None => None,
        Some(k) => {
            let word: Vec<char> = chars_of(keyword);
            // The length fits a machine word, and so do the positions.
            let _n: usize = s.len();
            let from: usize = k + word.len();
            let end: usize = end_of_clause(s, from, ends);
            let clause: &[char] = vstd::slice::slice_subrange(s, from, end);
            let token: Vec<char> = first_token_chars(clause);
            match read_unsigned(token.as_slice(), usize::MAX as u64) {
                Some(value) => Some(value as usize),
                None => None,
            }
        },
    }
}

/// The number of rows that a statement asks for.
pub open spec fn limit_of(sql: Seq<char>) -> Option<nat> {
    number_behind(sql, "LIMIT"@, seq!["OFFSET"@, ";"@])
}

/// The number of rows that a statement passes over; a missing or unreadable one
/// is 0.
pub open spec fn offset_of(sql: Seq<char>) -> nat {
    match number_behind(sql, "OFFSET"@, seq!["LIMIT"@, ";"@]) {
        Some(n) => n,
        None => 0,
    }
}

/// The values of `LIMIT` and `OFFSET`; a missing or unreadable offset is 0.
pub fn extract_limit_offset(sql: &str) -> (r: (Option<usize>, usize))
    ensures
        r.0 is Some <==> limit_of(sql@) is Some,
        r.0 is Some ==> limit_of(sql@) == Some(r.0->0 as nat),
        r.1 == offset_of(sql@),
{
    let s: Vec<char> = chars_of(sql);
    let limit_ends: [&'static str; 2] = ["OFFSET", ";"];
    assert(str_texts(limit_ends@) =~= seq!["OFFSET"@, ";"@]);
    let limit: Option<usize> = number_after(s.as_slice(), "LIMIT", &limit_ends);
    let offset_ends: [&'static str; 2] = ["LIMIT", ";"];
    assert(str_texts(offset_ends@) =~= seq!["LIMIT"@, ";"@]);
    let offset: usize = match number_after(s.as_slice(), "OFFSET", &offset_ends) {
        Some(n) => n,
        None => 0,
    };
    (limit, offset)
}

/// The entry without `NULLS FIRST` or `NULLS LAST` at its end.
pub open spec fn without_nulls(entry: Seq<char>) -> Seq<char> {
    if ends_with_ci(entry, " NULLS FIRST"@) {
        trim(entry.take(entry.len() - 12))
    } else if ends_with_ci(entry, " NULLS LAST"@) {
        trim(entry.take(entry.len() - 11))
    } else {
        trim(entry)
    }
}

/// The entry's column, without a direction at its end.
pub open spec fn order_column(key: Seq<char>) -> Seq<char> {
    if ends_with_ci(key, " ASC"@) || ends_with_ci(key, " DESC"@) {
        match find_char_back(key, ' ', key.len() as int) {
            Some(k) => trim(key.take(k)),
            None => trim(key),
        }
    } else {
        key
    }
}

/// One entry of `ORDER BY`. Nulls come first by default where the order is
/// descending.
pub open spec fn order_entry(entry: Seq<char>) -> OrderByModel {
    let key = without_nulls(entry);
    let ascending = !ends_with_ci(key, " DESC"@);
    OrderByModel {
        column: order_column(key),
        ascending,
        nulls_first: if ends_with_ci(entry, " NULLS FIRST"@) {
            true
        } else if ends_with_ci(entry, " NULLS LAST"@) {
            false
        } else {
            !ascending
        },
    }
}

/// The entries that name a column.
pub open spec fn order_entries(entries: Seq<Seq<char>>) -> Seq<OrderByModel>
    decreases entries.len(),
{
    if entries.len() == 0 {
        Seq::empty()
    } else {
        let earlier = order_entries(entries.drop_last());
        let last = order_entry(entries.last());
        if last.column.len() == 0 {
            earlier
        } else {
            earlier.push(last)
        }
    }
}

/// The sort order of a statement.
pub open spec fn order_by(sql: Seq<char>) -> Seq<OrderByModel> {
    match find_keyword(sql, "ORDER BY"@, 0) {
        None => Seq::empty(),
        Some(k) => order_entries(
            list_items(
                trim(
                    sql.subrange(
                        k + 8,
                        clause_end(sql, k + 8, seq!["LIMIT"@, "OFFSET"@, ";"@]),
                    ),
                ),
            ),
        ),
    }
}

/// Whether `s` ends with `word`, up to ASCII case.
pub fn tail_is(s: &[char], word: &str) -> (r: bool)
    ensures
        r == ends_with_ci(s@, word@),
{
    let w: Vec<char> = chars_of(word);
    s.len() >= w.len() && matches_word_at(s, s.len() - w.len(), w.as_slice())
}

fn to_order_entry(entry: &str) -> (r: OrderByClause)
    ensures
        r@ == order_entry(entry@),
{
    proof {
        reveal_strlit(" NULLS FIRST");
        reveal_strlit(" NULLS LAST");
    }
    let s: Vec<char> = chars_of(entry);
    let n: usize = s.len();
    let first: bool = tail_is(s.as_slice(), " NULLS FIRST");
    let last: bool = tail_is(s.as_slice(), " NULLS LAST");
    let kept: usize = if first {
        n - 12
    } else if last {
        n - 11
    } else {
        n
    };
    let key: String = trimmed_range(s.as_slice(), 0, kept);
    assert(s@.subrange(0, kept as int) =~= entry@.take(kept as int));
    assert(entry@.take(n as int) =~= entry@);
    let key: Vec<char> = chars_of(key.as_str());
    let ascending: bool = !tail_is(key.as_slice(), " DESC");
    let column: String = if tail_is(key.as_slice(), " ASC") || !ascending {
        let m: usize = match last_position_of_char(key.as_slice(), ' ') {
            Some(k) => k,
            None => key.len(),
        };
        assert(key@.subrange(0, m as int) =~= key@.take(m as int));
        assert(key@.take(key@.len() as int) =~= key@);
        trimmed_range(key.as_slice(), 0, m)
    } else {
        text_of(key.as_slice())
    };
    let nulls_first: bool = if first {
        true
    } else if last {
        false
    } else {
        !ascending
    };
    OrderByClause { column, ascending, nulls_first }
}

/// The sort order of a statement.
pub fn extract_order_by(sql: &str) -> (r: Vec<OrderByClause>)
    ensures
        views(r@) == order_by(sql@),
{
    proof {
        reveal_strlit("ORDER BY");
    }
    let s: Vec<char> = chars_of(sql);
    let mut r: Vec<OrderByClause> = Vec::new();
    match keyword_position(s.as_slice(), "ORDER BY", 0) {
        None => {
            assert(views(r@) =~= order_by(sql@));
        },
        Some(k) => {
            // The length fits a machine word, and so do the positions.
            let _n: usize = s.len();
            let ends: [&'static str; 3] = ["LIMIT", "OFFSET", ";"];
            assert(str_texts(ends@) =~= seq!["LIMIT"@, "OFFSET"@, ";"@]);
            let end: usize = end_of_clause(s.as_slice(), k + 8, &ends);
            let clause: String = trimmed_range(s.as_slice(), k + 8, end);
            let entries: Vec<String> = split_top_level_list(clause.as_str());
            let ghost models = texts(entries@);
            let mut i: usize = 0;
            assert(models.take(0) =~= Seq::<Seq<char>>::empty());
            assert(views(r@) =~= order_entries(models.take(0)));
            while i < entries.len()
                invariant
                    i <= entries@.len(),
                    models == texts(entries@),
                    views(r@) == order_entries(models.take(i as int)),
                decreases entries@.len() - i,
            {
                assert(models.take(i + 1).drop_last() =~= models.take(i as int));
                assert(models.take(i + 1).last() == entries@[i as int]@);
                let entry: OrderByClause = to_order_entry(entries[i].as_str());
                if entry.column.as_str().unicode_len() > 0 {
                    proof {
                        lemma_views_push(r@, entry);
                    }
                    r.push(entry);
                }
                i += 1;
            }
            assert(models.take(models.len() as int) =~= models);
        },
    }
    r
}

#[derive(Clone, Copy, Debug, PartialEq, Eq, Structural)]
pub enum PredicateOp {
    Eq,
    Ne,
    Gt,
    Ge,
    Lt,
    Le,
    Like,
    IsNull,
    IsNotNull,
}

/// The value that a predicate compares with. A floating-point number is kept
/// as the text that denotes it.
#[derive(Debug)]
pub enum PredicateValue {
    Null,
    Bool(bool),
    Int(i64),
    Float(String),
    String(String),
}

pub enum PredicateValueModel {
    Null,
    Bool(bool),
    Int(int),
    Float(Seq<char>),
    Text(Seq<char>),
}

impl View for PredicateValue {
    type V = PredicateValueModel;

    open spec fn view(&self) -> PredicateValueModel {
        match self {
            PredicateValue::Null => PredicateValueModel::Null,
            PredicateValue::Bool(b) => PredicateValueModel::Bool(*b),
            PredicateValue::Int(n) => PredicateValueModel::Int(*n as int),
            PredicateValue::Float(t) => PredicateValueModel::Float(t@),
            PredicateValue::String(t) => PredicateValueModel::Text(t@),
        }
    }
}

/// A comparison of a column with a value.
#[derive(Debug)]
pub struct Predicate {
    pub column: String,
    pub op: PredicateOp,
    pub value: PredicateValue,
}

pub struct PredicateModel {
    pub column: Seq<char>,
    pub op: PredicateOp,
    pub value: PredicateValueModel,
}

impl View for Predicate {
    type V = PredicateModel;

    open spec fn view(&self) -> PredicateModel {
        PredicateModel { column: self.column@, op: self.op, value: self.value@ }
    }
}

/// A text in a matched pair of quotes.
pub open spec fn is_quoted_literal(s: Seq<char>) -> bool {
    s.len() >= 2 && is_literal_quote(s[0]) && s.last() == s[0]
}

/// The value of a literal: `NULL`, a boolean, a quoted text with its doubled
/// quotes collapsed, an integer, or a floating-point number.
pub open spec fn predicate_value(raw: Seq<char>) -> Option<PredicateValueModel> {
    let t = trim(raw);
    if eq_ci(t, "NULL"@) {
        Some(PredicateValueModel::Null)
    } else if eq_ci(t, "TRUE"@) {
        Some(PredicateValueModel::Bool(true))
    } else if eq_ci(t, "FALSE"@) {
        Some(PredicateValueModel::Bool(false))
    } else if is_quoted_literal(t) {
        Some(
            PredicateValueModel::Text(
                replaced(t.subrange(1, t.len() - 1), seq![t[0], t[0]], seq![t[0]]),
            ),
        )
    } else {
        match parse_signed(t) {
            Some(n) => Some(PredicateValueModel::Int(n)),
            None => if is_float_text(t) {
                Some(PredicateValueModel::Float(t))
            } else {
                None
            },
        }
    }
}

pub open spec fn opt_predicate_value(v: Option<PredicateValue>) -> Option<PredicateValueModel> {
    match v {
        Some(x) => Some(x@),
        None => None,
    }
}

/// Reads a literal.
pub fn parse_predicate_value(raw: &str) -> (r: Option<PredicateValue>)
    ensures
        opt_predicate_value(r) == predicate_value(raw@),
{
    let text: &str = trimmed(raw);
    let t: Vec<char> = chars_of(text);
    if equal_ci(t.as_slice(), "NULL") {
        return Some(PredicateValue::Null);
    }
    if equal_ci(t.as_slice(), "TRUE") {
        return Some(PredicateValue::Bool(true));
    }
    if equal_ci(t.as_slice(), "FALSE") {
        return Some(PredicateValue::Bool(false));
    }
    let n: usize = t.len();
    if n >= 2 && (t[0] == '\'' || t[0] == '"') && t[n - 1] == t[0] {
        let inner: &[char] = vstd::slice::slice_subrange(t.as_slice(), 1, n - 1);
        let doubled: Vec<char> = vec![t[0], t[0]];
        let single: Vec<char> = vec![t[0]];
        assert(doubled@ =~= seq![t@[0], t@[0]]);
        assert(single@ =~= seq![t@[0]]);
        let decoded: Vec<char> = replace_part(inner, doubled.as_slice(), single.as_slice());
        return Some(PredicateValue::String(text_of(decoded.as_slice())));
    }
    match read_signed(t.as_slice()) {
        Some(value) => Some(PredicateValue::Int(value)),
        None => if float_text(t.as_slice()) {
            Some(PredicateValue::Float(text.to_owned()))
        } else {
            None
        },
    }
}

/// The text of the `WHERE` clause.
pub open spec fn where_clause(sql: Seq<char>) -> Option<Seq<char>> {
    match find_keyword(sql, "WHERE"@, 0) {
        None => None,
        Some(k) => Some(
            trim(
                sql.subrange(
                    k + 5,
                    clause_end(
                        sql,
                        k + 5,
                        seq!["ORDER BY"@, "GROUP BY"@, "LIMIT"@, "OFFSET"@, "HAVING"@, ";"@],
                    ),
                ),
            ),
        ),
    }
}

/// The comparison operators, in the order in which they are looked for.
pub open spec fn comparison_operators() -> Seq<(Seq<char>, PredicateOp)> {
    seq![
        ("!="@, PredicateOp::Ne),
        ("<>"@, PredicateOp::Ne),
        (">="@, PredicateOp::Ge),
        ("<="@, PredicateOp::Le),
        ("="@, PredicateOp::Eq),
        (">"@, PredicateOp::Gt),
        ("<"@, PredicateOp::Lt),
    ]
}

/// The predicate around an operator at position `k` of the given length.
pub open spec fn predicate_around(
    clause: Seq<char>,
    k: int,
    len: int,
    op: PredicateOp,
) -> Option<PredicateModel> {
    match predicate_value(trim(clause.skip(k + len))) {
        Some(value) => Some(PredicateModel { column: trim(clause.take(k)), op, value }),
        None => None,
    }
}

/// The predicate of the first of the operators from index `from` on that
/// occurs in the clause.
pub open spec fn comparison_from(clause: Seq<char>, from: int) -> Option<PredicateModel>
    decreases comparison_operators().len() - from,
{
    if from < 0 || from >= comparison_operators().len() {
        None
    } else {
        let (op, predicate_op) = comparison_operators()[from];
        match find_operator(clause, op) {
            Some(k) => predicate_around(clause, k, op.len() as int, predicate_op),
            None => comparison_from(clause, from + 1),
        }
    }
}

/// The predicate that a clause consists of.
pub open spec fn clause_predicate(clause: Seq<char>) -> Option<PredicateModel> {
    if clause.len() == 0 || find_keyword(clause, "AND"@, 0) is Some || find_keyword(
        clause,
        "OR"@,
        0,
    ) is Some {
        None
    } else if ends_with_ci(clause, " IS NOT NULL"@) {
        Some(
            PredicateModel {
                column: trim(clause.take(clause.len() - 12)),
                op: PredicateOp::IsNotNull,
                value: PredicateValueModel::Null,
            },
        )
    } else if ends_with_ci(clause, " IS NULL"@) {
        Some(
            PredicateModel {
                column: trim(clause.take(clause.len() - 8)),
                op: PredicateOp::IsNull,
                value: PredicateValueModel::Null,
            },
        )
    } else {
        match find_keyword(clause, "LIKE"@, 0) {
            Some(k) => predicate_around(clause, k, 4, PredicateOp::Like),
            None => comparison_from(clause, 0),
        }
    }
}

/// The predicate of a statement whose `WHERE` clause is one comparison.
pub open spec fn where_predicate(sql: Seq<char>) -> Option<PredicateModel> {
    match where_clause(sql) {
        None => None,
        Some(clause) => clause_predicate(clause),
    }
}

pub open spec fn opt_predicate(p: Option<Predicate>) -> Option<PredicateModel> {
    match p {
        Some(x) => Some(x@),
        None => None,
    }
}

fn split_at_operator(clause: &[char], k: usize, len: usize, op: PredicateOp) -> (r: Option<
    Predicate,
>)
    requires
        k + len <= clause@.len(),
    ensures
        opt_predicate(r) == predicate_around(clause@, k as int, len as int, op),
{
    let n: usize = clause.len();
    let raw: String = trimmed_range(clause, k + len, n);
    assert(clause@.subrange(k + len, n as int) =~= clause@.skip(k + len));
    let column: String = trimmed_range(clause, 0, k);
    assert(clause@.subrange(0, k as int) =~= clause@.take(k as int));
    match parse_predicate_value(raw.as_str()) {
        Some(value) => Some(Predicate { column, op, value }),
        None => None,
    }
}

fn null_test(clause: &[char], len: usize, op: PredicateOp) -> (r: Predicate)
    requires
        len <= clause@.len(),
    ensures
        r@ == (PredicateModel {
            column: trim(clause@.take(clause@.len() - len)),
            op,
            value: PredicateValueModel::Null,
        }),
{
    let end: usize = clause.len() - len;
    assert(clause@.subrange(0, end as int) =~= clause@.take(end as int));
    Predicate { column: trimmed_range(clause, 0, end), op, value: PredicateValue::Null }
}

/// The comparison operators, in the order in which they are looked for.
fn operators() -> (r: Vec<(&'static str, PredicateOp)>)
    ensures
        r@.len() == comparison_operators().len(),
        forall|i: int|
            0 <= i < r@.len() ==> (#[trigger] r@[i]).0@ == comparison_operators()[i].0 && r@[i].1
                == comparison_operators()[i].1,
{
    vec![
        ("!=", PredicateOp::Ne),
        ("<>", PredicateOp::Ne),
        (">=", PredicateOp::Ge),
        ("<=", PredicateOp::Le),
        ("=", PredicateOp::Eq),
        (">", PredicateOp::Gt),
        ("<", PredicateOp::Lt),
    ]
}

fn comparison_of(clause: &[char]) -> (r: Option<Predicate>)
    ensures
        opt_predicate(r) == comparison_from(clause@, 0),
{
    let ops: Vec<(&'static str, PredicateOp)> = operators();
    let mut i: usize = 0;
    while i < ops.len()
        invariant
            i <= ops@.len(),
            ops@.len() == comparison_operators().len(),
            forall|j: int|
                0 <= j < ops@.len() ==> (#[trigger] ops@[j]).0@ == comparison_operators()[j].0
                    && ops@[j].1 == comparison_operators()[j].1,
            comparison_from(clause@, 0) == comparison_from(clause@, i as int),
        decreases ops@.len() - i,
    {
        let op: Vec<char> = chars_of(ops[i].0);
        assert(ops@[i as int].0@ == comparison_operators()[i as int].0);
        if let Some(k) = position_outside(clause, op.as_slice(), 0, false) {
            return split_at_operator(clause, k, op.len(), ops[i].1);
        }
        i += 1;
    }
    None
}

/// The predicate of a statement whose `WHERE` clause is one comparison, null
/// test or `LIKE`.
pub fn extract_where_predicate(sql: &str) -> (r: Option<Predicate>)
    ensures
        opt_predicate(r) == where_predicate(sql@),
{
    proof {
        reveal_strlit("WHERE");
        reveal_strlit(" IS NOT NULL");
        reveal_strlit(" IS NULL");
        reveal_strlit("LIKE");
    }
    let s: Vec<char> = chars_of(sql);
    let k: usize = match keyword_position(s.as_slice(), "WHERE", 0) {
        None => {
            return None;
        },
        Some(k) => k,
    };
    // The length fits a machine word, and so do the positions.
    let _n: usize = s.len();
    let ends: [&'static str; 6] = ["ORDER BY", "GROUP BY", "LIMIT", "OFFSET", "HAVING", ";"];
    assert(str_texts(ends@) =~= seq![
        "ORDER BY"@,
        "GROUP BY"@,
        "LIMIT"@,
        "OFFSET"@,
        "HAVING"@,
        ";"@,
    ]);
    let end: usize = end_of_clause(s.as_slice(), k + 5, &ends);
    let clause: String = trimmed_range(s.as_slice(), k + 5, end);
    let clause: Vec<char> = chars_of(clause.as_str());
    if clause.len() == 0 || keyword_position(clause.as_slice(), "AND", 0).is_some()
        || keyword_position(clause.as_slice(), "OR", 0).is_some() {
        return None;
    }
    if tail_is(clause.as_slice(), " IS NOT NULL") {
        return Some(null_test(clause.as_slice(), 12, PredicateOp::IsNotNull));
    }
    if tail_is(clause.as_slice(), " IS NULL") {
        return Some(null_test(clause.as_slice(), 8, PredicateOp::IsNull));
    }
    match keyword_position(clause.as_slice(), "LIKE", 0) {
        Some(at) => split_at_operator(clause.as_slice(), at, 4, PredicateOp::Like),
        None => comparison_of(clause.as_slice()),
    }
}

} // verus!
