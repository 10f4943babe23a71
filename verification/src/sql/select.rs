//! The parts of a `SELECT` statement: items, aggregates, order, bounds and
//! simple predicates.

use vstd::prelude::*;
use vstd::string::*;
use crate::sql::clauses::{
    clause_end, depth_behind, end_of_clause, find_keyword, is_literal_quote, items_of_list,
    keyword_position, lemma_find_keyword, list_items, split_top_level_list, trimmed_range,
};
use crate::sql::cypher::str_texts;
use crate::sql::lexical::{lemma_quote_end, quote_end, quoted_end, same_position};
use crate::text::ascii::{matches_word_at, upper_text, word_at};
use crate::text::chars::{
    chars_of, copied, opt_text, same_text, text_of, text_of_range, texts, views,
};
use crate::text::search::{find_char, position_of_char};
use crate::text::trim::{char_is_space, is_space, skip_space, trim, trim_start, trimmed};

verus! {

/// A projected expression.
#[derive(Debug)]
pub struct SelectItem {
    pub expression: String,
    pub alias: Option<String>,
}

pub struct SelectItemModel {
    pub expression: Seq<char>,
    pub alias: Option<Seq<char>>,
}

impl View for SelectItem {
    type V = SelectItemModel;

    open spec fn view(&self) -> SelectItemModel {
        SelectItemModel { expression: self.expression@, alias: opt_text(self.alias) }
    }
}

#[derive(Clone, Copy, Debug, PartialEq, Eq, Structural)]
pub enum AggregateFunction {
    Count,
    CountDistinct,
    Sum,
    Avg,
    Min,
    Max,
}

/// An aggregate of a column, or of whole rows.
#[derive(Debug)]
pub struct AggregateExpr {
    pub function: AggregateFunction,
    pub column: Option<String>,
    pub alias: String,
}

pub struct AggregateModel {
    pub function: AggregateFunction,
    pub column: Option<Seq<char>>,
    pub alias: Seq<char>,
}

impl View for AggregateExpr {
    type V = AggregateModel;

    open spec fn view(&self) -> AggregateModel {
        AggregateModel {
            function: self.function,
            column: opt_text(self.column),
            alias: self.alias@,
        }
    }
}

/// One key of the sort order.
#[derive(Debug)]
pub struct OrderByClause {
    pub column: String,
    pub ascending: bool,
    pub nulls_first: bool,
}

pub struct OrderByModel {
    pub column: Seq<char>,
    pub ascending: bool,
    pub nulls_first: bool,
}

impl View for OrderByClause {
    type V = OrderByModel;

    open spec fn view(&self) -> OrderByModel {
        OrderByModel {
            column: self.column@,
            ascending: self.ascending,
            nulls_first: self.nulls_first,
        }
    }
}

/// The keywords that a whole statement's `SELECT` list stands between.
pub open spec fn select_list(sql: Seq<char>) -> Option<Seq<char>> {
    match find_keyword(sql, "SELECT"@, 0) {
        None => None,
        Some(select) => match find_keyword(sql, "FROM"@, select + 6) {
            None => None,
            Some(from) => Some(sql.subrange(select + 6, from)),
        },
    }
}

/// The position behind the parenthesis that closes the last of `depth` open
/// ones, read from position `i` on; quoted segments are passed over. `None`
/// where one stays open.
pub open spec fn closing_end(s: Seq<char>, i: int, depth: nat) -> Option<int>
    decreases s.len() - i,
{
    if depth == 0 {
        Some(i)
    } else if i < 0 || i >= s.len() {
        None
    } else if is_literal_quote(s[i]) {
        proof {
            lemma_quote_end(s, i + 1, s[i]);
        }
        match quote_end(s, i + 1, s[i]) {
            Some(e) => closing_end(s, e, depth),
            None => None,
        }
    } else {
        closing_end(s, i + 1, depth_behind(s[i], depth))
    }
}

/// Parentheses with something between them wrap the whole text.
pub open spec fn is_wrapped(s: Seq<char>) -> bool {
    s.len() > 2 && s[0] == '(' && closing_end(s, 1, 1) == Some(s.len() as int)
}

fn wrapped(s: &[char]) -> (r: bool)
    ensures
        r == is_wrapped(s@),
{
    let n: usize = s.len();
    if n <= 2 || s[0] != '(' {
        return false;
    }
    let mut i: usize = 1;
    let mut depth: usize = 1;
    while i < n && depth > 0
        invariant
            n == s@.len(),
            1 <= i <= n,
            depth <= i,
            closing_end(s@, 1, 1) == closing_end(s@, i as int, depth as nat),
        decreases n - i,
    {
        let c: char = s[i];
        if c == '\'' || c == '"' {
            match quoted_end(s, i + 1, c) {
                Some(e) => {
                    i = e;
                },
                None => {
                    return false;
                },
            }
        } else {
            if c == '(' {
                depth += 1;
            } else if c == ')' {
                depth -= 1;
            }
            i += 1;
        }
    }
    depth == 0 && i == n
}

/// What stands behind `DISTINCT`: the operand behind white space, or the
/// content of the parentheses that wrap the whole operand. `None` where the
/// text does not begin with the keyword as a word of its own, or nothing stands
/// behind it.
pub open spec fn behind_distinct(clause: Seq<char>) -> Option<Seq<char>> {
    if !word_at(clause, 0, "DISTINCT"@) {
        None
    } else {
        let rest = clause.skip(8);
        let operand = trim_start(rest);
        if is_wrapped(operand) {
            Some(trim(operand.subrange(1, operand.len() - 1)))
        } else if operand.len() > 0 && is_space(rest[0]) {
            Some(operand)
        } else {
            None
        }
    }
}

fn strip_distinct_prefix(clause: &[char]) -> (r: Option<String>)
    ensures
        opt_text(r) == behind_distinct(clause@),
{
    proof {
        reveal_strlit("DISTINCT");
    }
    let keyword: Vec<char> = chars_of("DISTINCT");
    if !matches_word_at(clause, 0, keyword.as_slice()) {
        return None;
    }
    let n: usize = clause.len();
    let rest: &[char] = vstd::slice::slice_subrange(clause, 8, n);
    assert(rest@ =~= clause@.skip(8));
    let from: usize = skip_space(rest, 0);
    let m: usize = rest.len();
    let operand: &[char] = vstd::slice::slice_subrange(rest, from, m);
    assert(operand@ =~= trim_start(rest@));
    let k: usize = operand.len();
    if wrapped(operand) {
        return Some(trimmed_range(operand, 1, k - 1));
    }
    if k > 0 && char_is_space(rest[0]) {
        Some(text_of(operand))
    } else {
        None
    }
}

/// The characters of the `SELECT` list.
fn select_list_chars(sql: &str) -> (r: Option<Vec<char>>)
    ensures
        r is Some <==> select_list(sql@) is Some,
        r is Some ==> select_list(sql@) == Some(r->0@),
{
    proof {
        reveal_strlit("SELECT");
    }
    let s: Vec<char> = chars_of(sql);
    match keyword_position(s.as_slice(), "SELECT", 0) {
        None => None,
        Some(select) => {
            // The length fits a machine word, and so do the positions.
            let _n: usize = s.len();
            match keyword_position(s.as_slice(), "FROM", select + 6) {
                None => None,
                Some(from) => {
                    let list: String = text_of_range(s.as_slice(), select + 6, from);
                    Some(chars_of(list.as_str()))
                },
            }
        },
    }
}

/// Whether the statement's `SELECT` list begins with `DISTINCT`.
pub fn select_has_distinct(sql: &str) -> (r: bool)
    ensures
        r == (select_list(sql@) matches Some(list) && behind_distinct(trim_start(list)) is Some),
{
    match select_list_chars(sql) {
        None => false,
        Some(list) => {
            let from: usize = skip_space(list.as_slice(), 0);
            let clause: &[char] = vstd::slice::slice_subrange(list.as_slice(), from, list.len());
            assert(clause@ =~= trim_start(list@));
            strip_distinct_prefix(clause).is_some()
        },
    }
}

/// The last `AS` from position `from` on.
pub open spec fn last_as(item: Seq<char>, from: int) -> Option<int>
    decreases item.len() - from,
{
    match find_keyword(item, "AS"@, from) {
        None => None,
        Some(k) => {
            proof {
                lemma_find_keyword(item, "AS"@, from);
                reveal_strlit("AS");
            }
            match last_as(item, k + 2) {
                Some(later) => Some(later),
                None => Some(k),
            }
        },
    }
}

/// A projected item: the expression, and the alias behind its last `AS`.
pub open spec fn select_item(item: Seq<char>) -> SelectItemModel {
    match last_as(item, 0) {
        Some(k) => SelectItemModel {
            expression: trim(item.take(k)),
            alias: Some(trim(item.skip(k + 2))),
        },
        None => SelectItemModel { expression: trim(item), alias: None },
    }
}

/// The list without its `DISTINCT`.
pub open spec fn undistinct(list: Seq<char>) -> Seq<char> {
    let clause = trim(list);
    match behind_distinct(clause) {
        Some(rest) => rest,
        None => clause,
    }
}

/// The items of the `SELECT` list.
pub open spec fn select_items(sql: Seq<char>) -> Seq<SelectItemModel> {
    match select_list(sql) {
        None => Seq::empty(),
        Some(list) => {
            let items = list_items(undistinct(list));
            Seq::new(items.len(), |i: int| select_item(items[i]))
        },
    }
}

/// The expressions of the items.
pub open spec fn select_expressions(sql: Seq<char>) -> Seq<Seq<char>> {
    let items = select_items(sql);
    Seq::new(items.len(), |i: int| items[i].expression)
}

fn last_as_position(item: &[char]) -> (r: Option<usize>)
    ensures
        same_position(r, last_as(item@, 0)),
        r is Some ==> r->0 + 2 <= item@.len(),
{
    proof {
        reveal_strlit("AS");
    }
    // The length fits a machine word, and so do the positions.
    let _n: usize = item.len();
    let mut last: Option<usize> = None;
    let mut from: usize = 0;
    loop
        invariant
            from <= item@.len(),
            item@.len() <= usize::MAX,
            "AS"@.len() == 2,
            last is Some ==> last->0 + 2 <= item@.len(),
            last is None ==> last_as(item@, 0) == last_as(item@, from as int),
            last is Some ==> last_as(item@, 0) == (match last_as(item@, from as int) {
                Some(later) => Some(later),
                None => Some(last->0 as int),
            }),
        decreases item@.len() - from,
    {
        match keyword_position(item, "AS", from) {
            None => {
                return last;
            },
            Some(k) => {
                last = Some(k);
                from = k + 2;
            },
        }
    }
}

fn to_select_item(item: &String) -> (r: SelectItem)
    ensures
        r@ == select_item(item@),
{
    let s: Vec<char> = chars_of(item.as_str());
    let n: usize = s.len();
    match last_as_position(s.as_slice()) {
        Some(k) => {
            assert(s@.subrange(0, k as int) =~= item@.take(k as int));
            assert(s@.subrange(k + 2, n as int) =~= item@.skip(k + 2));
            SelectItem {
                expression: trimmed_range(s.as_slice(), 0, k),
                alias: Some(trimmed_range(s.as_slice(), k + 2, n)),
            }
        },
        None => {
            assert(s@.subrange(0, n as int) =~= item@);
            SelectItem { expression: trimmed_range(s.as_slice(), 0, n), alias: None }
        },
    }
}

/// The items of the `SELECT` list, without its `DISTINCT`.
pub fn extract_select_items(sql: &str) -> (r: Vec<SelectItem>)
    ensures
        views(r@) == select_items(sql@),
{
    let mut r: Vec<SelectItem> = Vec::new();
    match select_list_chars(sql) {
        None => {
            assert(views(r@) =~= select_items(sql@));
            r
        },
        Some(list) => {
            let n: usize = list.len();
            let clause: String = trimmed_range(list.as_slice(), 0, n);
            assert(list@.subrange(0, n as int) =~= list@);
            let clause: Vec<char> = chars_of(clause.as_str());
            let items: Vec<String> = match strip_distinct_prefix(clause.as_slice()) {
                Some(rest) => split_top_level_list(rest.as_str()),
                None => items_of_list(clause.as_slice()),
            };
            let ghost models = list_items(undistinct(list@));
            assert(texts(items@) == models);
            let mut i: usize = 0;
            while i < items.len()
                invariant
                    i <= items@.len(),
                    texts(items@) == models,
                    r@.len() == i,
                    forall|j: int| 0 <= j < i ==> (#[trigger] r@[j])@ == select_item(models[j]),
                decreases items@.len() - i,
            {
                assert(models[i as int] == items@[i as int]@);
                r.push(to_select_item(&items[i]));
                i += 1;
            }
            assert(views(r@) =~= select_items(sql@));
            r
        },
    }
}

/// The expressions of the `SELECT` list.
pub fn extract_select_columns(sql: &str) -> (r: Vec<String>)
    ensures
        texts(r@) == select_expressions(sql@),
{
    let items: Vec<SelectItem> = extract_select_items(sql);
    let mut r: Vec<String> = Vec::new();
    let mut i: usize = 0;
    while i < items.len()
        invariant
            i <= items@.len(),
            r@.len() == i,
            forall|j: int| 0 <= j < i ==> (#[trigger] r@[j])@ == views(items@)[j].expression,
        decreases items@.len() - i,
    {
        r.push(copied(&items[i].expression));
        i += 1;
    }
    assert(texts(r@) =~= select_expressions(sql@));
    r
}

/// The columns of `GROUP BY`.
pub open spec fn group_by_columns(sql: Seq<char>) -> Seq<Seq<char>> {
    match find_keyword(sql, "GROUP BY"@, 0) {
        None => Seq::empty(),
        Some(k) => list_items(
            trim(
                sql.subrange(
                    k + 8,
                    clause_end(
                        sql,
                        k + 8,
                        seq!["ORDER BY"@, "LIMIT"@, "OFFSET"@, "HAVING"@, ";"@],
                    ),
                ),
            ),
        ),
    }
}

/// The columns of `GROUP BY`.
pub fn extract_group_by_columns(sql: &str) -> (r: Vec<String>)
    ensures
        texts(r@) == group_by_columns(sql@),
{
    proof {
        reveal_strlit("GROUP BY");
    }
    let s: Vec<char> = chars_of(sql);
    match keyword_position(s.as_slice(), "GROUP BY", 0) {
        None => {
            let r: Vec<String> = Vec::new();
            assert(texts(r@) =~= group_by_columns(sql@));
            r
        },
        Some(k) => {
            // The length fits a machine word, and so do the positions.
            let _n: usize = s.len();
            let ends: [&'static str; 5] = ["ORDER BY", "LIMIT", "OFFSET", "HAVING", ";"];
            assert(str_texts(ends@) =~= seq![
                "ORDER BY"@,
                "LIMIT"@,
                "OFFSET"@,
                "HAVING"@,
                ";"@,
            ]);
            let end: usize = end_of_clause(s.as_slice(), k + 8, &ends);
            let clause: String = trimmed_range(s.as_slice(), k + 8, end);
            split_top_level_list(clause.as_str())
        },
    }
}

/// What `str::to_uppercase` makes of a text.
pub uninterp spec fn unicode_uppercase(s: Seq<char>) -> Seq<char>;

/// `str::to_uppercase`: the Unicode upper-case form of a text. On ASCII text
/// it maps each letter.
#[verifier::external_body]
fn to_uppercase(s: &str) -> (r: String)
    ensures
        r@ == unicode_uppercase(s@),
        (forall|i: int| 0 <= i < s@.len() ==> (#[trigger] s@[i] as u32) < 0x80) ==> r@
            == upper_text(s@),
{
    s.to_uppercase()
}

/// The name and the argument of an expression of the form `name(argument)`.
pub open spec fn call_parts(expression: Seq<char>) -> Option<(Seq<char>, Seq<char>)> {
    match find_char(expression, '(', 0) {
        None => None,
        Some(k) => if expression.last() == ')' {
            Some(
                (
                    trim(expression.take(k)),
                    trim(expression.subrange(k + 1, expression.len() - 1)),
                ),
            )
        } else {
            None
        },
    }
}

/// The aggregate that a call of `name` on `argument` denotes.
pub open spec fn aggregate_of(
    name: Seq<char>,
    argument: Seq<char>,
    alias: Seq<char>,
) -> Option<AggregateModel> {
    let on = |function: AggregateFunction|
        Some(AggregateModel { function, column: Some(argument), alias });
    if name == "COUNT"@ {
        if argument == "*"@ {
            Some(AggregateModel { function: AggregateFunction::Count, column: None, alias })
        } else {
            match behind_distinct(argument) {
                Some(column) => Some(
                    AggregateModel {
                        function: AggregateFunction::CountDistinct,
                        column: Some(trim(column)),
                        alias,
                    },
                ),
                None => on(AggregateFunction::Count),
            }
        }
    } else if name == "SUM"@ {
        on(AggregateFunction::Sum)
    } else if name == "AVG"@ {
        on(AggregateFunction::Avg)
    } else if name == "MIN"@ {
        on(AggregateFunction::Min)
    } else if name == "MAX"@ {
        on(AggregateFunction::Max)
    } else {
        None
    }
}

pub open spec fn opt_aggregate(a: Option<AggregateExpr>) -> Option<AggregateModel> {
    match a {
        Some(x) => Some(x@),
        None => None,
    }
}

/// The aggregate that a call of a function, named in upper case, denotes.
pub fn aggregate_from_call(name: &str, argument: &str, alias: String) -> (r: Option<AggregateExpr>)
    ensures
        opt_aggregate(r) == aggregate_of(name@, argument@, alias@),
{
    if same_text(name, "COUNT") {
        if same_text(argument, "*") {
            return Some(AggregateExpr { function: AggregateFunction::Count, column: None, alias });
        }
        let inner: Vec<char> = chars_of(argument);
        return match strip_distinct_prefix(inner.as_slice()) {
            Some(column) => Some(
                AggregateExpr {
                    function: AggregateFunction::CountDistinct,
                    column: Some(trimmed(column.as_str()).to_owned()),
                    alias,
                },
            ),
            None => Some(
                AggregateExpr {
                    function: AggregateFunction::Count,
                    column: Some(argument.to_owned()),
                    alias,
                },
            ),
        };
    }
    let function: AggregateFunction = if same_text(name, "SUM") {
        AggregateFunction::Sum
    } else if same_text(name, "AVG") {
        AggregateFunction::Avg
    } else if same_text(name, "MIN") {
        AggregateFunction::Min
    } else if same_text(name, "MAX") {
        AggregateFunction::Max
    } else {
        return None;
    };
    Some(AggregateExpr { function, column: Some(argument.to_owned()), alias })
}

/// The alias of an item: its own, or its expression.
pub open spec fn alias_of(item: SelectItemModel) -> Seq<char> {
    match item.alias {
        Some(alias) => alias,
        None => trim(item.expression),
    }
}

/// The aggregate of a projected item, where it is a call of an aggregate
/// function in any case.
pub open spec fn aggregate_expr(item: SelectItemModel) -> Option<AggregateModel> {
    match call_parts(trim(item.expression)) {
        None => None,
        Some((name, argument)) => aggregate_of(
            unicode_uppercase(name),
            argument,
            alias_of(item),
        ),
    }
}

/// Reads a projected item as an aggregate.
pub fn parse_aggregate_expr(item: &SelectItem) -> (r: Option<AggregateExpr>)
    ensures
        opt_aggregate(r) == aggregate_expr(item@),
{
    let expression: &str = trimmed(item.expression.as_str());
    let s: Vec<char> = chars_of(expression);
    match position_of_char(s.as_slice(), '(', 0) {
        None => None,
        Some(k) => {
            let n: usize = s.len();
            if s[n - 1] != ')' {
                return None;
            }
            assert(k < n - 1);
            let name: String = trimmed_range(s.as_slice(), 0, k);
            assert(s@.subrange(0, k as int) =~= s@.take(k as int));
            let upper: String = to_uppercase(name.as_str());
            let argument: String = trimmed_range(s.as_slice(), k + 1, n - 1);
            let alias: String = match &item.alias {
                Some(alias) => copied(alias),
                None => expression.to_owned(),
            };
            aggregate_from_call(upper.as_str(), argument.as_str(), alias)
        },
    }
}

} // verus!
