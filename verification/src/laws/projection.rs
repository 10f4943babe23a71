//! The projected items of a `SELECT` statement, and what hides a keyword.

use vstd::prelude::*;
use vstd::string::*;
use crate::laws::clauses::{
    behind_clause, depth_at_end, is_closed, lemma_clause_found, lemma_find_before,
    lemma_find_passes, lemma_found_in_clause, lemma_found_later, lemma_keywords, lemma_letters,
    lemma_quote_end_before, lemma_same_upper, lemma_trim_blank,
};
use crate::laws::parts::is_trimmed;
use crate::sql::clauses::{depth_behind, find_keyword, find_outside, is_literal_quote, list_items};
use crate::sql::lexical::{lemma_quote_end, quote_end};
use crate::sql::select::{
    AggregateFunction, AggregateModel, SelectItemModel, aggregate_expr, behind_distinct, call_parts,
    last_as, select_item, select_items, select_list, unicode_uppercase,
};
use crate::text::ascii::{lower, upper_text, word_at};
use crate::text::search::{find_char, lemma_find_char};
use crate::text::trim::{is_space, lemma_trimmed_part, space_run_end, trim, trim_start};

verus! {

proof fn lemma_found_before_or_behind(
    p: Seq<char>,
    t: Seq<char>,
    word: Seq<char>,
    i: int,
    depth: nat,
    q: char,
)
    requires
        0 <= i <= p.len(),
        depth_at_end(p, i, depth) == Some(0nat),
        t.len() > 0 ==> t[0] == q,
        forall|k: int| 0 <= k < p.len() ==> #[trigger] p[k] != q,
    ensures
        ({
            let found = find_outside(p + t, word, 0, true, i, depth);
            (found is Some && found->0 < p.len()) || found == find_outside(
                p + t,
                word,
                0,
                true,
                p.len() as int,
                0,
            )
        }),
    decreases p.len() - i,
{
    let s = p + t;
    if i < p.len() {
        assert(s[i] == p[i]);
        if is_literal_quote(p[i]) {
            assert(p[i] != q);
            lemma_quote_end(p, i + 1, p[i]);
            lemma_quote_end_before(p, t, i + 1, p[i]);
            lemma_found_before_or_behind(
                p,
                t,
                word,
                quote_end(p, i + 1, p[i])->0,
                depth,
                q,
            );
        } else {
            lemma_found_before_or_behind(p, t, word, i + 1, depth_behind(p[i], depth), q);
        }
    }
}

/// A keyword between quotes is none: it is found before them or behind them.
pub proof fn law_quotes_hide_keywords(
    p: Seq<char>,
    q: char,
    inner: Seq<char>,
    rest: Seq<char>,
    word: Seq<char>,
)
    requires
        is_closed(p),
        q == '\'' || q == '"',
        !p.contains(q),
        !inner.contains(q),
        rest.len() > 0 ==> rest[0] != q,
    ensures
        find_keyword(p + seq![q] + inner + seq![q] + rest, word, 0) matches Some(k) ==> k < p.len()
            || k >= p.len() + inner.len() + 2,
{
    let t = seq![q] + inner + seq![q] + rest;
    let s = p + t;
    let n = p.len() as int;
    assert(s =~= p + seq![q] + inner + seq![q] + rest);
    assert forall|k: int| 0 <= k < p.len() implies #[trigger] p[k] != q by {
        assert(p.contains(p[k]));
    }
    lemma_found_before_or_behind(p, t, word, 0, 0, q);
    assert(s[n] == q);
    lemma_inner_quote(s, n + 1, n + 1 + inner.len(), q, inner);
    lemma_found_later(s, word, 0, n + inner.len() + 2, 0);
}

proof fn lemma_inner_quote(s: Seq<char>, i: int, end: int, q: char, inner: Seq<char>)
    requires
        0 <= i <= end < s.len(),
        i >= end - inner.len(),
        forall|k: int| end - inner.len() <= k < end ==> #[trigger] s[k] == inner[k - (end
            - inner.len())],
        !inner.contains(q),
        s[end] == q,
        end + 1 < s.len() ==> s[end + 1] != q,
    ensures
        quote_end(s, i, q) == Some(end + 1),
    decreases end - i,
{
    if i < end {
        assert(s[i] == inner[i - (end - inner.len())]);
        assert(inner.contains(s[i]));
        lemma_inner_quote(s, i + 1, end, q, inner);
    }
}

/// A keyword between parentheses is none: it is found before them or behind
/// them.
pub proof fn law_parentheses_hide_keywords(
    p: Seq<char>,
    inner: Seq<char>,
    rest: Seq<char>,
    word: Seq<char>,
)
    requires
        is_closed(p),
        !p.contains('('),
        forall|i: int|
            0 <= i < inner.len() ==> !is_literal_quote(#[trigger] inner[i]) && inner[i] != '('
                && inner[i] != ')',
        word.len() > 0 && word[0] != ')',
    ensures
        find_keyword(p + seq!['('] + inner + seq![')'] + rest, word, 0) matches Some(k) ==> k
            < p.len() || k >= p.len() + inner.len() + 2,
{
    let t = seq!['('] + inner + seq![')'] + rest;
    let s = p + t;
    let n = p.len() as int;
    assert(s =~= p + seq!['('] + inner + seq![')'] + rest);
    assert forall|k: int| 0 <= k < p.len() implies #[trigger] p[k] != '(' by {
        assert(p.contains(p[k]));
    }
    lemma_found_before_or_behind(p, t, word, 0, 0, '(');
    assert(s[n] == '(');
    let end = n + 1 + inner.len();
    assert forall|k: int| n + 1 <= k < end implies !is_literal_quote(#[trigger] s[k]) && s[k] != '('
        && s[k] != ')' by {
        assert(s[k] == inner[k - n - 1]);
    }
    lemma_inside(s, word, n + 1, end);
    assert(s[end] == ')');
    if word_at(s, end, word) {
        assert(lower(s[end + 0]) == lower(word[0]));
    }
    lemma_found_later(s, word, 0, end + 1, 0);
}

proof fn lemma_inside(s: Seq<char>, word: Seq<char>, i: int, end: int)
    requires
        0 <= i <= end <= s.len(),
        forall|k: int|
            i <= k < end ==> !is_literal_quote(#[trigger] s[k]) && s[k] != '(' && s[k] != ')',
    ensures
        find_outside(s, word, 0, true, i, 1) == find_outside(s, word, 0, true, end, 1),
    decreases end - i,
{
    if i < end {
        assert(!is_literal_quote(s[i]));
        lemma_inside(s, word, i + 1, end);
    }
}

/// The projected items are those of the list between `SELECT` and `FROM`, each
/// in any case; what follows `FROM` never changes them.
pub proof fn law_projection_reads_its_list(
    select: Seq<char>,
    list: Seq<char>,
    from: Seq<char>,
    rest: Seq<char>,
    i: int,
)
    requires
        upper_text(select) == "SELECT"@,
        upper_text(from) == "FROM"@,
        is_closed(select + seq![' '] + list),
        find_keyword(select + seq![' '] + list, "FROM"@, 6) is None,
        behind_distinct(trim(list)) is None,
    ensures
        ({
            let items = select_items(
                select + seq![' '] + list + seq![' '] + from + seq![' '] + rest,
            );
            &&& items.len() == list_items(trim(list)).len()
            &&& 0 <= i < items.len() ==> items[i] == select_item(list_items(trim(list))[i])
        }),
{
    lemma_select_list(select, list, from, rest);
    let between = seq![' '] + list + seq![' '];
    lemma_trim_blank(list);
    lemma_trim_blank(seq![' '] + list);
}

proof fn lemma_select_list(
    select: Seq<char>,
    list: Seq<char>,
    from: Seq<char>,
    rest: Seq<char>,
)
    requires
        upper_text(select) == "SELECT"@,
        upper_text(from) == "FROM"@,
        is_closed(select + seq![' '] + list),
        find_keyword(select + seq![' '] + list, "FROM"@, 6) is None,
    ensures
        select_list(select + seq![' '] + list + seq![' '] + from + seq![' '] + rest) == Some(
            seq![' '] + list + seq![' '],
        ),
{
    reveal_strlit("FROM");
    lemma_keywords();
    lemma_letters();
    let head = select + seq![' '] + list;
    let t = behind_clause(from, rest);
    let sql = head + t;
    let n = head.len() as int;
    assert(sql =~= select + seq![' '] + list + seq![' '] + from + seq![' '] + rest);
    assert(upper_text("SELECT"@) =~= "SELECT"@);
    assert(upper_text("FROM"@) =~= "FROM"@);
    assert(upper_text(select).len() == select.len());
    assert(upper_text(from).len() == from.len());
    lemma_same_upper(select, "SELECT"@);
    lemma_same_upper(from, "FROM"@);
    assert(word_at(sql, 0, "SELECT"@)) by {
        assert forall|j: int| 0 <= j < 6 implies lower(sql[0 + j]) == lower(
            #[trigger] "SELECT"@[j],
        ) by {
            assert(sql[j] == select[j]);
        }
    }
    assert(sql[6] == ' ');
    assert(sql[0] == select[0]);
    assert(lower(select[0]) == lower("SELECT"@[0]));
    assert(find_keyword(sql, "SELECT"@, 0) == Some(0int));
    assert(t[1] == from[0]);
    lemma_find_before(head, t, "FROM"@, 6, 0, 0);
    assert(sql[n] == ' ');
    lemma_find_passes(sql, "FROM"@, 6, n, n + 1, 0);
    assert(word_at(sql, n + 1, "FROM"@)) by {
        assert forall|j: int| 0 <= j < 4 implies lower(sql[n + 1 + j]) == lower(
            #[trigger] "FROM"@[j],
        ) by {
            assert(sql[n + 1 + j] == from[j]);
        }
    }
    assert(sql[n + 1] == from[0]);
    assert(lower(from[0]) == lower("FROM"@[0]));
    assert(sql[n + 5] == ' ');
    assert(find_keyword(sql, "FROM"@, 6) == Some(n + 1));
    assert(sql.subrange(6, n + 1) =~= seq![' '] + list + seq![' ']);
}

/// Behind `DISTINCT`, in any case, the items are those of the rest of the list.
pub proof fn law_distinct_is_no_item(
    select: Seq<char>,
    distinct: Seq<char>,
    list: Seq<char>,
    from: Seq<char>,
    rest: Seq<char>,
    i: int,
)
    requires
        upper_text(select) == "SELECT"@,
        upper_text(distinct) == "DISTINCT"@,
        upper_text(from) == "FROM"@,
        is_trimmed(list),
        list[0] != '(',
        is_closed(select + seq![' '] + (distinct + seq![' '] + list)),
        find_keyword(select + seq![' '] + (distinct + seq![' '] + list), "FROM"@, 6) is None,
    ensures
        ({
            let sql = select + seq![' '] + (distinct + seq![' '] + list) + seq![' '] + from + seq![
                ' ',
            ] + rest;
            let items = select_items(sql);
            &&& items.len() == list_items(list).len()
            &&& 0 <= i < items.len() ==> items[i] == select_item(list_items(list)[i])
            &&& select_list(sql) matches Some(l) && behind_distinct(trim_start(l)) is Some
        }),
{
    reveal_strlit("DISTINCT");
    let clause = distinct + seq![' '] + list;
    lemma_select_list(select, clause, from, rest);
    assert(upper_text("DISTINCT"@) =~= "DISTINCT"@);
    assert(upper_text(distinct).len() == distinct.len());
    lemma_same_upper(distinct, "DISTINCT"@);
    assert(lower(distinct[0]) == lower("DISTINCT"@[0]));
    assert(clause[0] == distinct[0]);
    assert(clause.last() == list.last());
    let between = seq![' '] + clause + seq![' '];
    lemma_trim_blank(clause);
    lemma_trim_blank(seq![' '] + clause);
    lemma_trimmed_part(clause, 0, clause.len() as int);
    assert(clause.subrange(0, clause.len() as int) =~= clause);
    lemma_behind_distinct(distinct, list);
    lemma_behind_distinct(distinct, list + seq![' ']);
    reveal_with_fuel(space_run_end, 2);
    assert(between[1] == clause[0]);
    assert(space_run_end(between, 0) == 1);
    assert(trim_start(between) =~= distinct + seq![' '] + (list + seq![' ']));
}

proof fn lemma_behind_distinct(distinct: Seq<char>, list: Seq<char>)
    requires
        upper_text(distinct) == "DISTINCT"@,
        list.len() > 0,
        !is_space(list[0]),
        list[0] != '(',
    ensures
        behind_distinct(distinct + seq![' '] + list) == Some(list),
{
    reveal_strlit("DISTINCT");
    let clause = distinct + seq![' '] + list;
    assert(upper_text("DISTINCT"@) =~= "DISTINCT"@);
    assert(upper_text(distinct).len() == distinct.len());
    lemma_same_upper(distinct, "DISTINCT"@);
    assert(word_at(clause, 0, "DISTINCT"@)) by {
        assert forall|j: int| 0 <= j < 8 implies lower(clause[0 + j]) == lower(
            #[trigger] "DISTINCT"@[j],
        ) by {
            assert(clause[j] == distinct[j]);
        }
    }
    let rest = clause.skip(8);
    assert(rest =~= seq![' '] + list);
    reveal_with_fuel(space_run_end, 2);
    assert(rest[1] == list[0]);
    assert(space_run_end(rest, 0) == 1);
    assert(trim_start(rest) =~= list);
}

/// An item `e AS a`, with the word in any case, is the expression `e` under the
/// alias `a`; one without the word has no alias.
pub proof fn law_aliases_are_read(expression: Seq<char>, word: Seq<char>, alias: Seq<char>)
    requires
        is_trimmed(expression) && is_trimmed(alias),
        is_closed(expression),
        find_keyword(expression, "AS"@, 0) is None,
        find_keyword(alias, "AS"@, 0) is None,
        upper_text(word) == "AS"@,
    ensures
        select_item(expression + seq![' '] + word + seq![' '] + alias) == (SelectItemModel {
            expression,
            alias: Some(alias),
        }),
        select_item(expression) == (SelectItemModel { expression, alias: None }),
{
    reveal_strlit("AS");
    let item = expression + behind_clause(word, alias);
    assert(item =~= expression + seq![' '] + word + seq![' '] + alias);
    assert(upper_text("AS"@) =~= "AS"@);
    assert(upper_text(word).len() == word.len());
    lemma_clause_found(expression, word, "AS"@, alias);
    lemma_found_in_clause(expression, word, "AS"@, alias, "AS"@);
    reveal_with_fuel(last_as, 2);
    let k = expression.len() as int + 1;
    assert(last_as(item, 0) == Some(k));
    assert(item.take(k) =~= expression + seq![' ']);
    assert(item.skip(k + 2) =~= seq![' '] + alias);
    lemma_trim_blank(expression);
    lemma_trim_blank(alias);
    lemma_trimmed_part(expression, 0, expression.len() as int);
    lemma_trimmed_part(alias, 0, alias.len() as int);
    assert(expression.subrange(0, expression.len() as int) =~= expression);
    assert(alias.subrange(0, alias.len() as int) =~= alias);
}

/// A call of `COUNT`, `SUM`, `AVG`, `MIN` or `MAX` is the aggregate of that name
/// over its argument; `COUNT(*)` counts rows, `COUNT(DISTINCT x)` distinct
/// values, and a call of any other function is no aggregate.
pub proof fn law_aggregates_mean_what_they_say(
    name: Seq<char>,
    function: Seq<char>,
    argument: Seq<char>,
    alias: Option<Seq<char>>,
)
    requires
        is_trimmed(name) && !name.contains('('),
        is_trimmed(argument),
        unicode_uppercase(name) == function,
    ensures
        ({
            let expression = name + seq!['('] + argument + seq![')'];
            let found = aggregate_expr(SelectItemModel { expression, alias });
            let shown = match alias {
                Some(a) => a,
                None => expression,
            };
            let of = |function: AggregateFunction|
                Some(AggregateModel { function, column: Some(argument), alias: shown });
            &&& function == "COUNT"@ && argument == "*"@ ==> found == Some(
                AggregateModel { function: AggregateFunction::Count, column: None, alias: shown },
            )
            &&& function == "COUNT"@ && argument != "*"@ && behind_distinct(argument) is None
                ==> found == of(AggregateFunction::Count)
            &&& function == "COUNT"@ && argument != "*"@ && behind_distinct(argument) is Some
                ==> found == Some(
                AggregateModel {
                    function: AggregateFunction::CountDistinct,
                    column: Some(trim(behind_distinct(argument)->0)),
                    alias: shown,
                },
            )
            &&& function == "SUM"@ ==> found == of(AggregateFunction::Sum)
            &&& function == "AVG"@ ==> found == of(AggregateFunction::Avg)
            &&& function == "MIN"@ ==> found == of(AggregateFunction::Min)
            &&& function == "MAX"@ ==> found == of(AggregateFunction::Max)
            &&& found is Some ==> function == "COUNT"@ || function == "SUM"@ || function == "AVG"@
                || function == "MIN"@ || function == "MAX"@
        }),
{
    reveal_strlit("COUNT");
    reveal_strlit("SUM");
    reveal_strlit("AVG");
    reveal_strlit("MIN");
    reveal_strlit("MAX");
    assert("COUNT"@.len() == 5 && "SUM"@.len() == 3);
    assert("SUM"@[0] != "AVG"@[0] && "SUM"@[0] != "MIN"@[0] && "AVG"@[0] != "MIN"@[0]
        && "SUM"@[0] != "MAX"@[0] && "AVG"@[0] != "MAX"@[0]);
    assert("MIN"@[1] != "MAX"@[1]);
    let expression = name + seq!['('] + argument + seq![')'];
    let k = name.len() as int;
    lemma_find_char(expression, '(', 0);
    assert(find_char(expression, '(', 0) == Some(k)) by {
        assert(expression[k] == '(');
        assert forall|j: int| 0 <= j < k implies expression[j] != '(' by {
            assert(expression[j] == name[j]);
            assert(name.contains(name[j]));
        }
    }
    assert(expression.take(k) =~= name);
    assert(expression.subrange(k + 1, expression.len() - 1) =~= argument);
    assert(expression[0] == name[0] && expression.last() == ')');
    lemma_trimmed_part(expression, 0, expression.len() as int);
    lemma_trimmed_part(name, 0, name.len() as int);
    lemma_trimmed_part(argument, 0, argument.len() as int);
    assert(expression.subrange(0, expression.len() as int) =~= expression);
    assert(name.subrange(0, name.len() as int) =~= name);
    assert(argument.subrange(0, argument.len() as int) =~= argument);
    assert(call_parts(expression) == Some((name, argument)));
}

} // verus!
