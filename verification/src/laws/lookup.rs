//! The catalog objects that an `EXPLAIN` request looks up.

use vstd::prelude::*;
use vstd::string::*;
use crate::laws::clauses::lemma_same_upper;
use crate::query::explain::{
    catalog_functions, first_arguments, function_targets, introduces_relation, is_clause_word,
    lookup_set, named_relations, quoted_argument, relation_name, relations_of, spaced,
    without_clause_words,
};
use crate::sql::lexical::{piece_at, quote_end};
use crate::sql::scan::trivia_end;
use crate::text::ascii::{
    eq_ci, is_alphanumeric, is_lower, is_upper, lower, upper, upper_text, word_at,
};
use crate::text::search::{find_part, lemma_replaced_absent, part_at, starts_with};
use crate::text::trim::{space_run_end, trim, trim_char, trim_end_char, trim_start_char};

verus! {

proof fn lemma_without_char(s: Seq<char>, c: char)
    requires
        s.len() > 0,
        s[0] != c,
        s.last() != c,
    ensures
        trim_char(s, c) == s,
        trim_end_char(s, c) == s,
{
}

proof fn lemma_word_in_any_case(s: Seq<char>, word: Seq<char>)
    ensures
        upper_text(s) == upper_text(word) ==> eq_ci(s, word),
{
    if upper_text(s) == upper_text(word) {
        lemma_same_upper(s, word);
        assert forall|j: int| 0 <= j < word.len() implies lower(s[0 + j]) == lower(
            #[trigger] word[j],
        ) by {}
    }
}

/// The word behind `FROM`, `JOIN`, `INTO` or `UPDATE`, in any case, is a
/// relation, unless it is a placeholder; quotes around it and a semicolon behind
/// it are dropped.
pub proof fn law_relations_follow_their_keywords(
    tokens: Seq<Seq<char>>,
    i: int,
    name: Seq<char>,
)
    requires
        0 <= i,
        i + 1 < tokens.len(),
        upper_text(tokens[i]) == "FROM"@ || upper_text(tokens[i]) == "JOIN"@ || upper_text(
            tokens[i],
        ) == "INTO"@ || upper_text(tokens[i]) == "UPDATE"@,
        name.len() > 0,
        name[0] != '"' && name.last() != '"' && name[0] != '$' && name.last() != ';',
        tokens[i + 1] == name || tokens[i + 1] == name.push(';') || tokens[i + 1] == seq!['"']
            + name + seq!['"'],
    ensures
        relations_of(tokens, tokens.len() - 1).contains(name),
{
    reveal_strlit("FROM");
    reveal_strlit("JOIN");
    reveal_strlit("INTO");
    reveal_strlit("UPDATE");
    reveal_strlit("$");
    let t = tokens[i];
    assert(upper_text("FROM"@) =~= "FROM"@);
    assert(upper_text("JOIN"@) =~= "JOIN"@);
    assert(upper_text("INTO"@) =~= "INTO"@);
    assert(upper_text("UPDATE"@) =~= "UPDATE"@);
    assert(upper_text(t).len() == t.len());
    assert(upper_text(t)[0] == upper(t[0]));
    assert(upper_text(t)[t.len() - 1] == upper(t[t.len() - 1]));
    assert(t[0] != '"' && t.last() != '"');
    lemma_without_char(t, '"');
    lemma_word_in_any_case(t, "FROM"@);
    lemma_word_in_any_case(t, "JOIN"@);
    lemma_word_in_any_case(t, "INTO"@);
    lemma_word_in_any_case(t, "UPDATE"@);
    assert(introduces_relation(t));
    let target = tokens[i + 1];
    assert(relation_name(target) == name) by {
        lemma_without_char(name, '"');
        assert(trim_end_char(name, ';') == name);
        if target == name.push(';') {
            assert(target.last() == ';');
            lemma_without_char(target, '"');
            assert(target.drop_last() =~= name);
        } else if target == seq!['"'] + name + seq!['"'] {
            let half = name + seq!['"'];
            reveal_with_fuel(trim_start_char, 2);
            reveal_with_fuel(trim_end_char, 2);
            assert(target.drop_first() =~= half);
            assert(half[0] == name[0]);
            assert(half.drop_last() =~= name);
        }
    }
    assert(!starts_with(target, "$"@)) by {
        if starts_with(target, "$"@) {
            assert(target.subrange(0, 1)[0] == '$');
            assert(target[0] == name[0] || target[0] == '"');
        }
    }
    lemma_relation_is_kept(tokens, i, tokens.len() - 1);
}

proof fn lemma_relation_is_kept(tokens: Seq<Seq<char>>, i: int, n: int)
    requires
        0 <= i < n,
        n < tokens.len(),
        introduces_relation(tokens[i]),
        !starts_with(tokens[i + 1], "$"@),
    ensures
        relations_of(tokens, n).contains(relation_name(tokens[i + 1])),
    decreases n,
{
    let name = relation_name(tokens[i + 1]);
    let now = relations_of(tokens, n);
    if i == n - 1 {
        assert(now.last() == name);
        assert(now[now.len() - 1] == name);
    } else {
        lemma_relation_is_kept(tokens, i, n - 1);
        let earlier = relations_of(tokens, n - 1);
        let k = choose|k: int| 0 <= k < earlier.len() && earlier[k] == name;
        assert(now[k] == name);
    }
}

/// Behind any other word there is no relation.
pub proof fn law_other_words_name_no_relation(a: Seq<char>, b: Seq<char>)
    requires
        !a.contains('"'),
        upper_text(a) != "FROM"@,
        upper_text(a) != "JOIN"@,
        upper_text(a) != "INTO"@,
        upper_text(a) != "UPDATE"@,
    ensures
        relations_of(seq![a, b], 1).len() == 0,
{
    reveal_strlit("FROM");
    reveal_strlit("JOIN");
    reveal_strlit("INTO");
    reveal_strlit("UPDATE");
    reveal_with_fuel(relations_of, 2);
    if a.len() > 0 {
        assert(a.contains(a[0]) && a.contains(a.last()));
        lemma_without_char(a, '"');
    }
    assert(trim_char(a, '"') == a);
    lemma_upper_of_word(a, "FROM"@);
    lemma_upper_of_word(a, "JOIN"@);
    lemma_upper_of_word(a, "INTO"@);
    lemma_upper_of_word(a, "UPDATE"@);
}

proof fn lemma_upper_of_word(s: Seq<char>, word: Seq<char>)
    requires
        forall|i: int| 0 <= i < word.len() ==> !is_lower(#[trigger] word[i]),
    ensures
        eq_ci(s, word) ==> upper_text(s) == word,
{
    if eq_ci(s, word) {
        assert forall|i: int| 0 <= i < word.len() implies upper(s[i]) == word[i] by {
            assert(lower(s[0 + i]) == lower(word[i]));
        }
        assert(upper_text(s) =~= word);
    }
}

/// The quoted first argument of a call of a catalog function, in any case, is
/// looked up.
pub proof fn law_catalog_calls_are_looked_up(
    function: Seq<char>,
    x: Seq<char>,
    rest: Seq<char>,
    collection: Option<Seq<char>>,
)
    requires
        upper_text(function) == "VECTOR_SEARCH"@ || upper_text(function) == "DOCUMENT_QUERY"@
            || upper_text(function) == "LOGS"@ || upper_text(function) == "METRICS"@ || upper_text(
            function,
        ) == "TRACES"@ || upper_text(function) == "RERANK"@,
        x.len() > 0,
        x[0] != '$',
        x != "?"@,
        !x.contains('\''),
        !is_clause_word(x),
        rest.len() > 0 ==> rest[0] != '\'',
    ensures
        lookup_set(collection, function + seq!['(', '\''] + x + seq!['\''] + rest).contains(x),
{
    reveal_strlit("VECTOR_SEARCH");
    reveal_strlit("DOCUMENT_QUERY");
    reveal_strlit("LOGS");
    reveal_strlit("METRICS");
    reveal_strlit("TRACES");
    reveal_strlit("RERANK");
    let sql = function + seq!['(', '\''] + x + seq!['\''] + rest;
    let all = catalog_functions();
    assert(all[0] == "VECTOR_SEARCH"@ && all[1] == "DOCUMENT_QUERY"@ && all[2] == "LOGS"@ && all[3]
        == "METRICS"@ && all[4] == "TRACES"@ && all[5] == "RERANK"@);
    let k: int = choose|k: int| 0 <= k < 6 && #[trigger] all[k] == upper_text(function);
    assert(0 <= k < 6 && all[k] == upper_text(function));
    let word = all[k];
    assert(upper_text(word) =~= word);
    lemma_first_argument(function, word, x, rest);
    lemma_function_is_kept(sql, k, 6, x);
    let names = named_relations(sql) + function_targets(sql, 6);
    let j = choose|j: int| 0 <= j < function_targets(sql, 6).len() && function_targets(sql, 6)[j]
        == x;
    assert(names[named_relations(sql).len() + j] == x);
    lemma_name_is_kept(names, named_relations(sql).len() + j);
}

proof fn lemma_name_is_kept(names: Seq<Seq<char>>, i: int)
    requires
        0 <= i < names.len(),
        !is_clause_word(names[i]),
    ensures
        without_clause_words(names).contains(names[i]),
    decreases names.len(),
{
    let now = without_clause_words(names);
    if i == names.len() - 1 {
        assert(now[now.len() - 1] == names[i]);
    } else {
        lemma_name_is_kept(names.drop_last(), i);
        let earlier = without_clause_words(names.drop_last());
        let k = choose|k: int| 0 <= k < earlier.len() && earlier[k] == names[i];
        assert(now[k] == names[i]);
    }
}

proof fn lemma_function_is_kept(sql: Seq<char>, k: int, n: int, x: Seq<char>)
    requires
        0 <= k < n,
        first_arguments(sql, catalog_functions()[k], 0).contains(x),
    ensures
        function_targets(sql, n).contains(x),
    decreases n,
{
    let now = function_targets(sql, n);
    let earlier = function_targets(sql, n - 1);
    if k == n - 1 {
        let own = first_arguments(sql, catalog_functions()[k], 0);
        let j = choose|j: int| 0 <= j < own.len() && own[j] == x;
        assert(now[earlier.len() + j] == x);
    } else {
        lemma_function_is_kept(sql, k, n - 1, x);
        let j = choose|j: int| 0 <= j < earlier.len() && earlier[j] == x;
        assert(now[j] == x);
    }
}

proof fn lemma_first_argument(
    function: Seq<char>,
    word: Seq<char>,
    x: Seq<char>,
    rest: Seq<char>,
)
    requires
        upper_text(function) == upper_text(word),
        word.len() > 0,
        is_upper(word[0]),
        x.len() > 0,
        x[0] != '$',
        x != "?"@,
        !x.contains('\''),
        rest.len() > 0 ==> rest[0] != '\'',
    ensures
        first_arguments(function + seq!['(', '\''] + x + seq!['\''] + rest, word, 0).contains(x),
{
    let s = function + seq!['(', '\''] + x + seq!['\''] + rest;
    let n = function.len() as int;
    lemma_same_upper(function, word);
    assert(lower(function[0]) == lower(word[0]));
    assert(s[0] == function[0]);
    assert(s[n] == '(' && s[n + 1] == '\'');
    assert(word_at(s, 0, word)) by {
        assert forall|j: int| 0 <= j < word.len() implies lower(s[0 + j]) == lower(
            #[trigger] word[j],
        ) by {
            assert(s[j] == function[j]);
        }
    }
    assert(trivia_end(s, n) == n) by {
        assert(space_run_end(s, n) == n);
    }
    assert(trivia_end(s, n + 1) == n + 1) by {
        assert(space_run_end(s, n + 1) == n + 1);
    }
    let end = n + 2 + x.len();
    assert(s[end] == '\'');
    if end + 1 < s.len() {
        assert(s[end + 1] == rest[0]);
    }
    lemma_quote_of(s, n + 2, end, x);
    assert(s.subrange(n + 2, end) =~= x);
    lemma_no_doubled(x, 0);
    lemma_replaced_absent(x, seq!['\'', '\''], seq!['\''], 0);
    assert(x.skip(0) =~= x);
    assert(seq![s[n + 1], s[n + 1]] =~= seq!['\'', '\'']);
    assert(seq![s[n + 1]] =~= seq!['\'']);
    assert(quoted_argument(s, word, 0) == Some((x, end + 1)));
    assert(piece_at(s, 0) is Code);
    let found = first_arguments(s, word, 0);
    assert(found == seq![x] + first_arguments(s, word, end + 1));
    assert(found[0] == x);
}

proof fn lemma_quote_of(s: Seq<char>, i: int, end: int, x: Seq<char>)
    requires
        0 <= i <= end < s.len(),
        i >= end - x.len(),
        end >= x.len(),
        forall|k: int| end - x.len() <= k < end ==> #[trigger] s[k] == x[k - (end - x.len())],
        !x.contains('\''),
        s[end] == '\'',
        end + 1 < s.len() ==> s[end + 1] != '\'',
    ensures
        quote_end(s, i, '\'') == Some(end + 1),
    decreases end - i,
{
    if i < end {
        assert(s[i] == x[i - (end - x.len())]);
        assert(x.contains(s[i]));
        lemma_quote_of(s, i + 1, end, x);
    }
}

pub(crate) proof fn lemma_no_doubled(x: Seq<char>, k: int)
    requires
        0 <= k <= x.len(),
        !x.contains('\''),
    ensures
        find_part(x, seq!['\'', '\''], k) is None,
    decreases x.len() - k,
{
    if k + 2 <= x.len() {
        assert(x.subrange(k, k + 2)[0] == x[k]);
        assert(x.contains(x[k]));
        assert(!part_at(x, k, seq!['\'', '\'']));
        lemma_no_doubled(x, k + 1);
    }
}

/// The request's own collection is looked up without the white space around it,
/// a blank one is not, and nothing is looked up that neither the query nor the
/// request names.
pub proof fn law_the_collection_is_looked_up(collection: Seq<char>, sql: Seq<char>, x: Seq<char>)
    ensures
        trim(collection).len() > 0 ==> lookup_set(Some(collection), sql).contains(trim(collection)),
        lookup_set(None, sql).contains(x) ==> lookup_set(Some(collection), sql).contains(x),
        lookup_set(Some(collection), sql).contains(x) ==> x == trim(collection) || lookup_set(
            None,
            sql,
        ).contains(x),
        trim(collection).len() == 0 ==> lookup_set(Some(collection), sql) == lookup_set(
            None,
            sql,
        ),
{
}

/// Words that begin a clause are never looked up as names.
pub proof fn law_clause_words_are_not_looked_up(sql: Seq<char>, x: Seq<char>)
    requires
        upper_text(x) == "SELECT"@ || upper_text(x) == "WHERE"@ || upper_text(x) == "ON"@
            || upper_text(x) == "AS"@ || upper_text(x) == "LATERAL"@ || upper_text(x)
            == "UNNEST"@,
    ensures
        !lookup_set(None, sql).contains(x),
{
    reveal_strlit("SELECT");
    reveal_strlit("WHERE");
    reveal_strlit("ON");
    reveal_strlit("AS");
    reveal_strlit("LATERAL");
    reveal_strlit("UNNEST");
    assert(upper_text("SELECT"@) =~= "SELECT"@);
    assert(upper_text("WHERE"@) =~= "WHERE"@);
    assert(upper_text("ON"@) =~= "ON"@);
    assert(upper_text("AS"@) =~= "AS"@);
    assert(upper_text("LATERAL"@) =~= "LATERAL"@);
    assert(upper_text("UNNEST"@) =~= "UNNEST"@);
    lemma_word_in_any_case(x, "SELECT"@);
    lemma_word_in_any_case(x, "WHERE"@);
    lemma_word_in_any_case(x, "ON"@);
    lemma_word_in_any_case(x, "AS"@);
    lemma_word_in_any_case(x, "LATERAL"@);
    lemma_word_in_any_case(x, "UNNEST"@);
    lemma_word_is_dropped(named_relations(sql) + function_targets(sql, 6), x);
}

proof fn lemma_word_is_dropped(names: Seq<Seq<char>>, x: Seq<char>)
    requires
        is_clause_word(x),
    ensures
        !without_clause_words(names).contains(x),
    decreases names.len(),
{
    if names.len() > 0 {
        lemma_word_is_dropped(names.drop_last(), x);
        let earlier = without_clause_words(names.drop_last());
        let now = without_clause_words(names);
        if now.contains(x) {
            let k = choose|k: int| 0 <= k < now.len() && now[k] == x;
            if k < earlier.len() {
                assert(earlier[k] == x);
            }
        }
    }
}

/// A line break, a tab, a comma and a parenthesis separate words; other
/// characters stay.
pub proof fn law_separators_become_blanks(s: Seq<char>, i: int)
    requires
        0 <= i < s.len(),
    ensures
        spaced(s).len() == s.len(),
        s[i] == '\n' || s[i] == '\t' || s[i] == ',' || s[i] == '(' || s[i] == ')' ==> spaced(s)[i]
            == ' ',
        is_alphanumeric(s[i]) || s[i] == '_' || s[i] == '.' || s[i] == '"' || s[i] == '\''
            ==> spaced(s)[i] == s[i],
{
}

} // verus!
