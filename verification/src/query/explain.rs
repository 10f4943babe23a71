//! The catalog objects that an `EXPLAIN` request names.

use vstd::prelude::*;
use vstd::string::*;
use crate::sql::authority::collector::{is_target, name_is_target};
use crate::sql::clauses::{char_continues_identifier, is_identifier_char, is_literal_quote};
use crate::sql::lexical::{
    Found, Piece, lemma_piece_at, lemma_quote_end, piece_at, piece_from, quote_end, quoted_end,
};
use crate::sql::scan::{end_of_trivia, lemma_trivia_end, trivia_end};
use crate::text::ascii::{eq_ci, matches_word_at, word_at};
use crate::text::chars::{chars_of, copied, text_of, text_of_range, texts};
use crate::text::float::equal_ci;
use crate::text::order::{insert_ascending, is_ascending};
use crate::text::search::{has_part_at, replace_part, replaced, starts_with};
use crate::text::tokens::{split_tokens, tokens};
use crate::text::trim::{
    trim, trim_char, trim_end_char, trimmed, without_char_around, without_char_at_end,
};

verus! {

/// Line breaks, tabs, commas and parentheses separate tokens.
pub open spec fn separator(c: char) -> bool {
    c == '\n' || c == '\t' || c == ',' || c == '(' || c == ')'
}

/// The text with separators as spaces.
pub open spec fn spaced(s: Seq<char>) -> Seq<char> {
    Seq::new(
        s.len(),
        |i: int|
            if separator(s[i]) {
                ' '
            } else {
                s[i]
            },
    )
}

/// A keyword that a relation follows.
pub open spec fn introduces_relation(token: Seq<char>) -> bool {
    let word = trim_char(token, '"');
    eq_ci(word, "FROM"@) || eq_ci(word, "JOIN"@) || eq_ci(word, "INTO"@) || eq_ci(
        word,
        "UPDATE"@,
    )
}

/// The name of a relation token.
pub open spec fn relation_name(token: Seq<char>) -> Seq<char> {
    trim_end_char(trim_char(token, '"'), ';')
}

/// The relations named by the first `n` pairs of neighbouring tokens.
pub open spec fn relations_of(tokens: Seq<Seq<char>>, n: int) -> Seq<Seq<char>>
    decreases n,
{
    if n <= 0 {
        Seq::empty()
    } else {
        let earlier = relations_of(tokens, n - 1);
        if introduces_relation(tokens[n - 1]) && !starts_with(tokens[n], "$"@) {
            earlier.push(relation_name(tokens[n]))
        } else {
            earlier
        }
    }
}

/// The relations behind `FROM`, `JOIN`, `INTO` and `UPDATE`.
pub open spec fn named_relations(sql: Seq<char>) -> Seq<Seq<char>> {
    let all = tokens(spaced(sql));
    relations_of(all, all.len() - 1)
}

/// The quoted first argument of a call of `function` at position `i`, with the
/// position behind it.
pub open spec fn quoted_argument(s: Seq<char>, function: Seq<char>, i: int) -> Option<
    (Seq<char>, int),
> {
    let call = trivia_end(s, i + function.len());
    let arg = trivia_end(s, call + 1);
    if !word_at(s, i, function) || (i > 0 && is_identifier_char(s[i - 1])) {
        None
    } else if call >= s.len() || s[call] != '(' {
        None
    } else if arg >= s.len() || !is_literal_quote(s[arg]) {
        None
    } else {
        match quote_end(s, arg + 1, s[arg]) {
            None => None,
            Some(e) => Some(
                (
                    replaced(s.subrange(arg + 1, e - 1), seq![s[arg], s[arg]], seq![s[arg]]),
                    e,
                ),
            ),
        }
    }
}

pub proof fn lemma_quoted_argument(s: Seq<char>, function: Seq<char>, i: int)
    requires
        0 <= i < s.len(),
    ensures
        quoted_argument(s, function, i) matches Some((_, e)) ==> i < e <= s.len(),
{
    if quoted_argument(s, function, i) is Some {
        let call = trivia_end(s, i + function.len());
        lemma_trivia_end(s, i + function.len());
        lemma_trivia_end(s, call + 1);
        let arg = trivia_end(s, call + 1);
        lemma_quote_end(s, arg + 1, s[arg]);
    }
}

/// The quoted first arguments of the calls of `function` in the code from
/// position `i` on.
pub open spec fn first_arguments(s: Seq<char>, function: Seq<char>, i: int) -> Seq<Seq<char>>
    decreases s.len() - i,
{
    if i < 0 || i >= s.len() {
        Seq::empty()
    } else {
        proof {
            lemma_piece_at(s, i);
            lemma_quoted_argument(s, function, i);
        }
        match piece_at(s, i) {
            Piece::Comment { end: Some(e) } => first_arguments(s, function, e),
            Piece::Quoted { end: Some(e) } => first_arguments(s, function, e),
            Piece::Code => match quoted_argument(s, function, i) {
                Some((name, e)) => (if is_target(name) {
                    seq![name]
                } else {
                    Seq::empty()
                }) + first_arguments(s, function, e),
                None => first_arguments(s, function, i + 1),
            },
            _ => Seq::empty(),
        }
    }
}

/// The functions whose first argument names a catalog object.
pub open spec fn catalog_functions() -> Seq<Seq<char>> {
    seq![
        "VECTOR_SEARCH"@,
        "DOCUMENT_QUERY"@,
        "LOGS"@,
        "METRICS"@,
        "TRACES"@,
        "RERANK"@,
    ]
}

/// The first arguments of the calls of the first `n` catalog functions.
pub open spec fn function_targets(sql: Seq<char>, n: int) -> Seq<Seq<char>>
    decreases n,
{
    if n <= 0 {
        Seq::empty()
    } else {
        function_targets(sql, n - 1) + first_arguments(sql, catalog_functions()[n - 1], 0)
    }
}

/// A keyword that can stand where a relation's name is looked for.
pub open spec fn is_clause_word(name: Seq<char>) -> bool {
    eq_ci(name, "SELECT"@) || eq_ci(name, "WHERE"@) || eq_ci(name, "ON"@) || eq_ci(name, "AS"@)
        || eq_ci(name, "LATERAL"@) || eq_ci(name, "UNNEST"@)
}

/// The names of a list that are no keywords.
pub open spec fn without_clause_words(names: Seq<Seq<char>>) -> Seq<Seq<char>>
    decreases names.len(),
{
    if names.len() == 0 {
        Seq::empty()
    } else {
        let earlier = without_clause_words(names.drop_last());
        if is_clause_word(names.last()) {
            earlier
        } else {
            earlier.push(names.last())
        }
    }
}

/// The catalog objects that a query names.
pub open spec fn catalog_targets(sql: Seq<char>) -> Seq<Seq<char>> {
    without_clause_words(named_relations(sql) + function_targets(sql, 6))
}

fn token_introduces_relation(token: &str) -> (r: bool)
    ensures
        r == introduces_relation(token@),
{
    let t: Vec<char> = chars_of(token);
    let word: Vec<char> = without_char_around(t.as_slice(), '"');
    let w: &[char] = word.as_slice();
    equal_ci(w, "FROM") || equal_ci(w, "JOIN") || equal_ci(w, "INTO") || equal_ci(w, "UPDATE")
}

fn name_of_relation(token: &str) -> (r: String)
    ensures
        r@ == relation_name(token@),
{
    let t: Vec<char> = chars_of(token);
    let inner: Vec<char> = without_char_around(t.as_slice(), '"');
    let n: usize = without_char_at_end(inner.as_slice(), ';');
    assert(inner@.subrange(0, n as int) =~= inner@.take(n as int));
    text_of_range(inner.as_slice(), 0, n)
}

fn relations_in(sql: &[char]) -> (r: Vec<String>)
    ensures
        texts(r@) == named_relations(sql@),
{
    proof {
        reveal_strlit("$");
    }
    let mut clean: Vec<char> = Vec::new();
    let mut i: usize = 0;
    while i < sql.len()
        invariant
            i <= sql@.len(),
            clean@.len() == i,
            forall|j: int| 0 <= j < i ==> clean@[j] == spaced(sql@)[j],
        decreases sql@.len() - i,
    {
        let c: char = sql[i];
        clean.push(
            if c == '\n' || c == '\t' || c == ',' || c == '(' || c == ')' {
                ' '
            } else {
                c
            },
        );
        i += 1;
    }
    assert(clean@ =~= spaced(sql@));
    let all: Vec<String> = split_tokens(clean.as_slice());
    let ghost models = tokens(spaced(sql@));
    assert(texts(all@) == models);
    let mut r: Vec<String> = Vec::new();
    assert(texts(r@) =~= relations_of(models, 0));
    if all.len() == 0 {
        return r;
    }
    let mut k: usize = 0;
    while k < all.len() - 1
        invariant
            k <= all@.len() - 1,
            all@.len() > 0,
            models == texts(all@),
            texts(r@) == relations_of(models, k as int),
            "$"@ =~= seq!['$'],
        decreases all@.len() - k,
    {
        assert(models[k as int] == all@[k as int]@);
        assert(models[k + 1] == all@[k + 1]@);
        let dollar: Vec<char> = chars_of("$");
        let target: Vec<char> = chars_of(all[k + 1].as_str());
        if token_introduces_relation(all[k].as_str()) && !has_part_at(
            target.as_slice(),
            0,
            dollar.as_slice(),
        ) {
            let ghost before = texts(r@);
            r.push(name_of_relation(all[k + 1].as_str()));
            assert(texts(r@) =~= before.push(relation_name(models[k + 1])));
        }
        k += 1;
    }
    r
}

fn argument_of_call(s: &[char], function: &[char], i: usize) -> (r: Option<(String, usize)>)
    requires
        i < s@.len(),
    ensures
        r is Some <==> quoted_argument(s@, function@, i as int) is Some,
        r matches Some((name, e)) ==> quoted_argument(s@, function@, i as int) == Some(
            (name@, e as int),
        ) && i < e <= s@.len(),
{
    proof {
        lemma_quoted_argument(s@, function@, i as int);
    }
    if !matches_word_at(s, i, function) || (i > 0 && char_continues_identifier(s[i - 1])) {
        return None;
    }
    let call: usize = end_of_trivia(s, i + function.len());
    if call >= s.len() || s[call] != '(' {
        return None;
    }
    let arg: usize = end_of_trivia(s, call + 1);
    if arg >= s.len() {
        return None;
    }
    let q: char = s[arg];
    if q != '\'' && q != '"' {
        return None;
    }
    match quoted_end(s, arg + 1, q) {
        None => None,
        Some(e) => {
            let inner: &[char] = vstd::slice::slice_subrange(s, arg + 1, e - 1);
            let doubled: Vec<char> = vec![q, q];
            let single: Vec<char> = vec![q];
            assert(doubled@ =~= seq![q, q]);
            assert(single@ =~= seq![q]);
            let name: Vec<char> = replace_part(inner, doubled.as_slice(), single.as_slice());
            Some((text_of(name.as_slice()), e))
        },
    }
}

/// Collects the quoted first arguments of the calls of `function`: the name
/// stands alone, outside quotes and comments, and comments may separate it
/// from its parenthesis and the argument.
pub fn collect_quoted_first_args(sql: &str, function: &str, targets: &mut Vec<String>)
    ensures
        texts(final(targets)@) == texts(old(targets)@) + first_arguments(sql@, function@, 0),
{
    let s: Vec<char> = chars_of(sql);
    let word: Vec<char> = chars_of(function);
    let ghost start = texts(targets@);
    let ghost all = first_arguments(sql@, function@, 0);
    let mut i: usize = 0;
    while i < s.len()
        invariant
            s@ == sql@,
            word@ == function@,
            i <= s@.len(),
            texts(targets@) + first_arguments(sql@, function@, i as int) == start + all,
        ensures
            s@ == sql@,
            texts(targets@) == start + all,
        decreases s@.len() - i,
    {
        match piece_from(s.as_slice(), i) {
            Found::Comment(Some(e)) => {
                i = e;
            },
            Found::Quoted(Some(e)) => {
                i = e;
            },
            Found::Code => {
                match argument_of_call(s.as_slice(), word.as_slice(), i) {
                    Some((name, e)) => {
                        let ghost before = texts(targets@);
                        let ghost rest = first_arguments(sql@, function@, e as int);
                        if name_is_target(&name) {
                            targets.push(name);
                            assert(texts(targets@) =~= before.push(name@));
                            assert(before.push(name@) + rest =~= before + (seq![name@] + rest));
                        } else {
                            assert(before + rest =~= before + (Seq::<Seq<char>>::empty() + rest));
                        }
                        i = e;
                    },
                    None => {
                        i += 1;
                    },
                }
            },
            _ => {
                assert(texts(targets@) =~= start + all);
                break;
            },
        }
    }
    assert(texts(targets@) =~= start + all);
}

fn name_is_clause_word(name: &String) -> (r: bool)
    ensures
        r == is_clause_word(name@),
{
    let s: Vec<char> = chars_of(name.as_str());
    let n: &[char] = s.as_slice();
    equal_ci(n, "SELECT") || equal_ci(n, "WHERE") || equal_ci(n, "ON") || equal_ci(n, "AS")
        || equal_ci(n, "LATERAL") || equal_ci(n, "UNNEST")
}

/// The catalog objects that a query names: the relations behind its keywords,
/// and the quoted first arguments of the catalog functions.
pub fn explain_catalog_targets(sql: &str) -> (r: Vec<String>)
    ensures
        texts(r@) == catalog_targets(sql@),
{
    let s: Vec<char> = chars_of(sql);
    let mut all: Vec<String> = relations_in(s.as_slice());
    let functions: [&'static str; 6] = [
        "VECTOR_SEARCH",
        "DOCUMENT_QUERY",
        "LOGS",
        "METRICS",
        "TRACES",
        "RERANK",
    ];
    let ghost relations = texts(all@);
    let mut k: usize = 0;
    assert(relations + function_targets(sql@, 0) =~= relations);
    while k < 6
        invariant
            k <= 6,
            functions@.len() == 6,
            forall|j: int| 0 <= j < 6 ==> (#[trigger] functions@[j])@ == catalog_functions()[j],
            texts(all@) == relations + function_targets(sql@, k as int),
        decreases 6 - k,
    {
        let ghost before = function_targets(sql@, k as int);
        assert(functions@[k as int]@ == catalog_functions()[k as int]);
        collect_quoted_first_args(sql, functions[k], &mut all);
        assert((relations + before) + first_arguments(sql@, catalog_functions()[k as int], 0)
            =~= relations + (before + first_arguments(sql@, catalog_functions()[k as int], 0)));
        k += 1;
    }
    let ghost names = texts(all@);
    let mut r: Vec<String> = Vec::new();
    let mut i: usize = 0;
    assert(names.take(0) =~= Seq::<Seq<char>>::empty());
    assert(texts(r@) =~= without_clause_words(names.take(0)));
    while i < all.len()
        invariant
            i <= all@.len(),
            names == texts(all@),
            texts(r@) == without_clause_words(names.take(i as int)),
        decreases all@.len() - i,
    {
        assert(names.take(i + 1).drop_last() =~= names.take(i as int));
        assert(names.take(i + 1).last() == all@[i as int]@);
        if !name_is_clause_word(&all[i]) {
            let ghost before = texts(r@);
            r.push(copied(&all[i]));
            assert(texts(r@) =~= before.push(all@[i as int]@));
        }
        i += 1;
    }
    assert(names.take(names.len() as int) =~= names);
    r
}

/// The objects to look up: those the query names, and the request's own.
pub open spec fn lookup_set(collection: Option<Seq<char>>, sql: Seq<char>) -> Set<Seq<char>> {
    let named = catalog_targets(sql).to_set();
    match collection {
        Some(c) => if trim(c).len() > 0 {
            named.insert(trim(c))
        } else {
            named
        },
        None => named,
    }
}

/// The objects to look up, in ascending order and each once.
pub fn explain_lookup_targets(collection: Option<&str>, query: &str) -> (r: Vec<String>)
    ensures
        is_ascending(texts(r@)),
        texts(r@).to_set() == lookup_set(
            match collection {
                Some(c) => Some(c@),
                None => None,
            },
            query@,
        ),
{
    let targets: Vec<String> = explain_catalog_targets(query);
    let ghost names = texts(targets@);
    let mut r: Vec<String> = Vec::new();
    let mut i: usize = 0;
    assert(texts(r@).to_set() =~= names.take(0).to_set());
    while i < targets.len()
        invariant
            i <= targets@.len(),
            names == texts(targets@),
            is_ascending(texts(r@)),
            texts(r@).to_set() == names.take(i as int).to_set(),
        decreases targets@.len() - i,
    {
        let ghost seen = names.take(i as int);
        let ghost more = names.take(i + 1);
        insert_ascending(&mut r, copied(&targets[i]));
        proof {
            assert(more =~= seen.push(targets@[i as int]@));
            assert forall|t: Seq<char>| more.to_set().contains(t) == seen.to_set().insert(
                targets@[i as int]@,
            ).contains(t) by {
                if seen.contains(t) {
                    let k = choose|k: int| 0 <= k < seen.len() && seen[k] == t;
                    assert(more[k] == t);
                }
                if more.contains(t) {
                    let k = choose|k: int| 0 <= k < more.len() && more[k] == t;
                    if k < i {
                        assert(seen[k] == t);
                    }
                }
                assert(more[i as int] == targets@[i as int]@);
            }
            assert(more.to_set() =~= seen.to_set().insert(targets@[i as int]@));
        }
        i += 1;
    }
    assert(names.take(names.len() as int) =~= names);
    if let Some(c) = collection {
        let name: &str = trimmed(c);
        if name.unicode_len() > 0 {
            insert_ascending(&mut r, name.to_owned());
        }
    }
    r
}

} // verus!
