//! The grammar of search filters.

use vstd::prelude::*;
use vstd::string::*;
use crate::laws::clauses::{
    lemma_quote_end_behind, lemma_same_upper, lemma_trim_blank, lemma_word_behind,
};
use crate::mlflow::error::ErrorModel;
use crate::mlflow::filter::{
    clause_ends, clause_regex, clauses_from, decoded_name, filter_clauses, parts_from,
};
use crate::query::literal::lemma_collapse_doubled;
use crate::sql::lexical::{is_quote, lemma_quote_end, quote_end};
use crate::text::ascii::{is_ascii_space, lower, upper_text, word_at};
use crate::text::search::replaced;
use crate::text::trim::trim;

verus! {

/// What an identifier of a clause looks like: between backticks, between double
/// quotes, or bare.
pub open spec fn identifier_pattern() -> Seq<char> {
    "(?:`(?:``|[^`])+`|\"(?:\"\"|[^\"])+\"|[^\\s!<>=]+)"@
}

/// A clause is an identifier, an operator and a value. Numbers know six
/// operators and stand bare; texts know three and stand between single quotes.
pub proof fn law_clauses_have_three_parts()
    ensures
        clause_regex(false) == "(?i)^\\s*("@ + identifier_pattern()
            + ")\\s*(!=|<=|>=|<|>|=)\\s*([^\\s]+)\\s*$"@,
        clause_regex(true) == "(?i)^\\s*("@ + identifier_pattern()
            + ")\\s*(!=|=|LIKE)\\s*'((?:''|[^'])*)'\\s*$"@,
{
    reveal_strlit("(?:`(?:``|[^`])+`|\"(?:\"\"|[^\"])+\"|[^\\s!<>=]+)");
    reveal_strlit("(?i)^\\s*(");
    reveal_strlit(")\\s*(!=|<=|>=|<|>|=)\\s*([^\\s]+)\\s*$");
    reveal_strlit(")\\s*(!=|=|LIKE)\\s*'((?:''|[^'])*)'\\s*$");
    reveal_strlit(
        "(?i)^\\s*((?:`(?:``|[^`])+`|\"(?:\"\"|[^\"])+\"|[^\\s!<>=]+))\\s*(!=|=|LIKE)\\s*'((?:''|[^'])*)'\\s*$",
    );
    reveal_strlit(
        "(?i)^\\s*((?:`(?:``|[^`])+`|\"(?:\"\"|[^\"])+\"|[^\\s!<>=]+))\\s*(!=|<=|>=|<|>|=)\\s*([^\\s]+)\\s*$",
    );
    assert(clause_regex(false) =~= "(?i)^\\s*("@ + identifier_pattern()
        + ")\\s*(!=|<=|>=|<|>|=)\\s*([^\\s]+)\\s*$"@);
    assert(clause_regex(true) =~= "(?i)^\\s*("@ + identifier_pattern()
        + ")\\s*(!=|=|LIKE)\\s*'((?:''|[^'])*)'\\s*$"@);
}

/// An identifier between backticks or double quotes stands for what is between
/// them, with a doubled delimiter for one; a bare one stands for itself.
pub proof fn law_identifiers_are_decoded(s: Seq<char>)
    ensures
        decoded_name(seq!['`'] + replaced(s, seq!['`'], seq!['`', '`']) + seq!['`']) == s,
        decoded_name(seq!['"'] + replaced(s, seq!['"'], seq!['"', '"']) + seq!['"']) == s,
        s.len() > 0 && s[0] != '`' && s[0] != '"' ==> decoded_name(s) == s,
{
    reveal_strlit("``");
    reveal_strlit("`");
    reveal_strlit("\"\"");
    reveal_strlit("\"");
    assert("``"@ =~= seq!['`', '`']);
    assert("`"@ =~= seq!['`']);
    assert("\"\""@ =~= seq!['"', '"']);
    assert("\""@ =~= seq!['"']);
    let a = replaced(s, seq!['`'], seq!['`', '`']);
    let b = replaced(s, seq!['"'], seq!['"', '"']);
    let x = seq!['`'] + a + seq!['`'];
    let y = seq!['"'] + b + seq!['"'];
    assert(x.subrange(1, x.len() - 1) =~= a);
    assert(y.subrange(1, y.len() - 1) =~= b);
    assert(x.last() == '`' && y.last() == '"');
    lemma_collapse_doubled(s, '`');
    lemma_collapse_doubled(s, '"');
}

/// What a clause captures is its key, its operator in capitals and its value,
/// with a doubled quote for one.
pub proof fn law_captures_are_the_parts(
    whole: Option<Seq<char>>,
    k: Seq<char>,
    op: Seq<char>,
    v: Seq<char>,
    rest: Seq<char>,
)
    ensures
        parts_from(
            Ok(Some(seq![whole, Some(k), Some(op), Some(replaced(v, seq!['\''], seq!['\'', '\'']))])),
            rest,
        ) matches Ok(parts) && parts.key == decoded_name(k) && parts.op == upper_text(op)
            && parts.value == v,
        parts_from(Ok(None), rest) is Err,
{
    reveal_strlit("''");
    reveal_strlit("'");
    assert("''"@ =~= seq!['\'', '\'']);
    assert("'"@ =~= seq!['\'']);
    lemma_collapse_doubled(v, '\'');
}

/// Neither a quote nor an `and` behind white space stands in the text.
pub open spec fn is_one_clause(a: Seq<char>) -> bool {
    &&& forall|k: int| 0 <= k < a.len() ==> !is_quote(#[trigger] a[k])
    &&& forall|k: int|
        0 < k < a.len() && is_ascii_space(#[trigger] a[k - 1]) ==> !word_at(a, k, "and"@)
}

proof fn lemma_quote_shift(a: Seq<char>, b: Seq<char>, i: int, q: char)
    requires
        0 <= i <= b.len(),
    ensures
        quote_end(a + b, a.len() + i, q) == (match quote_end(b, i, q) {
            Some(e) => Some(a.len() + e),
            None => None::<int>,
        }),
{
    lemma_quote_end_behind(a, b, i, q);
}

/// The clauses behind a text are those of what follows it.
proof fn lemma_clauses_behind(a: Seq<char>, b: Seq<char>, start: int, k: int)
    requires
        0 <= start <= k <= b.len(),
    ensures
        clauses_from(a + b, a.len() + start, a.len() + k) == clauses_from(b, start, k),
    decreases b.len() - k,
{
    let s = a + b;
    let n = a.len() as int;
    if k < b.len() {
        assert(s[n + k] == b[k]);
        if is_quote(b[k]) {
            lemma_quote_shift(a, b, k + 1, b[k]);
            lemma_quote_end(b, k + 1, b[k]);
            match quote_end(b, k + 1, b[k]) {
                Some(e) => lemma_clauses_behind(a, b, start, e),
                None => {},
            }
        } else {
            lemma_word_behind(a, b, k, "and"@);
            if k > start {
                assert(s[n + k - 1] == b[k - 1]);
            }
            if k + 3 < b.len() {
                assert(s[n + k + 3] == b[k + 3]);
            }
            assert(clause_ends(s, n + start, n + k) == clause_ends(b, start, k));
            if clause_ends(b, start, k) {
                lemma_clauses_behind(a, b, k + 3, k + 3);
                assert(s.subrange(n + start, n + k) =~= b.subrange(start, k));
            } else {
                lemma_clauses_behind(a, b, start, k + 1);
            }
        }
    } else {
        assert(s.subrange(n + start, s.len() as int) =~= b.subrange(start, b.len() as int));
    }
}

/// Characters before the end of the clause are passed over.
proof fn lemma_clause_goes_on(s: Seq<char>, k: int, end: int)
    requires
        0 <= k <= end <= s.len(),
        forall|i: int| k <= i < end ==> !is_quote(#[trigger] s[i]),
        forall|i: int| k <= i < end ==> !(#[trigger] clause_ends(s, 0, i)),
    ensures
        clauses_from(s, 0, k) == clauses_from(s, 0, end),
    decreases end - k,
{
    if k < end {
        assert(!is_quote(s[k]));
        assert(!clause_ends(s, 0, k));
        lemma_clause_goes_on(s, k + 1, end);
    }
}

/// `and` between blanks, in any case, separates clauses: the first is what
/// stands before it, without white space around it, and the others are those of
/// what follows.
pub proof fn law_and_separates_clauses(a: Seq<char>, and: Seq<char>, b: Seq<char>)
    requires
        is_one_clause(a),
        upper_text(and) == "AND"@,
    ensures
        clauses_from(a + seq![' '] + and + seq![' '] + b, 0, 0) == (match clauses_from(
            seq![' '] + b,
            0,
            0,
        ) {
            Some(rest) => Some(seq![trim(a)] + rest),
            None => None::<Seq<Seq<char>>>,
        }),
{
    reveal_strlit("and");
    reveal_strlit("AND");
    let s = a + seq![' '] + and + seq![' '] + b;
    let n = a.len() as int;
    assert(upper_text("and"@) =~= "AND"@);
    assert(upper_text(and).len() == and.len());
    lemma_same_upper(and, "and"@);
    assert(s[n] == ' ');
    assert forall|i: int| 0 <= i < n + 1 implies !is_quote(#[trigger] s[i]) by {
        if i < n {
            assert(s[i] == a[i]);
        }
    }
    assert forall|i: int| 0 <= i < n + 1 implies !(#[trigger] clause_ends(s, 0, i)) by {
        if clause_ends(s, 0, i) {
            assert(lower(s[i + 0]) == lower("and"@[0]));
            assert(lower(s[i + 1]) == lower("and"@[1]));
            assert(lower(s[i + 2]) == lower("and"@[2]));
            if i + 3 <= n {
                assert(s[i - 1] == a[i - 1]);
                assert(word_at(a, i, "and"@)) by {
                    assert forall|j: int| 0 <= j < 3 implies lower(a[i + j]) == lower(
                        #[trigger] "and"@[j],
                    ) by {
                        assert(lower(s[i + j]) == lower("and"@[j]));
                        assert(s[i + j] == a[i + j]);
                    }
                }
            } else {
                assert(s[n] == ' ');
            }
        }
    }
    lemma_clause_goes_on(s, 0, n + 1);
    assert(word_at(s, n + 1, "and"@)) by {
        assert forall|j: int| 0 <= j < 3 implies lower(s[n + 1 + j]) == lower(
            #[trigger] "and"@[j],
        ) by {
            assert(s[n + 1 + j] == and[j]);
        }
    }
    assert(s[n + 1] == and[0]);
    assert(lower(and[0]) == lower("and"@[0]));
    assert(s[n + 4] == ' ');
    assert(clause_ends(s, 0, n + 1));
    let head = a + seq![' '] + and;
    let tail = seq![' '] + b;
    assert(s =~= head + tail);
    lemma_clauses_behind(head, tail, 0, 0);
    assert(s.subrange(0, n + 1) =~= a + seq![' ']);
    lemma_trim_blank(a);
}

/// A filter without `and` and without quotes is one clause.
pub proof fn law_a_filter_can_be_one_clause(a: Seq<char>)
    requires
        is_one_clause(a),
        trim(a).len() > 0,
    ensures
        filter_clauses(a) == Ok::<Seq<Seq<char>>, ErrorModel>(seq![trim(a)]),
{
    reveal_strlit("and");
    assert forall|i: int| 0 <= i < a.len() implies !(#[trigger] clause_ends(a, 0, i)) by {
        if clause_ends(a, 0, i) {
            assert(is_ascii_space(a[i - 1]));
        }
    }
    lemma_clause_goes_on(a, 0, a.len() as int);
    assert(a.subrange(0, a.len() as int) =~= a);
    let clauses = seq![trim(a)];
    assert(clauses_from(a, 0, 0) == Some(clauses));
    assert forall|i: int| 0 <= i < clauses.len() implies (#[trigger] clauses[i]).len() > 0 by {}
}

} // verus!
