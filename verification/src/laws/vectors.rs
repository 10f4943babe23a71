//! The vector operands of a search.

use vstd::prelude::*;
use vstd::string::*;
use crate::laws::clauses::lemma_trim_blank;
use crate::queue::path::lemma_pieces_of_both;
use crate::sql::lexical::quote_end;
use crate::sql::vector::{
    VectorQuery, VectorSourceModel, all_single, bare_literal, first_dot, is_identifier_text,
    quotes_closed, source_of_expression, source_of_literal, source_of_query, trimmed_pieces,
    vector_literal_components, without_cast,
};
use crate::text::ascii::{is_alphanumeric, is_letter};
use crate::text::chars::texts;
use crate::text::finite::is_single_text;
use crate::text::search::{ends_with, find_char, lemma_find_char};
use crate::text::split::pieces;
use crate::text::trim::{
    is_space, lemma_trim, lemma_trimmed_part, trim, trim_char, trim_end_char, trim_start_char,
};

verus! {

/// A component of a vector: a finite number, with nothing around it.
pub open spec fn is_number_item(s: Seq<char>) -> bool {
    &&& is_single_text(s)
    &&& s.len() > 0 && !is_space(s[0]) && !is_space(s.last())
    &&& !s.contains(',')
}

proof fn lemma_own(s: Seq<char>)
    requires
        s.len() > 0 && !is_space(s[0]) && !is_space(s.last()),
    ensures
        trim(s) == s,
        trim(seq![' '] + s) == s,
{
    lemma_trimmed_part(s, 0, s.len() as int);
    assert(s.subrange(0, s.len() as int) =~= s);
    lemma_trim_blank(s);
}

proof fn lemma_listed(x: Seq<char>, y: Seq<char>)
    requires
        is_number_item(x) && is_number_item(y),
    ensures
        trimmed_pieces(x + seq![',', ' '] + y) == seq![x, y],
        trimmed_pieces(x) == seq![x],
        all_single(seq![x, y]),
        all_single(seq![x]),
{
    let b = seq![' '] + y;
    assert(x + seq![',', ' '] + y =~= x + seq![','] + b);
    lemma_pieces_of_both(x, b, ',');
    lemma_find_char(x, ',', 0);
    if let Some(k) = find_char(x, ',', 0) {
        assert(x.contains(x[k]));
    }
    lemma_find_char(b, ',', 0);
    if let Some(k) = find_char(b, ',', 0) {
        assert(b[k] == y[k - 1]);
        assert(y.contains(y[k - 1]));
    }
    assert(x.skip(0) =~= x && b.skip(0) =~= b);
    assert(pieces(x, ',') =~= seq![x]);
    assert(pieces(b, ',') =~= seq![b]);
    assert(pieces(x + seq![','] + b, ',') =~= seq![x, b]);
    lemma_own(x);
    lemma_own(y);
    assert(trimmed_pieces(x + seq![',', ' '] + y) =~= seq![x, y]);
    assert(trimmed_pieces(x) =~= seq![x]);
    let both = seq![x, y];
    assert forall|i: int| 0 <= i < both.len() implies is_single_text(#[trigger] both[i]) by {
        assert(i == 0 || i == 1);
    }
}

proof fn lemma_bare(t: Seq<char>)
    requires
        t.len() >= 2 && t[0] == '[' && t.last() == ']',
    ensures
        bare_literal(t) == t,
        bare_literal(seq!['\''] + t + seq!['\'']) == t,
        bare_literal(seq!['"'] + t + seq!['"']) == t,
        bare_literal(seq!['\''] + t + seq!['\'', ':', ':', 'v', 'e', 'c', 't', 'o', 'r']) == t,
        bare_literal(seq!['\''] + t + seq!['\'', ':', ':', 'V', 'E', 'C', 'T', 'O', 'R']) == t,
{
    reveal_strlit("::vector");
    reveal_strlit("::VECTOR");
    assert("::vector"@ =~= seq![':', ':', 'v', 'e', 'c', 't', 'o', 'r']);
    assert("::VECTOR"@ =~= seq![':', ':', 'V', 'E', 'C', 'T', 'O', 'R']);
    lemma_own(t);
    lemma_uncast(t);
    lemma_unquoted_literal(t);
    let a = seq!['\''] + t + seq!['\''];
    lemma_own(a);
    lemma_uncast(a);
    let b = seq!['"'] + t + seq!['"'];
    lemma_own(b);
    lemma_uncast(b);
    let c = seq!['\''] + t + seq!['\'', ':', ':', 'v', 'e', 'c', 't', 'o', 'r'];
    lemma_own(c);
    assert(c.subrange(c.len() - 8, c.len() as int) =~= "::vector"@);
    assert(c.take(c.len() - 8) =~= a);
    let d = seq!['\''] + t + seq!['\'', ':', ':', 'V', 'E', 'C', 'T', 'O', 'R'];
    lemma_own(d);
    assert(d.subrange(d.len() - 8, d.len() as int) =~= "::VECTOR"@);
    assert(d.take(d.len() - 8) =~= a);
}

proof fn lemma_uncast(t: Seq<char>)
    requires
        t.len() > 0 && t.last() != 'r' && t.last() != 'R',
    ensures
        without_cast(t) == t,
{
    reveal_strlit("::vector");
    reveal_strlit("::VECTOR");
    if ends_with(t, "::vector"@) || ends_with(t, "::VECTOR"@) {
        assert(t.subrange(t.len() - 8, t.len() as int)[7] == t.last());
    }
}

proof fn lemma_unquoted_literal(t: Seq<char>)
    requires
        t.len() >= 2 && t[0] == '[' && t.last() == ']',
    ensures
        trim_char(trim_char(t, '\''), '"') == t,
        trim_char(trim_char(seq!['\''] + t + seq!['\''], '\''), '"') == t,
        trim_char(trim_char(seq!['"'] + t + seq!['"'], '\''), '"') == t,
{
    reveal_with_fuel(trim_start_char, 2);
    reveal_with_fuel(trim_end_char, 2);
    let a = seq!['\''] + t + seq!['\''];
    let b = seq!['"'] + t + seq!['"'];
    assert(a.drop_first() =~= t + seq!['\'']);
    assert((t + seq!['\'']).drop_last() =~= t);
    assert((t + seq!['\''])[0] == '[');
    assert(b.drop_first() =~= t + seq!['"']);
    assert((t + seq!['"']).drop_last() =~= t);
    assert((t + seq!['"'])[0] == '[');
}

/// A vector is written as a list in brackets, with or without quotes around it
/// and a cast behind it; its components are the numbers of the list.
pub proof fn law_vectors_are_read(x: Seq<char>, y: Seq<char>)
    requires
        is_number_item(x) && is_number_item(y),
    ensures
        ({
            let list = seq!['['] + x + seq![',', ' '] + y + seq![']'];
            let one = seq!['['] + x + seq![']'];
            let quote = seq!['\''];
            let both = VectorSourceModel::Literal(seq![x, y]);
            &&& source_of_literal(list) == both
            &&& source_of_literal(quote + list + quote) == both
            &&& source_of_literal(seq!['"'] + list + seq!['"']) == both
            &&& source_of_literal(
                quote + list + seq!['\'', ':', ':', 'v', 'e', 'c', 't', 'o', 'r'],
            ) == both
            &&& source_of_literal(
                quote + list + seq!['\'', ':', ':', 'V', 'E', 'C', 'T', 'O', 'R'],
            ) == both
            &&& source_of_literal(one) == VectorSourceModel::Literal(seq![x])
        }),
{
    let inner = x + seq![',', ' '] + y;
    let list = seq!['['] + x + seq![',', ' '] + y + seq![']'];
    let one = seq!['['] + x + seq![']'];
    assert(trimmed_pieces(inner) == seq![x, y] && all_single(seq![x, y])) by {
        lemma_listed(x, y);
    }
    assert(trimmed_pieces(x) == seq![x] && all_single(seq![x])) by {
        lemma_listed(x, y);
    }
    assert(list =~= seq!['['] + inner + seq![']']);
    assert(inner[0] == x[0] && inner.last() == y.last());
    lemma_list(inner, seq![x, y]);
    lemma_list(x, seq![x]);
}

proof fn lemma_list(inner: Seq<char>, components: Seq<Seq<char>>)
    requires
        inner.len() > 0 && !is_space(inner[0]) && !is_space(inner.last()),
        trimmed_pieces(inner) == components,
        all_single(components),
    ensures
        ({
            let list = seq!['['] + inner + seq![']'];
            let quote = seq!['\''];
            let all = VectorSourceModel::Literal(components);
            &&& source_of_literal(list) == all
            &&& source_of_literal(quote + list + quote) == all
            &&& source_of_literal(seq!['"'] + list + seq!['"']) == all
            &&& source_of_literal(
                quote + list + seq!['\'', ':', ':', 'v', 'e', 'c', 't', 'o', 'r'],
            ) == all
            &&& source_of_literal(
                quote + list + seq!['\'', ':', ':', 'V', 'E', 'C', 'T', 'O', 'R'],
            ) == all
        }),
{
    let list = seq!['['] + inner + seq![']'];
    assert(list.subrange(1, list.len() - 1) =~= inner);
    lemma_own(inner);
    lemma_bare(list);
}

/// A list that is empty, or that holds something else than finite numbers, is no
/// vector; nor is a list without its brackets.
pub proof fn law_other_lists_are_no_vectors(x: Seq<char>, y: Seq<char>)
    requires
        x.len() > 0 && !is_space(x[0]) && !is_space(x.last()) && !x.contains(','),
        !is_single_text(x),
        is_number_item(y),
    ensures
        vector_literal_components(seq!['[', ']']) is None,
        vector_literal_components(seq!['['] + x + seq![']']) is None,
        vector_literal_components(seq!['['] + y + seq![','] + x + seq![']']) is None,
{
    let empty = Seq::<char>::empty();
    let (p, q) = lemma_trim(empty);
    lemma_no_list(empty);
    assert(seq!['['] + empty + seq![']'] =~= seq!['[', ']']);
    assert(pieces(x, ',') == seq![x] && pieces(y, ',') == seq![y]) by {
        lemma_one_item(x);
        lemma_one_item(y);
    }
    assert(trim(x) == x) by {
        lemma_own(x);
    }
    assert(trimmed_pieces(x)[0] == x);
    assert(!all_single(trimmed_pieces(x)));
    lemma_no_list(x);
    let inner = y + seq![','] + x;
    lemma_pieces_of_both(y, x, ',');
    assert(pieces(inner, ',') =~= seq![y, x]);
    assert(trimmed_pieces(inner)[1] == x);
    assert(!all_single(trimmed_pieces(inner)));
    lemma_no_list(inner);
    assert(seq!['['] + y + seq![','] + x + seq![']'] =~= seq!['['] + inner + seq![']']);
}

proof fn lemma_one_item(x: Seq<char>)
    requires
        !x.contains(','),
    ensures
        pieces(x, ',') == seq![x],
{
    lemma_find_char(x, ',', 0);
    if let Some(k) = find_char(x, ',', 0) {
        assert(x.contains(x[k]));
    }
    assert(x.skip(0) =~= x);
}

proof fn lemma_no_list(inner: Seq<char>)
    requires
        trim(inner).len() == 0 || !all_single(trimmed_pieces(inner)),
    ensures
        vector_literal_components(seq!['['] + inner + seq![']']) is None,
{
    let list = seq!['['] + inner + seq![']'];
    assert(list.subrange(1, list.len() - 1) =~= inner);
    lemma_bare(list);
}

proof fn lemma_undotted(a: Seq<char>, b: Seq<char>, i: int)
    requires
        0 <= i <= a.len(),
        forall|j: int| 0 <= j < a.len() ==> #[trigger] a[j] != '"' && a[j] != '.',
    ensures
        first_dot(a + seq!['.'] + b, i) == Some(a.len() as int),
    decreases a.len() - i,
{
    let s = a + seq!['.'] + b;
    if i < a.len() {
        assert(s[i] == a[i]);
        assert(a[i] != '"');
        lemma_undotted(a, b, i + 1);
    } else {
        assert(s[i] == '.');
    }
}

proof fn lemma_without_quotes(s: Seq<char>, i: int)
    requires
        0 <= i,
        forall|j: int| 0 <= j < s.len() ==> #[trigger] s[j] != '"',
    ensures
        quotes_closed(s, i),
        (forall|j: int| 0 <= j < s.len() ==> #[trigger] s[j] != '.') ==> first_dot(s, i) is None,
    decreases s.len() - i,
{
    if i < s.len() {
        assert(s[i] != '"');
        lemma_without_quotes(s, i + 1);
        if forall|j: int| 0 <= j < s.len() ==> #[trigger] s[j] != '.' {
            assert(s[i] != '.');
        }
    }
}

/// `table.column` is a column where both are identifiers: a letter or an
/// underscore, then letters, digits and underscores. An identifier alone is an
/// expression.
pub proof fn law_columns_are_qualified(a: Seq<char>, b: Seq<char>)
    requires
        a.len() > 0 && (is_letter(a[0]) || a[0] == '_'),
        b.len() > 0 && (is_letter(b[0]) || b[0] == '_'),
        forall|i: int| 0 <= i < a.len() ==> is_alphanumeric(#[trigger] a[i]) || a[i] == '_',
        forall|i: int| 0 <= i < b.len() ==> is_alphanumeric(#[trigger] b[i]) || b[i] == '_',
    ensures
        source_of_expression(a + seq!['.'] + b) == (VectorSourceModel::ColumnRef {
            table: a,
            column: b,
        }),
        source_of_expression(a) == VectorSourceModel::Expression(a),
        source_of_expression(a + seq!['.', '1']) == VectorSourceModel::Expression(
            a + seq!['.', '1'],
        ),
        source_of_expression(a + seq!['.'] + b + seq!['(', ')']) == VectorSourceModel::Expression(
            a + seq!['.'] + b + seq!['(', ')'],
        ),
{
    let s = a + seq!['.'] + b;
    let n = a.len() as int;
    assert(is_alphanumeric(a.last()) || a.last() == '_');
    assert(is_alphanumeric(b.last()) || b.last() == '_');
    lemma_own(a);
    lemma_own(b);
    lemma_own(s);
    assert forall|j: int| 0 <= j < s.len() implies #[trigger] s[j] != '"' by {
        if j < n {
            assert(s[j] == a[j]);
        } else if j > n {
            assert(s[j] == b[j - n - 1]);
        }
    }
    assert forall|j: int| 0 <= j < a.len() implies #[trigger] a[j] != '"' && a[j] != '.' by {
        assert(is_alphanumeric(a[j]) || a[j] == '_');
    }
    lemma_without_quotes(s, 0);
    lemma_without_quotes(a, 0);
    lemma_undotted(a, b, 0);
    assert(s.take(n) =~= a);
    assert(s.skip(n + 1) =~= b);
    assert(is_identifier_text(a));
    assert(is_identifier_text(b));
    let one = seq!['1'];
    let t = a + seq!['.'] + one;
    assert(t =~= a + seq!['.', '1']);
    lemma_own(t);
    lemma_own(one);
    assert(t.skip(n + 1) =~= one);
    lemma_undotted(a, one, 0);
    assert(!is_identifier_text(one));
    let call = b + seq!['(', ')'];
    let u = a + seq!['.'] + call;
    assert(u =~= a + seq!['.'] + b + seq!['(', ')']);
    lemma_own(u);
    lemma_own(call);
    assert(u.skip(n + 1) =~= call);
    lemma_undotted(a, call, 0);
    assert(call[call.len() - 1] == ')');
    assert(!is_identifier_text(call));
}

/// The components of a vector are what they are, and an expression denotes what
/// its text does.
pub proof fn law_operands_denote_their_values(components: Vec<String>, text: String)
    ensures
        source_of_query(VectorQuery::Literal(components)) == VectorSourceModel::Literal(
            texts(components@),
        ),
        source_of_query(VectorQuery::Expression(text)) == source_of_expression(text@),
{
}

proof fn lemma_closing_quote(s: Seq<char>, i: int, e: int)
    requires
        0 <= i <= e < s.len(),
        forall|j: int| i <= j < e ==> #[trigger] s[j] != '"',
        s[e] == '"',
        e + 1 < s.len() ==> s[e + 1] != '"',
    ensures
        quote_end(s, i, '"') == Some(e + 1),
    decreases e - i,
{
    if i < e {
        assert(s[i] != '"');
        lemma_closing_quote(s, i + 1, e);
    }
}

/// A quoted table is one name, whatever it holds but quotes: the dots inside do
/// not qualify.
pub proof fn law_quoted_tables_are_names(x: Seq<char>, b: Seq<char>)
    requires
        x.len() > 0 && !x.contains('"'),
        b.len() > 0 && (is_letter(b[0]) || b[0] == '_'),
        forall|i: int| 0 <= i < b.len() ==> is_alphanumeric(#[trigger] b[i]) || b[i] == '_',
    ensures
        source_of_expression(seq!['"'] + x + seq!['"', '.'] + b) == (VectorSourceModel::ColumnRef {
            table: seq!['"'] + x + seq!['"'],
            column: b,
        }),
{
    let s = seq!['"'] + x + seq!['"', '.'] + b;
    let table = seq!['"'] + x + seq!['"'];
    let e = x.len() as int + 1;
    assert(is_alphanumeric(b.last()) || b.last() == '_');
    lemma_own(s);
    lemma_own(table);
    lemma_own(b);
    assert forall|j: int| 1 <= j < e implies #[trigger] s[j] != '"' by {
        assert(s[j] == x[j - 1]);
        assert(x.contains(x[j - 1]));
    }
    lemma_closing_quote(s, 1, e);
    assert(s[0] == '"' && s[e + 1] == '.');
    assert(first_dot(s, 0) == first_dot(s, e + 1));
    assert(first_dot(s, e + 1) == Some(e + 1));
    assert(quotes_closed(s, 0) == quotes_closed(s, e + 1));
    assert forall|j: int| e + 1 <= j < s.len() implies #[trigger] s[j] != '"' by {
        if j > e + 1 {
            assert(s[j] == b[j - e - 2]);
        }
    }
    lemma_closed_behind(s, e + 1);
    assert(s.take(e + 1) =~= table);
    assert(s.skip(e + 2) =~= b);
    assert(table.subrange(1, table.len() - 1) =~= x);
    lemma_find_char(x, '"', 0);
    if let Some(k) = find_char(x, '"', 0) {
        assert(x.contains(x[k]));
    }
    assert(is_identifier_text(table));
    assert(is_identifier_text(b));
}

proof fn lemma_closed_behind(s: Seq<char>, i: int)
    requires
        0 <= i,
        forall|j: int| i <= j < s.len() ==> #[trigger] s[j] != '"',
    ensures
        quotes_closed(s, i),
    decreases s.len() - i,
{
    if i < s.len() {
        assert(s[i] != '"');
        lemma_closed_behind(s, i + 1);
    }
}

} // verus!
