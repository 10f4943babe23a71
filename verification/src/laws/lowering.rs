//! The federated SQL that queries are lowered to.

use vstd::prelude::*;
use vstd::string::*;
use crate::query::literal::{escaped, quoted};
use crate::query::uql::{
    ComparisonOperator, Condition, SelectStatement, UqlStatement, Value, comparison_text,
    condition_text, condition_texts, document_filter, field_of_path, filter_literal,
    filter_operator, lowered_query, row_limit, vector_param, vector_param_from,
};
use crate::query::values::{ProximaValue, Real, real_texts, vector_text};
use crate::text::number::decimal;
use crate::text::search::{find_part, lemma_replaced_absent, part_at, starts_with};
use crate::text::split::joined;

verus! {

/// The symbol of an operator that compares by order or equality.
pub open spec fn symbol(operator: ComparisonOperator) -> Option<Seq<char>> {
    if operator is Eq {
        Some(seq!['='])
    } else if operator is Ne {
        Some(seq!['!', '='])
    } else if operator is Lt {
        Some(seq!['<'])
    } else if operator is Lte {
        Some(seq!['<', '='])
    } else if operator is Gt {
        Some(seq!['>'])
    } else if operator is Gte {
        Some(seq!['>', '='])
    } else {
        None
    }
}

proof fn lemma_symbols(operator: ComparisonOperator)
    ensures
        symbol(operator) is Some ==> filter_operator(operator) == symbol(operator),
{
    reveal_strlit("=");
    reveal_strlit("!=");
    reveal_strlit("<");
    reveal_strlit("<=");
    reveal_strlit(">");
    reveal_strlit(">=");
    assert("="@ =~= seq!['=']);
    assert("!="@ =~= seq!['!', '=']);
    assert("<"@ =~= seq!['<']);
    assert("<="@ =~= seq!['<', '=']);
    assert(">"@ =~= seq!['>']);
    assert(">="@ =~= seq!['>', '=']);
}

proof fn lemma_blank()
    ensures
        " "@ == seq![' '],
{
    reveal_strlit(" ");
    assert(" "@ =~= seq![' ']);
}

proof fn lemma_root_path(f: Seq<char>)
    ensures
        field_of_path(seq!['$', '.'] + f) == f,
        (f.len() < 2 || f[0] != '$' || f[1] != '.') ==> field_of_path(f) == f,
{
    reveal_strlit("$.");
    assert("$."@ =~= seq!['$', '.']);
    let path = seq!['$', '.'] + f;
    assert(path.subrange(0, 2) =~= seq!['$', '.']);
    assert(path.skip(2) =~= f);
    if f.len() >= 2 && starts_with(f, "$."@) {
        assert(f.subrange(0, 2)[0] == '$' && f.subrange(0, 2)[1] == '.');
    }
}

/// A comparison is lowered to its field, the symbol of its own operator and the
/// literal of its value, with blanks between them; the root of a JSON path is
/// dropped. No two of the operators share a symbol.
pub proof fn law_comparisons_keep_their_operator(
    path: String,
    field: Seq<char>,
    operator: ComparisonOperator,
    value: Value,
    literal: Seq<char>,
)
    requires
        path@ == field && (field.len() < 2 || field[0] != '$' || field[1] != '.') || path@
            == seq!['$', '.'] + field,
        filter_literal(value) == Some(literal),
    ensures
        operator is Eq ==> condition_text(Condition::JsonPath { path, operator, value }) == Ok::<
            Seq<char>,
            Seq<char>,
        >(field + seq![' ', '=', ' '] + literal),
        operator is Ne ==> condition_text(Condition::JsonPath { path, operator, value }) == Ok::<
            Seq<char>,
            Seq<char>,
        >(field + seq![' ', '!', '=', ' '] + literal),
        operator is Lt ==> condition_text(Condition::JsonPath { path, operator, value }) == Ok::<
            Seq<char>,
            Seq<char>,
        >(field + seq![' ', '<', ' '] + literal),
        operator is Lte ==> condition_text(Condition::JsonPath { path, operator, value }) == Ok::<
            Seq<char>,
            Seq<char>,
        >(field + seq![' ', '<', '=', ' '] + literal),
        operator is Gt ==> condition_text(Condition::JsonPath { path, operator, value }) == Ok::<
            Seq<char>,
            Seq<char>,
        >(field + seq![' ', '>', ' '] + literal),
        operator is Gte ==> condition_text(Condition::JsonPath { path, operator, value }) == Ok::<
            Seq<char>,
            Seq<char>,
        >(field + seq![' ', '>', '=', ' '] + literal),
        operator is Contains || operator is Like ==> condition_text(
            Condition::JsonPath { path, operator, value },
        ) == Ok::<Seq<char>, Seq<char>>(
            field + seq![' ', 'C', 'O', 'N', 'T', 'A', 'I', 'N', 'S', ' '] + literal,
        ),
        operator is Other ==> condition_text(Condition::JsonPath { path, operator, value }) is Err,
        condition_text(Condition::Comparison { field: path, operator, value }) == condition_text(
            Condition::JsonPath { path, operator, value },
        ),
{
    lemma_blank();
    lemma_symbols(operator);
    lemma_root_path(field);
    reveal_strlit("CONTAINS");
    assert("CONTAINS"@ =~= seq!['C', 'O', 'N', 'T', 'A', 'I', 'N', 'S']);
    match filter_operator(operator) {
        Some(op) => {
            let text = field + seq![' '] + op + seq![' '] + literal;
            assert(text =~= field + (seq![' '] + op + seq![' ']) + literal);
            assert(seq![' '] + seq!['='] + seq![' '] =~= seq![' ', '=', ' ']);
            assert(seq![' '] + seq!['!', '='] + seq![' '] =~= seq![' ', '!', '=', ' ']);
            assert(seq![' '] + seq!['<'] + seq![' '] =~= seq![' ', '<', ' ']);
            assert(seq![' '] + seq!['<', '='] + seq![' '] =~= seq![' ', '<', '=', ' ']);
            assert(seq![' '] + seq!['>'] + seq![' '] =~= seq![' ', '>', ' ']);
            assert(seq![' '] + seq!['>', '='] + seq![' '] =~= seq![' ', '>', '=', ' ']);
            assert(seq![' '] + seq!['C', 'O', 'N', 'T', 'A', 'I', 'N', 'S'] + seq![' '] =~= seq![
                ' ',
                'C',
                'O',
                'N',
                'T',
                'A',
                'I',
                'N',
                'S',
                ' ',
            ]);
        },
        None => {},
    }
}

/// Comparisons of one field with one value by different ones of `=`, `!=`, `<`,
/// `<=`, `>` and `>=` never have the same text.
pub proof fn law_operators_are_told_apart(
    path: Seq<char>,
    a: ComparisonOperator,
    b: ComparisonOperator,
    value: Value,
)
    requires
        a is Eq || a is Ne || a is Lt || a is Lte || a is Gt || a is Gte,
        b is Eq || b is Ne || b is Lt || b is Lte || b is Gt || b is Gte,
        filter_literal(value) is Some,
        comparison_text(path, a, value) == comparison_text(path, b, value),
    ensures
        a == b,
{
    lemma_blank();
    lemma_symbols(a);
    lemma_symbols(b);
    let field = field_of_path(path);
    let literal = filter_literal(value)->0;
    let x = symbol(a)->0;
    let y = symbol(b)->0;
    let s = field + seq![' '] + x + seq![' '] + literal;
    let t = field + seq![' '] + y + seq![' '] + literal;
    assert(s == t);
    assert(x.len() == y.len()) by {
        assert(s.len() == field.len() + 2 + x.len() + literal.len());
        assert(t.len() == field.len() + 2 + y.len() + literal.len());
    }
    assert(s[field.len() as int + 1] == x[0]);
    assert(t[field.len() as int + 1] == y[0]);
}

/// Literals denote their values: booleans and null are the words, an integer is
/// its decimal digits, a number its own text, and a string stands in double
/// quotes as it is where it holds none.
pub proof fn law_literals_denote_their_values(t: String, n: i64)
    ensures
        filter_literal(Value::Boolean(true)) == Some(seq!['t', 'r', 'u', 'e']),
        filter_literal(Value::Boolean(false)) == Some(seq!['f', 'a', 'l', 's', 'e']),
        filter_literal(Value::Null) == Some(seq!['n', 'u', 'l', 'l']),
        filter_literal(Value::Number(t)) == Some(t@),
        n >= 0 ==> filter_literal(Value::Integer(n)) == Some(decimal(n as nat)),
        n < 0 ==> filter_literal(Value::Integer(n)) == Some(seq!['-'] + decimal((-n) as nat)),
        !t@.contains('"') ==> filter_literal(Value::String(t)) == Some(
            seq!['"'] + t@ + seq!['"'],
        ),
        filter_literal(Value::Other) is None,
{
    reveal_strlit("true");
    reveal_strlit("false");
    reveal_strlit("null");
    reveal_strlit("\"");
    reveal_strlit("-");
    assert("true"@ =~= seq!['t', 'r', 'u', 'e']);
    assert("false"@ =~= seq!['f', 'a', 'l', 's', 'e']);
    assert("null"@ =~= seq!['n', 'u', 'l', 'l']);
    assert("\""@ =~= seq!['"']);
    assert("-"@ =~= seq!['-']);
    if !t@.contains('"') {
        lemma_absent(t@, '"', 0);
        lemma_replaced_absent(t@, "\""@, "\\\""@, 0);
        assert(t@.skip(0) =~= t@);
    }
}

proof fn lemma_absent(s: Seq<char>, c: char, k: int)
    requires
        0 <= k <= s.len(),
        !s.contains(c),
    ensures
        find_part(s, seq![c], k) is None,
    decreases s.len() - k,
{
    if k < s.len() {
        assert(s.subrange(k, k + 1)[0] == s[k]);
        assert(s.contains(s[k]));
        assert(!part_at(s, k, seq![c]));
        lemma_absent(s, c, k + 1);
    }
}

/// A statement without conditions filters nothing. With conditions it demands
/// each of them: one condition is the whole filter, and every further one is
/// added behind ` AND `.
pub proof fn law_every_condition_is_demanded(
    none: SelectStatement,
    one: SelectStatement,
    fewer: SelectStatement,
    more: SelectStatement,
    condition: Condition,
    text: Seq<char>,
    filter: Seq<char>,
)
    requires
        none.where_clause is None,
        condition_text(condition) == Ok::<Seq<char>, Seq<char>>(text),
        one.where_clause matches Some(w) && w.logic is And && w.conditions@ == seq![condition],
        fewer.where_clause matches Some(w) && w.logic is And && w.conditions@.len() > 0,
        document_filter(fewer) == Ok::<Seq<char>, Seq<char>>(filter),
        more.where_clause matches Some(w) && w.logic is And && w.conditions@
            == fewer.where_clause->0.conditions@.push(condition),
    ensures
        document_filter(none) == Ok::<Seq<char>, Seq<char>>(Seq::empty()),
        document_filter(one) == Ok::<Seq<char>, Seq<char>>(text),
        document_filter(more) == Ok::<Seq<char>, Seq<char>>(filter + " AND "@ + text),
{
    let single = seq![condition];
    assert(single.drop_last() =~= Seq::<Condition>::empty());
    reveal_with_fuel(condition_texts, 2);
    assert(condition_texts(single) == Ok::<Seq<Seq<char>>, Seq<char>>(seq![text])) by {
        assert(Seq::<Seq<char>>::empty().push(text) =~= seq![text]);
    }
    let few = fewer.where_clause->0.conditions@;
    assert(few.push(condition).drop_last() =~= few);
    let parts = condition_texts(few)->Ok_0;
    lemma_condition_count(few);
    assert(parts.push(text).drop_last() =~= parts);
    assert(joined(parts.push(text), " AND "@) == joined(parts, " AND "@) + " AND "@ + text);
}

proof fn lemma_condition_count(conditions: Seq<Condition>)
    ensures
        condition_texts(conditions) matches Ok(parts) ==> parts.len() == conditions.len(),
    decreases conditions.len(),
{
    if conditions.len() > 0 {
        lemma_condition_count(conditions.drop_last());
    }
}

/// A condition without a lowering fails the statement rather than being left
/// out, and conditions that are not all demanded are refused.
pub proof fn law_no_condition_is_left_out(select: SelectStatement, i: int)
    requires
        select.where_clause is Some,
        select.where_clause->0.logic is And ==> 0 <= i
            < select.where_clause->0.conditions@.len() && condition_text(
            select.where_clause->0.conditions@[i],
        ) is Err,
    ensures
        document_filter(select) is Err,
{
    let clause = select.where_clause->0;
    if clause.logic is And {
        lemma_condition_fails(clause.conditions@, i);
    }
}

proof fn lemma_condition_fails(conditions: Seq<Condition>, i: int)
    requires
        0 <= i < conditions.len(),
        condition_text(conditions[i]) is Err,
    ensures
        condition_texts(conditions) is Err,
    decreases conditions.len(),
{
    if i < conditions.len() - 1 {
        lemma_condition_fails(conditions.drop_last(), i);
    }
}

/// The limit of the request comes before that of the statement, and without
/// either it is 10.
pub proof fn law_limits_are_kept(select: SelectStatement, n: u32)
    ensures
        row_limit(select, Some(n)) == n,
        select.limit == Some(n) ==> row_limit(select, None) == n,
        select.limit is None ==> row_limit(select, None) == 10,
{
}

/// A statement on documents queries its own collection with its own filter, a
/// statement on observability data the logs of its own collection, and both ask
/// for as many rows as the limit says. Explaining a statement lowers the
/// statement.
pub proof fn law_statements_query_their_collection(
    select: SelectStatement,
    parameters: Seq<ProximaValue>,
    n: u32,
    filter: Seq<char>,
    explained: Box<UqlStatement>,
)
    requires
        *explained == UqlStatement::Select(select),
    ensures
        select.model is Document && document_filter(select) == Ok::<Seq<char>, Seq<char>>(filter)
            ==> lowered_query(Some(UqlStatement::Select(select)), parameters, Some(n)) == Ok::<
            Option<Seq<char>>,
            Seq<char>,
        >(
            Some(
                "SELECT * FROM DOCUMENT_QUERY('"@ + escaped(select.collection@) + "', '"@
                    + escaped(filter) + "') LIMIT "@ + decimal(n as nat),
            ),
        ),
        select.model is Observability ==> lowered_query(
            Some(UqlStatement::Select(select)),
            parameters,
            Some(n),
        ) == Ok::<Option<Seq<char>>, Seq<char>>(
            Some(
                "SELECT * FROM LOGS('"@ + escaped(select.collection@) + "') LIMIT "@ + decimal(
                    n as nat,
                ),
            ),
        ),
        select.model is Graph || select.model is Other ==> lowered_query(
            Some(UqlStatement::Select(select)),
            parameters,
            Some(n),
        ) is Err,
        lowered_query(Some(UqlStatement::Explain(explained)), parameters, Some(n))
            == lowered_query(Some(UqlStatement::Select(select)), parameters, Some(n)),
        lowered_query(Some(UqlStatement::MultiModal), parameters, Some(n)) is Err,
        lowered_query(None, parameters, Some(n)) == Ok::<Option<Seq<char>>, Seq<char>>(None),
{
    lemma_query_texts();
    let collection = escaped(select.collection@);
    let limit = decimal(n as nat);
    let inner = escaped(filter);
    assert("SELECT * FROM DOCUMENT_QUERY("@ + quoted(select.collection@) + ", "@ + quoted(filter)
        + ") LIMIT "@ + limit =~= "SELECT * FROM DOCUMENT_QUERY('"@ + collection + "', '"@ + inner
        + "') LIMIT "@ + limit);
    assert("SELECT * FROM LOGS("@ + quoted(select.collection@) + ") LIMIT "@ + limit
        =~= "SELECT * FROM LOGS('"@ + collection + "') LIMIT "@ + limit);
}

proof fn lemma_query_texts()
    ensures
        "SELECT * FROM DOCUMENT_QUERY('"@ == "SELECT * FROM DOCUMENT_QUERY("@ + seq!['\''],
        "SELECT * FROM VECTOR_SEARCH('"@ == "SELECT * FROM VECTOR_SEARCH("@ + seq!['\''],
        "SELECT * FROM LOGS('"@ == "SELECT * FROM LOGS("@ + seq!['\''],
        "', '"@ == seq!['\''] + ", "@ + seq!['\''],
        "', "@ == seq!['\''] + ", "@,
        "') LIMIT "@ == seq!['\''] + ") LIMIT "@,
{
    reveal_strlit("SELECT * FROM DOCUMENT_QUERY('");
    reveal_strlit("SELECT * FROM DOCUMENT_QUERY(");
    reveal_strlit("SELECT * FROM VECTOR_SEARCH('");
    reveal_strlit("SELECT * FROM VECTOR_SEARCH(");
    reveal_strlit("SELECT * FROM LOGS('");
    reveal_strlit("SELECT * FROM LOGS(");
    reveal_strlit("', '");
    reveal_strlit(", ");
    reveal_strlit("', ");
    reveal_strlit("') LIMIT ");
    reveal_strlit(") LIMIT ");
    assert("SELECT * FROM DOCUMENT_QUERY('"@ =~= "SELECT * FROM DOCUMENT_QUERY("@ + seq!['\'']);
    assert("SELECT * FROM VECTOR_SEARCH('"@ =~= "SELECT * FROM VECTOR_SEARCH("@ + seq!['\'']);
    assert("SELECT * FROM LOGS('"@ =~= "SELECT * FROM LOGS("@ + seq!['\'']);
    assert("', '"@ =~= seq!['\''] + ", "@ + seq!['\'']);
    assert("', "@ =~= seq!['\''] + ", "@);
    assert("') LIMIT "@ =~= seq!['\''] + ") LIMIT "@);
}

/// A statement on vectors searches its own collection for the vector that its
/// first vector condition names, for as many rows as the limit says.
pub proof fn law_vector_statements_search_their_vector(
    select: SelectStatement,
    parameters: Seq<ProximaValue>,
    i: int,
    k: usize,
    vector: Vec<Real>,
    n: u32,
)
    requires
        select.model is Vector,
        select.where_clause is Some,
        0 <= i < select.where_clause->0.conditions@.len(),
        forall|j: int|
            0 <= j < i ==> !((#[trigger] select.where_clause->0.conditions@[j]) is VectorSimilar)
                && !(select.where_clause->0.conditions@[j] is VectorDistance),
        (select.where_clause->0.conditions@[i] matches Condition::VectorSimilar {
            query_param,
            ..
        } && query_param == k) || (
        select.where_clause->0.conditions@[i] matches Condition::VectorDistance { query_param, .. }
            && query_param == k),
        k < parameters.len(),
        parameters[k as int] == ProximaValue::DenseVector(vector),
        vector@.len() > 0,
        forall|j: int| 0 <= j < vector@.len() ==> (#[trigger] vector@[j]).finite,
    ensures
        lowered_query(Some(UqlStatement::Select(select)), parameters, Some(n)) == Ok::<
            Option<Seq<char>>,
            Seq<char>,
        >(
            Some(
                "SELECT * FROM VECTOR_SEARCH('"@ + escaped(select.collection@) + "', "@ + quoted(
                    vector_text(vector@),
                ) + ", "@ + decimal(n as nat) + ")"@,
            ),
        ),
{
    lemma_query_texts();
    lemma_vector_param(select.where_clause->0.conditions@, 0, i, k);
    let literal = quoted(vector_text(vector@));
    let limit = decimal(n as nat);
    assert("SELECT * FROM VECTOR_SEARCH("@ + quoted(select.collection@) + ", "@ + literal + ", "@
        + limit + ")"@ =~= "SELECT * FROM VECTOR_SEARCH('"@ + escaped(select.collection@) + "', "@
        + literal + ", "@ + limit + ")"@);
}

proof fn lemma_vector_param(conditions: Seq<Condition>, from: int, i: int, k: usize)
    requires
        0 <= from <= i < conditions.len(),
        forall|j: int|
            from <= j < i ==> !((#[trigger] conditions[j]) is VectorSimilar)
                && !(conditions[j] is VectorDistance),
        (conditions[i] matches Condition::VectorSimilar { query_param, .. } && query_param == k)
            || (conditions[i] matches Condition::VectorDistance { query_param, .. } && query_param
            == k),
    ensures
        vector_param_from(conditions, from) == Some(k),
    decreases i - from,
{
    if from < i {
        assert(!(conditions[from] is VectorSimilar) && !(conditions[from] is VectorDistance));
        lemma_vector_param(conditions, from + 1, i, k);
    }
}

/// The text of a vector is its components in order, between brackets and with
/// commas between them.
pub proof fn law_vectors_list_their_components(values: Seq<Real>, x: Real)
    ensures
        vector_text(seq![x]) == "["@ + x.text@ + "]"@,
        values.len() > 0 ==> vector_text(values.push(x)) == vector_text(values).drop_last()
            + ","@ + x.text@ + "]"@,
{
    reveal_strlit("]");
    assert(real_texts(seq![x]) =~= seq![x.text@]);
    if values.len() > 0 {
        let more = real_texts(values.push(x));
        assert(more.drop_last() =~= real_texts(values));
        assert(vector_text(values).drop_last() =~= "["@ + joined(real_texts(values), ","@));
        assert(vector_text(values.push(x)) =~= vector_text(values).drop_last() + ","@ + x.text@
            + "]"@);
    }
}

/// Statements without a usable vector are refused: without a vector condition,
/// with a parameter that is missing or no vector, or with one that is empty or
/// has a component that is not finite.
pub proof fn law_vector_statements_need_a_vector(
    select: SelectStatement,
    parameters: Seq<ProximaValue>,
    n: Option<u32>,
)
    requires
        select.model is Vector,
        ({
            ||| select.where_clause is None
            ||| vector_param(select) is None
            ||| vector_param(select)->0 >= parameters.len()
            ||| parameters[vector_param(select)->0 as int] is String
            ||| parameters[vector_param(select)->0 as int] is Null
            ||| (parameters[vector_param(select)->0 as int] matches ProximaValue::DenseVector(v)
                && (v@.len() == 0 || exists|i: int|
                0 <= i < v@.len() && !(#[trigger] v@[i]).finite))
        }),
    ensures
        lowered_query(Some(UqlStatement::Select(select)), parameters, n) is Err,
{
}

} // verus!
