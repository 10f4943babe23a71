//! Parameters, and what is sent for each kind of request.

use vstd::prelude::*;
use vstd::string::*;
use crate::laws::parts::{law_integers_have_their_values, law_words_have_their_values};
use crate::query::bind::{before, bound_from, bound_query};
use crate::query::json::{Json, JsonNumber, member, member_from};
use crate::query::literal::{law_literal_reads_back, quoted};
use crate::query::multimodel::multi_model_sql;
use crate::query::port::{
    FailureModel, PreparedStatementError, distributed_limit, federated_sql, limited,
    multi_model_request_sql, prepared_failure, unified_sql,
};
use crate::query::uql::{UqlStatement, lowered_query};
use crate::query::values::{
    FilterLiteral, ParameterValue, ProximaValue, Real, is_param, sql_literal, vector_text,
};
use crate::sql::tail::{PredicateValueModel, predicate_value};
use crate::text::ascii::upper_text;
use crate::text::number::decimal;
use crate::text::trim::{is_space, lemma_trim};

verus! {

/// Neither a quote nor a placeholder stands in the text.
pub open spec fn is_bare(s: Seq<char>) -> bool {
    !s.contains('\'') && !s.contains('?')
}

/// A stretch without quotes and placeholders stays as it is.
proof fn lemma_stretch(
    query: Seq<char>,
    parameters: Seq<ProximaValue>,
    i: int,
    j: int,
    next: nat,
)
    requires
        0 <= i <= j <= query.len(),
        forall|k: int| i <= k < j ==> #[trigger] query[k] != '\'' && query[k] != '?',
    ensures
        bound_from(query, parameters, i, next, false) == before(
            query.subrange(i, j),
            bound_from(query, parameters, j, next, false),
        ),
    decreases j - i,
{
    let rest = bound_from(query, parameters, j, next, false);
    if i < j {
        assert(query[i] != '\'' && query[i] != '?');
        lemma_stretch(query, parameters, i + 1, j, next);
        match rest {
            Ok((text, _)) => {
                assert(seq![query[i]] + (query.subrange(i + 1, j) + text) =~= query.subrange(i, j)
                    + text);
            },
            Err(_) => {},
        }
    } else {
        match rest {
            Ok((text, _)) => {
                assert(query.subrange(i, j) + text =~= text);
            },
            Err(_) => {},
        }
    }
}

/// Inside quotes everything stays as it is.
proof fn lemma_quoted_stretch(
    query: Seq<char>,
    parameters: Seq<ProximaValue>,
    i: int,
    j: int,
    next: nat,
)
    requires
        0 <= i <= j < query.len(),
        forall|k: int| i <= k < j ==> #[trigger] query[k] != '\'',
        query[j] == '\'',
        j + 1 < query.len() ==> query[j + 1] != '\'',
    ensures
        bound_from(query, parameters, i, next, true) == before(
            query.subrange(i, j + 1),
            bound_from(query, parameters, j + 1, next, false),
        ),
    decreases j - i,
{
    let rest = bound_from(query, parameters, j + 1, next, false);
    if i < j {
        assert(query[i] != '\'');
        lemma_quoted_stretch(query, parameters, i + 1, j, next);
        match rest {
            Ok((text, _)) => {
                assert(seq![query[i]] + (query.subrange(i + 1, j + 1) + text) =~= query.subrange(
                    i,
                    j + 1,
                ) + text);
            },
            Err(_) => {},
        }
    } else {
        assert(query.subrange(j, j + 1) =~= seq![query[j]]);
    }
}

proof fn lemma_is_bare(s: Seq<char>, whole: Seq<char>, at: int)
    requires
        is_bare(s),
        0 <= at,
        at + s.len() <= whole.len(),
        whole.subrange(at, at + s.len()) == s,
    ensures
        forall|k: int| at <= k < at + s.len() ==> #[trigger] whole[k] != '\'' && whole[k] != '?',
{
    assert forall|k: int| at <= k < at + s.len() implies #[trigger] whole[k] != '\'' && whole[k]
        != '?' by {
        assert(whole.subrange(at, at + s.len())[k - at] == whole[k]);
        assert(s.contains(s[k - at]));
    }
}

/// Each placeholder takes the next parameter, in order, and everything else
/// stays as it is.
pub proof fn law_placeholders_take_parameters_in_order(
    a: Seq<char>,
    b: Seq<char>,
    c: Seq<char>,
    p: ProximaValue,
    q: ProximaValue,
    x: Seq<char>,
    y: Seq<char>,
)
    requires
        is_bare(a) && is_bare(b) && is_bare(c),
        sql_literal(p) == Ok::<Seq<char>, Seq<char>>(x),
        sql_literal(q) == Ok::<Seq<char>, Seq<char>>(y),
    ensures
        bound_query(a + seq!['?'] + b, seq![p]) == Ok::<Seq<char>, Seq<char>>(a + x + b),
        bound_query(a + seq!['?'] + b + seq!['?'] + c, seq![p, q]) == Ok::<Seq<char>, Seq<char>>(
            a + x + b + y + c,
        ),
        bound_query(a + seq!['?'] + b + seq!['?'] + c, seq![p]) is Err,
        bound_query(a + seq!['?'] + b, seq![p, q]) is Err,
        bound_query(a, seq![p]) is Err,
        bound_query(a, Seq::empty()) == Ok::<Seq<char>, Seq<char>>(a),
{
    let one = a + seq!['?'] + b;
    let two = one + seq!['?'] + c;
    let n = a.len() as int;
    let m = one.len() as int;
    assert(a.subrange(0, n) =~= a);
    assert(one.subrange(0, n) =~= a);
    assert(one.subrange(n + 1, m) =~= b);
    assert(two.subrange(0, n) =~= a);
    assert(two.subrange(n + 1, m) =~= b);
    assert(two.subrange(m + 1, two.len() as int) =~= c);
    assert(one[n] == '?' && two[n] == '?' && two[m] == '?');
    lemma_is_bare(a, a, 0);
    lemma_is_bare(a, one, 0);
    lemma_is_bare(b, one, n + 1);
    lemma_is_bare(a, two, 0);
    lemma_is_bare(b, two, n + 1);
    lemma_is_bare(c, two, m + 1);
    let empty = Seq::<char>::empty();
    lemma_stretch(a, seq![p], 0, n, 0);
    lemma_stretch(one, seq![p], 0, n, 0);
    lemma_stretch(one, seq![p], n + 1, m, 1);
    lemma_stretch(one, seq![p, q], 0, n, 0);
    lemma_stretch(one, seq![p, q], n + 1, m, 1);
    lemma_stretch(two, seq![p, q], 0, n, 0);
    lemma_stretch(two, seq![p, q], n + 1, m, 1);
    lemma_stretch(two, seq![p, q], m + 1, two.len() as int, 2);
    lemma_stretch(two, seq![p], 0, n, 0);
    lemma_stretch(two, seq![p], n + 1, m, 1);
    assert(a + (x + (b + empty)) =~= a + x + b);
    assert(a + (x + (b + (y + (c + empty)))) =~= a + x + b + y + c);
}

/// A question mark between single quotes is no placeholder.
pub proof fn law_quoted_question_marks_stay(
    a: Seq<char>,
    inner: Seq<char>,
    b: Seq<char>,
    c: Seq<char>,
    p: ProximaValue,
    x: Seq<char>,
)
    requires
        is_bare(a) && is_bare(b) && is_bare(c),
        !inner.contains('\''),
        sql_literal(p) == Ok::<Seq<char>, Seq<char>>(x),
    ensures
        bound_query(a + seq!['\''] + inner + seq!['\''] + b + seq!['?'] + c, seq![p]) == Ok::<
            Seq<char>,
            Seq<char>,
        >(a + seq!['\''] + inner + seq!['\''] + b + x + c),
{
    let s = a + seq!['\''] + inner + seq!['\''] + b + seq!['?'] + c;
    let n = a.len() as int;
    let e = n + 1 + inner.len();
    let m = e + 1 + b.len();
    let ps = seq![p];
    assert(s.subrange(0, n) =~= a);
    assert(s[n] == '\'' && s[e] == '\'' && s[m] == '?');
    assert(s.subrange(e + 1, m) =~= b);
    assert(s.subrange(m + 1, s.len() as int) =~= c);
    lemma_is_bare(a, s, 0);
    lemma_is_bare(b, s, e + 1);
    lemma_is_bare(c, s, m + 1);
    lemma_stretch(s, ps, 0, n, 0);
    assert forall|k: int| n + 1 <= k < e implies #[trigger] s[k] != '\'' by {
        assert(s[k] == inner[k - n - 1]);
        assert(inner.contains(s[k]));
    }
    assert(s[e + 1] != '\'');
    lemma_quoted_stretch(s, ps, n + 1, e, 0);
    assert(s.subrange(n + 1, e + 1) =~= inner + seq!['\'']);
    lemma_stretch(s, ps, e + 1, m, 0);
    lemma_stretch(s, ps, m + 1, s.len() as int, 1);
    let empty = Seq::<char>::empty();
    assert(a + (seq!['\''] + ((inner + seq!['\'']) + (b + (x + (c + empty))))) =~= a + seq!['\'']
        + inner + seq!['\''] + b + x + c);
}

/// The literal of a parameter reads back as its value.
pub proof fn law_parameters_read_back(t: String, n: i64, narrow: Real, b: bool)
    ensures
        sql_literal(ProximaValue::String(t)) matches Ok(s) && predicate_value(s) == Some(
            PredicateValueModel::Text(t@),
        ),
        sql_literal(ProximaValue::Symbol(t)) matches Ok(s) && predicate_value(s) == Some(
            PredicateValueModel::Text(t@),
        ),
        sql_literal(ProximaValue::Int { value: n, narrow }) matches Ok(s) && predicate_value(s)
            == Some(PredicateValueModel::Int(n as int)),
        n >= 0 ==> (sql_literal(
            ProximaValue::UInt { unsigned: n as u64, narrow },
        ) matches Ok(s) && predicate_value(s) == Some(PredicateValueModel::Int(n as int))),
        sql_literal(ProximaValue::Boolean(b)) matches Ok(s) && predicate_value(s) == Some(
            PredicateValueModel::Bool(b),
        ),
        sql_literal(ProximaValue::Null) matches Ok(s) && predicate_value(s) == Some(
            PredicateValueModel::Null,
        ),
        sql_literal(ProximaValue::Json(FilterLiteral::Bool(b))) matches Ok(s) && predicate_value(s)
            == Some(PredicateValueModel::Bool(b)),
        sql_literal(ProximaValue::Json(FilterLiteral::Integer(n))) matches Ok(s)
            && predicate_value(s) == Some(PredicateValueModel::Int(n as int)),
        sql_literal(ProximaValue::Json(FilterLiteral::Text(t))) matches Ok(s)
            && predicate_value(s) == Some(PredicateValueModel::Text(t@)),
        sql_literal(ProximaValue::Json(FilterLiteral::Structured(t))) matches Ok(s)
            && predicate_value(s) == Some(PredicateValueModel::Text(t@)),
        sql_literal(ProximaValue::Json(FilterLiteral::Null)) matches Ok(s) && predicate_value(s)
            == Some(PredicateValueModel::Null),
{
    law_literal_reads_back(t@);
    law_integers_have_their_values(n);
    lemma_words_read_back();
}

/// The words of the literals read back.
proof fn lemma_words_read_back()
    ensures
        predicate_value("TRUE"@) == Some(PredicateValueModel::Bool(true)),
        predicate_value("FALSE"@) == Some(PredicateValueModel::Bool(false)),
        predicate_value("NULL"@) == Some(PredicateValueModel::Null),
        predicate_value("true"@) == Some(PredicateValueModel::Bool(true)),
        predicate_value("false"@) == Some(PredicateValueModel::Bool(false)),
{
    reveal_strlit("TRUE");
    reveal_strlit("FALSE");
    reveal_strlit("NULL");
    reveal_strlit("true");
    reveal_strlit("false");
    assert("TRUE"@ != "FALSE"@ && "TRUE"@ != "NULL"@ && "FALSE"@ != "NULL"@) by {
        assert("TRUE"@[0] == 'T' && "FALSE"@[0] == 'F' && "NULL"@[0] == 'N');
    }
    assert(upper_text("TRUE"@) =~= "TRUE"@);
    assert(upper_text("FALSE"@) =~= "FALSE"@);
    assert(upper_text("NULL"@) =~= "NULL"@);
    assert(upper_text("true"@) =~= "TRUE"@);
    assert(upper_text("false"@) =~= "FALSE"@);
    law_words_have_their_values("TRUE"@);
    law_words_have_their_values("FALSE"@);
    law_words_have_their_values("NULL"@);
    law_words_have_their_values("true"@);
    law_words_have_their_values("false"@);
}

/// A number that is finite is its own text, one that is not is null, and a
/// vector is its text in quotes; a vector with a component that is not finite is
/// refused.
pub proof fn law_numbers_and_vectors_are_literals(
    wide: Real,
    narrow: Real,
    vector: Vec<Real>,
    i: int,
)
    ensures
        wide.finite ==> sql_literal(ProximaValue::Float64 { wide, narrow }) == Ok::<
            Seq<char>,
            Seq<char>,
        >(wide.text@),
        narrow.finite ==> sql_literal(ProximaValue::Float32 { wide, narrow }) == Ok::<
            Seq<char>,
            Seq<char>,
        >(narrow.text@),
        !wide.finite ==> sql_literal(ProximaValue::Float64 { wide, narrow }) == sql_literal(
            ProximaValue::Null,
        ),
        !narrow.finite ==> sql_literal(ProximaValue::Float32 { wide, narrow }) == sql_literal(
            ProximaValue::Null,
        ),
        (forall|k: int| 0 <= k < vector@.len() ==> (#[trigger] vector@[k]).finite) ==> sql_literal(
            ProximaValue::DenseVector(vector),
        ) == Ok::<Seq<char>, Seq<char>>(quoted(vector_text(vector@))),
        0 <= i < vector@.len() && !vector@[i].finite ==> sql_literal(
            ProximaValue::DenseVector(vector),
        ) is Err,
{
}

/// The parameter holds the value of a JSON literal: a boolean, a number or a
/// text as it is, a structure as its text, and null as the word.
pub open spec fn is_value_of(p: ParameterValue, literal: FilterLiteral) -> bool {
    match p {
        ParameterValue::Bool(b) => literal == FilterLiteral::Bool(b),
        ParameterValue::Int(n) => literal == FilterLiteral::Integer(n),
        ParameterValue::Float(y) => literal matches FilterLiteral::Number(x) && x.text@ == y.text@
            && x.finite == y.finite,
        ParameterValue::String(t) => (literal is Null && t@ == seq!['n', 'u', 'l', 'l']) || (
        literal matches FilterLiteral::Text(u) && u@ == t@) || (
        literal matches FilterLiteral::Structured(u) && u@ == t@),
        _ => false,
    }
}

/// A bound parameter is the value that was given: texts, integers, booleans and
/// nulls as themselves, floating-point numbers in double precision, and unsigned
/// numbers beyond the signed range as their digits.
pub proof fn law_parameters_keep_their_values(p: ParameterValue, value: ProximaValue)
    requires
        is_param(p, value),
    ensures
        match value {
            ProximaValue::String(t) => p matches ParameterValue::String(u) && u@ == t@,
            ProximaValue::Int { value: n, .. } => p == ParameterValue::Int(n),
            ProximaValue::UInt { unsigned: n, .. } => if n <= 0x7FFF_FFFF_FFFF_FFFF {
                p == ParameterValue::Int(n as i64)
            } else {
                p matches ParameterValue::String(u) && u@ == decimal(n as nat)
            },
            ProximaValue::Boolean(b) => p == ParameterValue::Bool(b),
            ProximaValue::Null => p is Null,
            ProximaValue::Float64 { wide, .. } => p matches ParameterValue::Float(y) && y.text@
                == wide.text@ && y.finite == wide.finite,
            ProximaValue::Float32 { wide, .. } => p matches ParameterValue::Float(y) && y.text@
                == wide.text@ && y.finite == wide.finite,
            ProximaValue::DenseVector(v) => p matches ParameterValue::Vector(w) && w@.len()
                == v@.len() && forall|i: int|
                0 <= i < v@.len() ==> (#[trigger] w@[i]).text@ == v@[i].text@,
            ProximaValue::Symbol(t) => p matches ParameterValue::String(u) && u@ == t@,
            ProximaValue::Json(FilterLiteral::Null) => p is Null,
            ProximaValue::Json(literal) => is_value_of(p, literal),
            ProximaValue::Array { literal, .. } => is_value_of(p, literal),
            ProximaValue::Other(literal) => is_value_of(p, literal),
        },
{
    reveal_strlit("null");
    assert("null"@ =~= seq!['n', 'u', 'l', 'l']);
}

/// A result is cut to the limit and loses nothing else.
pub proof fn law_results_are_cut_to_the_limit<T>(rows: Seq<T>, n: u32)
    ensures
        limited(rows, Some(n)).len() == (if rows.len() < n {
            rows.len() as int
        } else {
            n as int
        }),
        forall|i: int|
            0 <= i < limited(rows, Some(n)).len() ==> #[trigger] limited(rows, Some(n))[i]
                == rows[i],
        rows.len() <= u32::MAX ==> limited(rows, None) == rows,
{
}

/// A blank query is refused. A text that is no unified-query statement is sent
/// with its parameters bound, and a statement as it is lowered; what goes wrong
/// in the lowering is reported.
pub proof fn law_queries_are_sent(
    query: Seq<char>,
    statement: UqlStatement,
    parameters: Seq<ProximaValue>,
    limit: Option<u32>,
)
    ensures
        (forall|i: int| 0 <= i < query.len() ==> is_space(#[trigger] query[i])) ==> federated_sql(
            query,
            parameters,
        ) is Err && unified_sql(query, None, parameters, limit) is Err && unified_sql(
            query,
            Some(statement),
            parameters,
            limit,
        ) is Err,
        (exists|i: int| 0 <= i < query.len() && !is_space(#[trigger] query[i])) ==> {
            &&& federated_sql(query, Seq::empty()) == Ok::<Seq<char>, FailureModel>(query)
            &&& unified_sql(query, None, parameters, limit) == federated_sql(query, parameters)
            &&& bound_query(query, parameters) matches Ok(sql) ==> federated_sql(
                query,
                parameters,
            ) == Ok::<Seq<char>, FailureModel>(sql)
            &&& bound_query(query, parameters) is Err ==> federated_sql(query, parameters) is Err
            &&& lowered_query(Some(statement), parameters, limit) matches Ok(Some(sql))
                ==> unified_sql(query, Some(statement), parameters, limit) == Ok::<
                Seq<char>,
                FailureModel,
            >(sql)
            &&& lowered_query(Some(statement), parameters, limit) matches Err(e) ==> unified_sql(
                query,
                Some(statement),
                parameters,
                limit,
            ) matches Err(failure) && failure.message == e
        },
{
    let (a, b) = lemma_trim(query);
    if a < b {
        assert(!is_space(query[a]));
    } else if exists|i: int| 0 <= i < query.len() && !is_space(#[trigger] query[i]) {
        let i = choose|i: int| 0 <= i < query.len() && !is_space(#[trigger] query[i]);
        assert(is_space(query[i]));
    }
}

/// A request over several models is sent as the union of its components; without
/// components its `query` text is sent, and without either a constant.
pub proof fn law_multi_model_requests_are_sent(request: Json, sql: Seq<char>, text: String)
    ensures
        multi_model_sql(request) == Ok::<Option<Seq<char>>, Seq<char>>(Some(sql))
            ==> multi_model_request_sql(request) == Ok::<Seq<char>, Seq<char>>(sql),
        multi_model_sql(request) is Err ==> multi_model_request_sql(request) is Err,
        multi_model_sql(request) == Ok::<Option<Seq<char>>, Seq<char>>(None) && member(
            request,
            "query"@,
        ) == Some(Json::String(text)) ==> multi_model_request_sql(request) == Ok::<
            Seq<char>,
            Seq<char>,
        >(text@),
        multi_model_sql(request) == Ok::<Option<Seq<char>>, Seq<char>>(None) && member(
            request,
            "query"@,
        ) is None ==> multi_model_request_sql(request) == Ok::<Seq<char>, Seq<char>>(
            "SELECT 1"@,
        ),
{
}

/// The limit of a distributed request is the number it gives, where that fits.
pub proof fn law_distributed_limits_are_kept(request: Json, number: JsonNumber, n: u64)
    requires
        member(request, "limit"@) == Some(Json::Number(number)),
        number.unsigned == Some(n),
        n < 0x1_0000_0000,
    ensures
        distributed_limit(request) matches Some(limit) && limit == n,
{
}

/// A failed prepared statement is told from another by its message, which names
/// the statement.
pub proof fn law_prepared_failures_are_told_apart(id: Seq<char>, text: String)
    ensures
        prepared_failure(PreparedStatementError::NotFound, id) == "prepared statement not found: "@
            + id,
        prepared_failure(PreparedStatementError::Expired, id) == "prepared statement expired: "@
            + id,
        prepared_failure(PreparedStatementError::Other(text), id) == "prepared statement error: "@
            + text@,
{
}

/// The member of an object is the value under the key; other values have none.
pub proof fn law_members_are_found(members: Vec<(String, Json)>, key: Seq<char>, i: int)
    requires
        0 <= i < members@.len(),
        members@[i].0@ == key,
        forall|j: int| 0 <= j < i ==> (#[trigger] members@[j]).0@ != key,
    ensures
        member(Json::Object(members), key) == Some(members@[i].1),
{
    lemma_member(members@, key, 0, i);
}

proof fn lemma_member(members: Seq<(String, Json)>, key: Seq<char>, from: int, i: int)
    requires
        0 <= from <= i < members.len(),
        members[i].0@ == key,
        forall|j: int| 0 <= j < i ==> (#[trigger] members[j]).0@ != key,
    ensures
        member_from(members, key, from) == Some(members[i].1),
    decreases i - from,
{
    if from < i {
        assert(members[from].0@ != key);
        lemma_member(members, key, from + 1, i);
    }
}

} // verus!
