//! Lowering of parsed unified-query statements to federated SQL.

use vstd::prelude::*;
use vstd::string::*;
use crate::query::literal::{quoted, sql_quote};
use crate::query::values::{
    ProximaValue, is_vector, lemma_vector_literal_of_same, proxima_value_to_f32_vector, text_result,
    vector_components, vector_literal, vector_to_sql_literal,
};
use crate::text::chars::{chars_of, copied, opt_text, text_of, text_of_range, texts};
use crate::text::number::{decimal, decimal_text, signed_decimal, signed_decimal_text};
use crate::text::search::{has_part_at, replace_part, replaced, starts_with};
use crate::text::split::{join_texts, joined};

verus! {

/// The kind of data that a statement reads.
#[derive(Debug)]
pub enum DataModel {
    Vector,
    Document,
    Graph,
    Observability,
    /// A model without a lowering, by its name.
    Other(String),
}

#[derive(Debug)]
pub enum LogicOperator {
    And,
    Or,
    Not,
}

#[derive(Debug)]
pub enum ComparisonOperator {
    Eq,
    Ne,
    Lt,
    Lte,
    Gt,
    Gte,
    Like,
    Contains,
    /// An operator without a lowering, by its name.
    Other(String),
}

/// A literal of a condition.
#[derive(Debug)]
pub enum Value {
    String(String),
    Integer(i64),
    /// A floating-point number, as its text.
    Number(String),
    Boolean(bool),
    Null,
    Other,
}

#[derive(Debug)]
pub enum Condition {
    JsonPath { path: String, operator: ComparisonOperator, value: Value },
    Comparison { field: String, operator: ComparisonOperator, value: Value },
    /// The index of the parameter that holds the query vector, and the
    /// condition's description.
    VectorSimilar { query_param: usize, description: String },
    VectorDistance { query_param: usize, description: String },
    /// Another condition, by its description.
    Other(String),
}

#[derive(Debug)]
pub struct WhereClause {
    pub logic: LogicOperator,
    pub conditions: Vec<Condition>,
}

#[derive(Debug)]
pub struct SelectStatement {
    pub model: DataModel,
    pub collection: String,
    pub where_clause: Option<WhereClause>,
    pub limit: Option<u32>,
}

#[derive(Debug)]
pub enum UqlStatement {
    Select(SelectStatement),
    Explain(Box<UqlStatement>),
    MultiModal,
}

/// The filter text of a literal.
pub open spec fn filter_literal(value: Value) -> Option<Seq<char>> {
    match value {
        Value::String(t) => Some("\""@ + replaced(t@, "\""@, "\\\""@) + "\""@),
        Value::Integer(n) => Some(signed_decimal(n as int)),
        Value::Number(t) => Some(t@),
        Value::Boolean(b) => Some(
            if b {
                "true"@
            } else {
                "false"@
            },
        ),
        Value::Null => Some("null"@),
        Value::Other => None,
    }
}

/// The filter spelling of an operator.
pub open spec fn filter_operator(operator: ComparisonOperator) -> Option<Seq<char>> {
    match operator {
        ComparisonOperator::Eq => Some("="@),
        ComparisonOperator::Ne => Some("!="@),
        ComparisonOperator::Lt => Some("<"@),
        ComparisonOperator::Lte => Some("<="@),
        ComparisonOperator::Gt => Some(">"@),
        ComparisonOperator::Gte => Some(">="@),
        ComparisonOperator::Like => Some("CONTAINS"@),
        ComparisonOperator::Contains => Some("CONTAINS"@),
        ComparisonOperator::Other(_) => None,
    }
}

/// The name of an operator without a lowering.
pub open spec fn operator_name(operator: ComparisonOperator) -> Seq<char> {
    match operator {
        ComparisonOperator::Other(name) => name@,
        _ => Seq::empty(),
    }
}

/// A path without its root.
pub open spec fn field_of_path(path: Seq<char>) -> Seq<char> {
    if starts_with(path, "$."@) {
        path.skip(2)
    } else {
        path
    }
}

/// The filter text of a comparison.
pub open spec fn comparison_text(
    path: Seq<char>,
    operator: ComparisonOperator,
    value: Value,
) -> Result<Seq<char>, Seq<char>> {
    match filter_operator(operator) {
        None => Err(
            "UQL document lowering does not support operator "@ + operator_name(operator),
        ),
        Some(op) => match filter_literal(value) {
            None => Err("UQL document lowering only supports scalar filter values"@),
            Some(literal) => Ok(field_of_path(path) + " "@ + op + " "@ + literal),
        },
    }
}

/// The filter text of a condition.
pub open spec fn condition_text(condition: Condition) -> Result<Seq<char>, Seq<char>> {
    match condition {
        Condition::JsonPath { path, operator, value } => comparison_text(path@, operator, value),
        Condition::Comparison { field, operator, value } => comparison_text(
            field@,
            operator,
            value,
        ),
        Condition::VectorSimilar { description, .. } => Err(unsupported_condition(description@)),
        Condition::VectorDistance { description, .. } => Err(unsupported_condition(description@)),
        Condition::Other(description) => Err(unsupported_condition(description@)),
    }
}

pub open spec fn unsupported_condition(description: Seq<char>) -> Seq<char> {
    "UQL document lowering does not support condition "@ + description
}

/// The texts of the conditions, or the error of the first without one.
pub open spec fn condition_texts(conditions: Seq<Condition>) -> Result<Seq<Seq<char>>, Seq<char>>
    decreases conditions.len(),
{
    if conditions.len() == 0 {
        Ok(Seq::empty())
    } else {
        match condition_texts(conditions.drop_last()) {
            Err(e) => Err(e),
            Ok(earlier) => match condition_text(conditions.last()) {
                Err(e) => Err(e),
                Ok(text) => Ok(earlier.push(text)),
            },
        }
    }
}

/// The filter of a statement on documents.
pub open spec fn document_filter(select: SelectStatement) -> Result<Seq<char>, Seq<char>> {
    match select.where_clause {
        None => Ok(Seq::empty()),
        Some(clause) => if !(clause.logic is And) {
            Err("UQL document lowering currently supports AND filters only"@)
        } else {
            match condition_texts(clause.conditions@) {
                Err(e) => Err(e),
                Ok(parts) => Ok(joined(parts, " AND "@)),
            }
        },
    }
}

fn value_to_filter_literal(value: &Value) -> (r: Option<String>)
    ensures
        opt_text(r) == filter_literal(*value),
{
    match value {
        Value::String(t) => {
            proof {
                reveal_strlit("\"");
            }
            let s: Vec<char> = chars_of(t.as_str());
            let one: Vec<char> = chars_of("\"");
            let two: Vec<char> = chars_of("\\\"");
            let escaped: Vec<char> = replace_part(s.as_slice(), one.as_slice(), two.as_slice());
            let escaped: String = text_of(escaped.as_slice());
            let mut r: String = "\"".to_owned();
            r.append(escaped.as_str());
            r.append("\"");
            Some(r)
        },
        Value::Integer(n) => Some(signed_decimal_text(*n)),
        Value::Number(t) => Some(copied(t)),
        Value::Boolean(b) => Some(
            if *b {
                "true".to_owned()
            } else {
                "false".to_owned()
            },
        ),
        Value::Null => Some("null".to_owned()),
        Value::Other => None,
    }
}

fn comparison_operator_to_filter(operator: &ComparisonOperator) -> (r: Option<&'static str>)
    ensures
        r is Some <==> filter_operator(*operator) is Some,
        r is Some ==> filter_operator(*operator) == Some(r->0@),
{
    match operator {
        ComparisonOperator::Eq => Some("="),
        ComparisonOperator::Ne => Some("!="),
        ComparisonOperator::Lt => Some("<"),
        ComparisonOperator::Lte => Some("<="),
        ComparisonOperator::Gt => Some(">"),
        ComparisonOperator::Gte => Some(">="),
        ComparisonOperator::Like => Some("CONTAINS"),
        ComparisonOperator::Contains => Some("CONTAINS"),
        ComparisonOperator::Other(_) => None,
    }
}

fn lower_comparison(path: &String, operator: &ComparisonOperator, value: &Value) -> (r: Result<
    String,
    String,
>)
    ensures
        text_result(r) == comparison_text(path@, *operator, *value),
{
    proof {
        reveal_strlit("$.");
    }
    let op: &'static str = match comparison_operator_to_filter(operator) {
        Some(op) => op,
        None => {
            let mut e: String = "UQL document lowering does not support operator ".to_owned();
            if let ComparisonOperator::Other(name) = operator {
                e.append(name.as_str());
            }
            return Err(e);
        },
    };
    let literal: String = match value_to_filter_literal(value) {
        Some(literal) => literal,
        None => {
            return Err("UQL document lowering only supports scalar filter values".to_owned());
        },
    };
    let s: Vec<char> = chars_of(path.as_str());
    let root: Vec<char> = chars_of("$.");
    let from: usize = if has_part_at(s.as_slice(), 0, root.as_slice()) {
        2
    } else {
        0
    };
    let n: usize = s.len();
    let mut r: String = text_of_range(s.as_slice(), from, n);
    assert(r@ =~= field_of_path(path@));
    r.append(" ");
    r.append(op);
    r.append(" ");
    r.append(literal.as_str());
    Ok(r)
}

fn unsupported_condition_message(description: &String) -> (r: String)
    ensures
        r@ == unsupported_condition(description@),
{
    let mut r: String = "UQL document lowering does not support condition ".to_owned();
    r.append(description.as_str());
    r
}

fn lower_condition(condition: &Condition) -> (r: Result<String, String>)
    ensures
        text_result(r) == condition_text(*condition),
{
    match condition {
        Condition::JsonPath { path, operator, value } => lower_comparison(path, operator, value),
        Condition::Comparison { field, operator, value } => lower_comparison(
            field,
            operator,
            value,
        ),
        Condition::VectorSimilar { description, .. } => Err(
            unsupported_condition_message(description),
        ),
        Condition::VectorDistance { description, .. } => Err(
            unsupported_condition_message(description),
        ),
        Condition::Other(description) => Err(unsupported_condition_message(description)),
    }
}

/// The error of an early condition is the error of the list.
proof fn lemma_condition_error(conditions: Seq<Condition>, k: int)
    requires
        0 <= k <= conditions.len(),
        condition_texts(conditions.take(k)) is Err,
    ensures
        condition_texts(conditions) == condition_texts(conditions.take(k)),
    decreases conditions.len() - k,
{
    if k < conditions.len() {
        assert(conditions.take(k + 1).drop_last() =~= conditions.take(k));
        lemma_condition_error(conditions, k + 1);
    } else {
        assert(conditions.take(k) =~= conditions);
    }
}

/// The filter of a statement on documents.
pub fn document_filter_from_select(select: &SelectStatement) -> (r: Result<String, String>)
    ensures
        text_result(r) == document_filter(*select),
{
    let clause: &WhereClause = match &select.where_clause {
        None => {
            return Ok(String::new());
        },
        Some(clause) => clause,
    };
    match clause.logic {
        LogicOperator::And => {},
        _ => {
            return Err("UQL document lowering currently supports AND filters only".to_owned());
        },
    }
    let ghost conditions = clause.conditions@;
    let mut parts: Vec<String> = Vec::new();
    let mut i: usize = 0;
    assert(conditions.take(0) =~= Seq::<Condition>::empty());
    assert(texts(parts@) =~= Seq::<Seq<char>>::empty());
    while i < clause.conditions.len()
        invariant
            i <= clause.conditions@.len(),
            select.where_clause matches Some(c) && c == *clause,
            clause.logic is And,
            conditions == clause.conditions@,
            condition_texts(conditions.take(i as int)) == Ok::<Seq<Seq<char>>, Seq<char>>(
                texts(parts@),
            ),
        decreases clause.conditions@.len() - i,
    {
        assert(conditions.take(i + 1).drop_last() =~= conditions.take(i as int));
        assert(conditions.take(i + 1).last() == conditions[i as int]);
        match lower_condition(&clause.conditions[i]) {
            Err(e) => {
                proof {
                    lemma_condition_error(conditions, i + 1);
                }
                return Err(e);
            },
            Ok(text) => {
                let ghost before = texts(parts@);
                parts.push(text);
                assert(texts(parts@) =~= before.push(text@));
            },
        }
        i += 1;
    }
    assert(conditions.take(conditions.len() as int) =~= conditions);
    Ok(join_texts(parts.as_slice(), " AND "))
}

/// The index of the parameter of the first vector condition from index `i` on.
pub open spec fn vector_param_from(conditions: Seq<Condition>, i: int) -> Option<usize>
    decreases conditions.len() - i,
{
    if i < 0 || i >= conditions.len() {
        None
    } else {
        match conditions[i] {
            Condition::VectorSimilar { query_param, .. } => Some(query_param),
            Condition::VectorDistance { query_param, .. } => Some(query_param),
            _ => vector_param_from(conditions, i + 1),
        }
    }
}

/// The index of the parameter that holds the query vector.
pub open spec fn vector_param(select: SelectStatement) -> Option<usize> {
    match select.where_clause {
        None => None,
        Some(clause) => vector_param_from(clause.conditions@, 0),
    }
}

fn query_vector_param(select: &SelectStatement) -> (r: Option<usize>)
    ensures
        r == vector_param(*select),
{
    match &select.where_clause {
        None => None,
        Some(clause) => {
            let mut i: usize = 0;
            while i < clause.conditions.len()
                invariant
                    i <= clause.conditions@.len(),
                    select.where_clause matches Some(c) && c == *clause,
                    vector_param(*select) == vector_param_from(clause.conditions@, i as int),
                decreases clause.conditions@.len() - i,
            {
                match &clause.conditions[i] {
                    Condition::VectorSimilar { query_param, .. } => {
                        return Some(*query_param);
                    },
                    Condition::VectorDistance { query_param, .. } => {
                        return Some(*query_param);
                    },
                    _ => {},
                }
                i += 1;
            }
            None
        },
    }
}

/// The number of rows asked for: the request's own, the statement's, or 10.
pub open spec fn row_limit(select: SelectStatement, request_limit: Option<u32>) -> u32 {
    match request_limit {
        Some(n) => n,
        None => match select.limit {
            Some(n) => n,
            None => 10,
        },
    }
}

/// The literal of the query vector.
pub open spec fn query_vector(
    select: SelectStatement,
    parameters: Seq<ProximaValue>,
) -> Result<Seq<char>, Seq<char>> {
    match vector_param(select) {
        None => Err(
            "UQL vector queries require VECTOR_SIMILAR(...) or VECTOR_DISTANCE(...)"@,
        ),
        Some(k) => if k < parameters.len() && is_vector(parameters[k as int]) {
            let components = vector_components(parameters[k as int]);
            if components.len() == 0 {
                Err("UQL vector query parameter cannot be empty"@)
            } else {
                vector_literal(components)
            }
        } else {
            Err(
                "UQL vector query parameter $"@ + decimal((k + 1) as nat)
                    + " must be a numeric vector"@,
            )
        },
    }
}

/// The federated SQL of a `SELECT` statement.
pub open spec fn lowered_select(
    select: SelectStatement,
    parameters: Seq<ProximaValue>,
    request_limit: Option<u32>,
) -> Result<Seq<char>, Seq<char>> {
    let collection = quoted(select.collection@);
    let limit = decimal(row_limit(select, request_limit) as nat);
    match select.model {
        DataModel::Vector => match query_vector(select, parameters) {
            Err(e) => Err(e),
            Ok(vector) => Ok(
                "SELECT * FROM VECTOR_SEARCH("@ + collection + ", "@ + vector + ", "@ + limit
                    + ")"@,
            ),
        },
        DataModel::Document => match document_filter(select) {
            Err(e) => Err(e),
            Ok(filter) => Ok(
                "SELECT * FROM DOCUMENT_QUERY("@ + collection + ", "@ + quoted(filter)
                    + ") LIMIT "@ + limit,
            ),
        },
        DataModel::Observability => Ok("SELECT * FROM LOGS("@ + collection + ") LIMIT "@ + limit),
        DataModel::Graph => Err(
            "UQL graph SELECT lowering requires GRAPH_QUERY(...) support; use federated GRAPH_QUERY SQL for now"@,
        ),
        DataModel::Other(name) => Err(
            "UQL lowering does not support data model "@ + name@
                + " through the federated executor"@,
        ),
    }
}

/// The federated SQL of a statement.
pub open spec fn lowered_statement(
    statement: UqlStatement,
    parameters: Seq<ProximaValue>,
    request_limit: Option<u32>,
) -> Result<Seq<char>, Seq<char>> {
    match statement {
        UqlStatement::Select(select) => lowered_select(select, parameters, request_limit),
        UqlStatement::Explain(inner) => match *inner {
            UqlStatement::Select(select) => lowered_select(select, parameters, request_limit),
            _ => Err("UQL EXPLAIN lowering currently supports SELECT statements only"@),
        },
        UqlStatement::MultiModal => Err(
            "UQL MULTIMODAL lowering is not yet wired to FederatedQueryContext"@,
        ),
    }
}

fn query_vector_literal(select: &SelectStatement, parameters: &Vec<ProximaValue>) -> (r: Result<
    String,
    String,
>)
    ensures
        text_result(r) == query_vector(*select, parameters@),
{
    let k: usize = match query_vector_param(select) {
        None => {
            return Err(
                "UQL vector queries require VECTOR_SIMILAR(...) or VECTOR_DISTANCE(...)".to_owned(),
            );
        },
        Some(k) => k,
    };
    if k < parameters.len() {
        if let Some(vector) = proxima_value_to_f32_vector(&parameters[k]) {
            proof {
                lemma_vector_literal_of_same(vector@, vector_components(parameters@[k as int]));
            }
            if vector.len() == 0 {
                return Err("UQL vector query parameter cannot be empty".to_owned());
            }
            return vector_to_sql_literal(&vector);
        }
    }
    let mut e: String = "UQL vector query parameter $".to_owned();
    let number: String = decimal_text(k as u128 + 1);
    e.append(number.as_str());
    e.append(" must be a numeric vector");
    Err(e)
}

fn lower_select(
    select: &SelectStatement,
    parameters: &Vec<ProximaValue>,
    request_limit: Option<u32>,
) -> (r: Result<String, String>)
    ensures
        text_result(r) == lowered_select(*select, parameters@, request_limit),
{
    let limit: u32 = match request_limit {
        Some(n) => n,
        None => match select.limit {
            Some(n) => n,
            None => 10,
        },
    };
    let limit: String = decimal_text(limit as u128);
    let collection: String = sql_quote(select.collection.as_str());
    match &select.model {
        DataModel::Vector => match query_vector_literal(select, parameters) {
            Err(e) => Err(e),
            Ok(vector) => {
                let mut r: String = "SELECT * FROM VECTOR_SEARCH(".to_owned();
                r.append(collection.as_str());
                r.append(", ");
                r.append(vector.as_str());
                r.append(", ");
                r.append(limit.as_str());
                r.append(")");
                Ok(r)
            },
        },
        DataModel::Document => match document_filter_from_select(select) {
            Err(e) => Err(e),
            Ok(filter) => {
                let filter: String = sql_quote(filter.as_str());
                let mut r: String = "SELECT * FROM DOCUMENT_QUERY(".to_owned();
                r.append(collection.as_str());
                r.append(", ");
                r.append(filter.as_str());
                r.append(") LIMIT ");
                r.append(limit.as_str());
                Ok(r)
            },
        },
        DataModel::Observability => {
            let mut r: String = "SELECT * FROM LOGS(".to_owned();
            r.append(collection.as_str());
            r.append(") LIMIT ");
            r.append(limit.as_str());
            Ok(r)
        },
        DataModel::Graph => Err(
            "UQL graph SELECT lowering requires GRAPH_QUERY(...) support; use federated GRAPH_QUERY SQL for now".to_owned(),
        ),
        DataModel::Other(name) => {
            let mut e: String = "UQL lowering does not support data model ".to_owned();
            e.append(name.as_str());
            e.append(" through the federated executor");
            Err(e)
        },
    }
}

/// The federated SQL of a parsed query. A query that is no unified-query
/// statement has none.
pub open spec fn lowered_query(
    parsed: Option<UqlStatement>,
    parameters: Seq<ProximaValue>,
    request_limit: Option<u32>,
) -> Result<Option<Seq<char>>, Seq<char>> {
    match parsed {
        None => Ok(None),
        Some(statement) => match lowered_statement(statement, parameters, request_limit) {
            Ok(sql) => Ok(Some(sql)),
            Err(e) => Err(e),
        },
    }
}

/// The model of a result whose value is an optional text.
pub open spec fn opt_text_result(r: Result<Option<String>, String>) -> Result<
    Option<Seq<char>>,
    Seq<char>,
> {
    match r {
        Ok(t) => Ok(opt_text(t)),
        Err(e) => Err(e@),
    }
}

/// Lowers a query to federated SQL, from what the query parser made of it.
pub fn uql_to_federated_sql(
    parsed: &Option<UqlStatement>,
    parameters: &Vec<ProximaValue>,
    request_limit: Option<u32>,
) -> (r: Result<Option<String>, String>)
    ensures
        opt_text_result(r) == lowered_query(*parsed, parameters@, request_limit),
{
    let statement: &UqlStatement = match parsed {
        None => {
            return Ok(None);
        },
        Some(statement) => statement,
    };
    let select: &SelectStatement = match statement {
        UqlStatement::Select(select) => select,
        UqlStatement::Explain(inner) => match &**inner {
            UqlStatement::Select(select) => select,
            _ => {
                return Err(
                    "UQL EXPLAIN lowering currently supports SELECT statements only".to_owned(),
                );
            },
        },
        UqlStatement::MultiModal => {
            return Err(
                "UQL MULTIMODAL lowering is not yet wired to FederatedQueryContext".to_owned(),
            );
        },
    };
    match lower_select(select, parameters, request_limit) {
        Ok(sql) => Ok(Some(sql)),
        Err(e) => Err(e),
    }
}

} // verus!
