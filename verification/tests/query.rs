//! Lowering of query requests to SQL.

use proximadb::query::bind::bind_federated_sql_parameters;
use proximadb::query::explain::{
    collect_quoted_first_args, explain_catalog_targets, explain_lookup_targets,
};
use proximadb::query::json::{Json, JsonNumber, get_member, get_text};
use proximadb::query::literal::{escape_sql_text, sql_quote};
use proximadb::query::multimodel::json_to_multi_model_sql;
use proximadb::query::port::{
    PreparedStatementError, UnifiedQueryPortImpl, distributed_query_request,
    execute_federated_query_sql, execute_multi_model_query_sql, execute_unified_query_sql,
    limit_rows, prepared_statement_message,
};
use proximadb::query::uql::{
    ComparisonOperator, Condition, DataModel, LogicOperator, SelectStatement, UqlStatement, Value,
    WhereClause, document_filter_from_select, uql_to_federated_sql,
};
use proximadb::query::values::{
    FilterLiteral, ParameterValue, ProximaValue, Real, proxima_value_to_f32_vector,
    proxima_value_to_param, proxima_value_to_sql_literal, proxima_values_to_params,
    vector_literal_text, vector_to_sql_literal,
};
use std::sync::Arc;

fn narrow(x: f32) -> Real {
    Real { text: x.to_string(), finite: x.is_finite() }
}

fn wide(x: f64) -> Real {
    Real { text: x.to_string(), finite: x.is_finite() }
}

fn whole(n: i64) -> ProximaValue {
    ProximaValue::Int { value: n, narrow: narrow(n as f32) }
}

fn unsigned(n: u64) -> ProximaValue {
    ProximaValue::UInt { unsigned: n, narrow: narrow(n as f32) }
}

fn float(x: f64) -> ProximaValue {
    ProximaValue::Float64 { wide: wide(x), narrow: narrow(x as f32) }
}

fn single(x: f32) -> ProximaValue {
    ProximaValue::Float32 { wide: wide(f64::from(x)), narrow: narrow(x) }
}

fn vector(values: &[f32]) -> ProximaValue {
    ProximaValue::DenseVector(values.iter().map(|x| narrow(*x)).collect())
}

fn array(items: Vec<ProximaValue>, text: &str) -> ProximaValue {
    ProximaValue::Array { items, literal: FilterLiteral::Structured(text.to_string()) }
}

fn json_of(value: &serde_json::Value) -> Json {
    match value {
        serde_json::Value::Null => Json::Null,
        serde_json::Value::Bool(b) => Json::Bool(*b),
        serde_json::Value::Number(n) => Json::Number(JsonNumber {
            unsigned: n.as_u64(),
            narrow: n
                .as_f64()
                .map(|x| x as f32)
                .filter(|x| x.is_finite())
                .map(|x| x.to_string()),
        }),
        serde_json::Value::String(t) => Json::String(t.clone()),
        serde_json::Value::Array(items) => Json::Array(items.iter().map(json_of).collect()),
        serde_json::Value::Object(members) => Json::Object(
            members
                .iter()
                .map(|(k, v)| (k.clone(), json_of(v)))
                .collect(),
        ),
    }
}

fn json(text: &str) -> Json {
    json_of(&serde_json::from_str(text).expect("valid JSON"))
}

fn vector_select(limit: Option<u32>) -> Option<UqlStatement> {
    Some(UqlStatement::Select(SelectStatement {
        model: DataModel::Vector,
        collection: "products".to_string(),
        where_clause: Some(WhereClause {
            logic: LogicOperator::And,
            conditions: vec![Condition::VectorSimilar {
                query_param: 0,
                description: "VECTOR_SIMILAR(embedding, ?, 0.8)".to_string(),
            }],
        }),
        limit,
    }))
}

fn document_select(conditions: Vec<Condition>, limit: Option<u32>) -> SelectStatement {
    SelectStatement {
        model: DataModel::Document,
        collection: "orders".to_string(),
        where_clause: Some(WhereClause { logic: LogicOperator::And, conditions }),
        limit,
    }
}

fn path_condition(path: &str, operator: ComparisonOperator, value: Value) -> Condition {
    Condition::JsonPath { path: path.to_string(), operator, value }
}

#[test]
fn test_proxima_value_to_param_string() {
    let value = ProximaValue::String("hello".into());
    assert!(matches!(proxima_value_to_param(&value), ParameterValue::String(s) if s == "hello"));
}

#[test]
fn test_proxima_value_to_param_int() {
    let value = whole(42);
    assert!(matches!(proxima_value_to_param(&value), ParameterValue::Int(42)));
}

#[test]
fn test_proxima_value_to_param_composites() {
    let value = array(vec![whole(1), whole(2)], "[1,2]");
    assert!(matches!(
        proxima_value_to_param(&value),
        ParameterValue::String(s) if s == "[1,2]"
    ));
}

#[test]
fn test_uql_vector_select_lowers_to_federated_vector_search() {
    let sql = uql_to_federated_sql(
        &vector_select(Some(7)),
        &vec![array(vec![float(0.1), float(0.2), float(0.3)], "[0.1,0.2,0.3]")],
        None,
    )
    .expect("lowering should succeed")
    .expect("query should lower");

    assert_eq!(sql, "SELECT * FROM VECTOR_SEARCH('products', '[0.1,0.2,0.3]', 7)");
}

#[test]
fn test_uql_vector_select_uses_request_limit_override() {
    let sql = uql_to_federated_sql(&vector_select(Some(7)), &vec![vector(&[0.1, 0.2])], Some(3))
        .expect("lowering should succeed")
        .expect("query should lower");

    assert_eq!(sql, "SELECT * FROM VECTOR_SEARCH('products', '[0.1,0.2]', 3)");
}

#[test]
fn uql_vector_select_rejects_non_finite_components() {
    let error = uql_to_federated_sql(&vector_select(None), &vec![vector(&[f32::NAN])], None)
        .expect_err("non-finite UQL vector must fail closed");

    assert!(error.contains("finite"));
}

#[test]
fn test_uql_document_select_lowers_to_document_query() {
    let select = document_select(
        vec![path_condition(
            "$.status",
            ComparisonOperator::Eq,
            Value::String("pending".to_string()),
        )],
        Some(5),
    );
    let sql = uql_to_federated_sql(&Some(UqlStatement::Select(select)), &vec![], None)
        .expect("lowering should succeed")
        .expect("query should lower");

    assert_eq!(sql, "SELECT * FROM DOCUMENT_QUERY('orders', 'status = \"pending\"') LIMIT 5");
}

#[test]
fn test_non_uql_query_is_left_for_federated_sql() {
    assert!(
        uql_to_federated_sql(&None, &vec![], None)
            .expect("non-UQL parse errors should not fail")
            .is_none()
    );
}

#[test]
fn test_bind_federated_sql_parameters_vector_and_limit() {
    let sql = bind_federated_sql_parameters(
        "SELECT * FROM VECTOR_SEARCH('products', ?, ?)",
        &vec![vector(&[0.1, 0.2, 0.3]), whole(5)],
    )
    .expect("parameters should bind");

    assert_eq!(sql, "SELECT * FROM VECTOR_SEARCH('products', '[0.1,0.2,0.3]', 5)");
}

#[test]
fn bind_federated_sql_parameters_rejects_non_finite_vectors() {
    let error = bind_federated_sql_parameters(
        "SELECT * FROM VECTOR_SEARCH('products', ?, 5)",
        &vec![vector(&[f32::NAN])],
    )
    .expect_err("non-finite vectors must fail closed");

    assert!(error.contains("finite"));
}

#[test]
fn test_bind_federated_sql_parameters_ignores_question_marks_in_strings() {
    let sql = bind_federated_sql_parameters(
        "SELECT * FROM DOCUMENT_QUERY('docs', 'title = \"why?\" AND status = ?') WHERE id = ?",
        &vec![ProximaValue::String("doc-1".to_string())],
    )
    .expect("only the placeholder outside the quoted filter should bind");

    assert_eq!(
        sql,
        "SELECT * FROM DOCUMENT_QUERY('docs', 'title = \"why?\" AND status = ?') WHERE id = 'doc-1'"
    );
}

#[test]
fn test_bind_federated_sql_parameters_rejects_missing_parameter() {
    let error = bind_federated_sql_parameters(
        "SELECT * FROM VECTOR_SEARCH('products', ?, ?)",
        &vec![vector(&[0.1])],
    )
    .expect_err("missing placeholder parameter should fail");

    assert!(error.contains("missing parameter 2"));
}

#[test]
fn test_bind_federated_sql_parameters_rejects_unused_parameter() {
    let error = bind_federated_sql_parameters(
        "SELECT * FROM VECTOR_SEARCH('products', '[0.1]', 1)",
        &vec![whole(1)],
    )
    .expect_err("unused parameter should fail");

    assert!(error.contains("only used 0 placeholders"));
}

#[test]
fn test_proxima_value_to_param_null() {
    let value = ProximaValue::Null;
    assert!(matches!(proxima_value_to_param(&value), ParameterValue::Null));
}

#[test]
fn test_json_to_multi_model_sql_vector() {
    let req = json(
        r#"{
            "components": [
                {
                    "component_type": "vector",
                    "config": {
                        "collection": "embeddings",
                        "query_vector": [0.1, 0.2, 0.3],
                        "top_k": 5
                    }
                }
            ]
        }"#,
    );
    let sql = json_to_multi_model_sql(&req).unwrap().unwrap();
    assert_eq!(sql, "SELECT * FROM VECTOR_SEARCH('embeddings', '[0.1,0.2,0.3]', 5)");
}

#[test]
fn json_to_multi_model_sql_escapes_every_text_argument() {
    let req = json(
        r#"{
            "components": [
                {
                    "component_type": "vector",
                    "config": {"collection": "team's-vectors", "query_vector": [0.1]}
                },
                {
                    "component_type": "document",
                    "config": {"collection": "team's-docs", "filter": "owner = \"O'Brien\""}
                },
                {
                    "component_type": "graph",
                    "config": {"cypher": "MATCH (n) RETURN 'label'"}
                },
                {
                    "component_type": "observability",
                    "config": {"namespace": "team's-production"}
                }
            ]
        }"#,
    );

    let sql = json_to_multi_model_sql(&req).unwrap().unwrap();
    assert!(sql.contains("VECTOR_SEARCH('team''s-vectors'"));
    assert!(sql.contains("DOCUMENT_QUERY('team''s-docs', 'owner = \"O''Brien\"')"));
    assert!(sql.contains("GRAPH_QUERY('MATCH (n) RETURN ''label''')"));
    assert!(sql.contains("LOGS('team''s-production')"));
}

#[test]
fn json_to_multi_model_sql_rejects_non_numeric_vector_elements() {
    let req = json(
        r#"{
            "components": [{
                "component_type": "vector",
                "config": {"collection": "vectors", "query_vector": [0.1, "bad", 0.3]}
            }]
        }"#,
    );

    let error = json_to_multi_model_sql(&req).expect_err("invalid vector must fail closed");
    assert!(error.contains("query_vector[1]"));
}

#[test]
fn json_to_multi_model_sql_requires_document_collection() {
    let req = json(
        r#"{
            "components": [{
                "component_type": "document",
                "config": {"filter": "active = true"}
            }]
        }"#,
    );
    let error = json_to_multi_model_sql(&req).expect_err("collection must be explicit");
    assert!(error.contains("components[0].config.collection is required"));
}

#[test]
fn json_to_multi_model_sql_rejects_values_outside_f32_range() {
    let req = json(
        r#"{
            "components": [{
                "component_type": "vector",
                "config": {"collection": "vectors", "query_vector": [1e300]}
            }]
        }"#,
    );

    let error = json_to_multi_model_sql(&req).expect_err("infinite f32 must fail closed");
    assert!(error.contains("finite f32"));
}

#[test]
fn test_json_to_multi_model_sql_empty_components() {
    let req = json(r#"{ "components": [] }"#);
    assert!(json_to_multi_model_sql(&req).unwrap().is_none());
}

#[test]
fn test_json_to_multi_model_sql_no_components_field() {
    let req = json(r#"{ "query": "SELECT 1" }"#);
    assert!(json_to_multi_model_sql(&req).unwrap().is_none());
}

#[test]
fn test_explain_catalog_targets_extracts_from_sql_and_functions() {
    let targets = explain_catalog_targets(
        "SELECT * FROM default.docs d JOIN graph.edges e ON d.id = e.src \
         UNION ALL SELECT * FROM VECTOR_SEARCH('vectors', '[0.1]', 10)",
    );

    assert!(targets.contains(&"default.docs".to_string()));
    assert!(targets.contains(&"graph.edges".to_string()));
    assert!(targets.contains(&"vectors".to_string()));
}

#[test]
fn lookups_name_each_target_once() {
    let targets = explain_lookup_targets(Some(" docs "), "SELECT * FROM docs JOIN b ON true");
    assert_eq!(targets, ["b", "docs"]);
    assert_eq!(explain_lookup_targets(Some("  "), "SELECT 1").len(), 0);
    assert_eq!(explain_lookup_targets(None, "SELECT * FROM a;"), ["a"]);
}

#[test]
fn quoted_first_arguments_are_collected() {
    let mut targets = Vec::new();
    collect_quoted_first_args(
        "SELECT LOGS('a''b'), xLOGS('no'), logs /* c */ ( \"d\" ), 'LOGS(''e'')', LOGS(f)",
        "LOGS",
        &mut targets,
    );
    assert_eq!(targets, ["a'b", "d"]);
}

#[test]
fn literals_read_back() {
    assert_eq!(escape_sql_text("O'Brien"), "O''Brien");
    assert_eq!(sql_quote("it's 'x'"), "'it''s ''x'''");
    assert_eq!(sql_quote(""), "''");
    let quoted = sql_quote("a''b");
    assert_eq!(quoted[1..quoted.len() - 1].replace("''", "'"), "a''b");
}

#[test]
fn values_have_literals() {
    let literal = |v: ProximaValue| proxima_value_to_sql_literal(&v).unwrap();
    assert_eq!(literal(ProximaValue::String("O'B".to_string())), "'O''B'");
    assert_eq!(literal(ProximaValue::Symbol("s".to_string())), "'s'");
    assert_eq!(literal(whole(i64::MIN)), "-9223372036854775808");
    assert_eq!(literal(unsigned(u64::MAX)), "18446744073709551615");
    assert_eq!(literal(single(0.1)), "0.1");
    assert_eq!(literal(float(2.5)), "2.5");
    assert_eq!(literal(float(f64::INFINITY)), "NULL");
    assert_eq!(literal(ProximaValue::Boolean(true)), "TRUE");
    assert_eq!(literal(ProximaValue::Boolean(false)), "FALSE");
    assert_eq!(literal(ProximaValue::Null), "NULL");
    assert_eq!(literal(array(vec![whole(1), float(0.5)], "[1,0.5]")), "'[1,0.5]'");
    assert_eq!(
        literal(array(vec![ProximaValue::String("a".to_string())], "[\"a\"]")),
        "'[\"a\"]'"
    );
    assert_eq!(literal(ProximaValue::Json(FilterLiteral::Null)), "NULL");
    assert_eq!(literal(ProximaValue::Other(FilterLiteral::Bool(true))), "true");
    assert_eq!(literal(ProximaValue::Other(FilterLiteral::Integer(-3))), "-3");
    assert_eq!(literal(ProximaValue::Other(FilterLiteral::Number(wide(1.5)))), "1.5");
    assert_eq!(literal(ProximaValue::Other(FilterLiteral::Text("u".to_string()))), "'u'");
}

#[test]
fn values_have_parameters() {
    assert!(matches!(proxima_value_to_param(&unsigned(7)), ParameterValue::Int(7)));
    assert!(matches!(
        proxima_value_to_param(&unsigned(u64::MAX)),
        ParameterValue::String(s) if s == "18446744073709551615"
    ));
    assert!(matches!(
        proxima_value_to_param(&float(0.5)),
        ParameterValue::Float(x) if x.text == "0.5" && x.finite
    ));
    assert!(matches!(
        proxima_value_to_param(&single(0.1)),
        ParameterValue::Float(x) if x.text == "0.10000000149011612" && x.finite
    ));
    assert!(matches!(
        proxima_value_to_param(&vector(&[1.0])),
        ParameterValue::Vector(v) if v.len() == 1 && v[0].text == "1"
    ));
    assert!(matches!(
        proxima_value_to_param(&ProximaValue::Json(FilterLiteral::Null)),
        ParameterValue::Null
    ));
    assert!(matches!(
        proxima_value_to_param(&ProximaValue::Boolean(true)),
        ParameterValue::Bool(true)
    ));
    assert_eq!(proxima_values_to_params(None).len(), 0);
    assert_eq!(proxima_values_to_params(Some(vec![whole(1), whole(2)])).len(), 2);
}

#[test]
fn vectors_are_read_from_arrays_of_numbers() {
    let read = proxima_value_to_f32_vector(&array(vec![whole(1), unsigned(2), float(0.5)], "[]")).unwrap();
    assert_eq!(vector_literal_text(&read), "[1,2,0.5]");
    assert!(proxima_value_to_f32_vector(&array(vec![ProximaValue::Null], "[]")).is_none());
    assert!(proxima_value_to_f32_vector(&whole(1)).is_none());
    assert_eq!(vector_to_sql_literal(&vec![]).unwrap(), "'[]'");
    assert!(vector_to_sql_literal(&vec![narrow(f32::INFINITY)]).is_err());
}

#[test]
fn every_parameter_fills_one_placeholder() {
    assert_eq!(
        bind_federated_sql_parameters("? -- ?\n+ 1", &vec![whole(1), whole(2)]).unwrap(),
        "1 -- 2\n+ 1"
    );
    assert_eq!(
        bind_federated_sql_parameters("'it''s ?' = ?", &vec![ProximaValue::Null]).unwrap(),
        "'it''s ?' = NULL"
    );
    assert!(bind_federated_sql_parameters("'a'", &vec![whole(1)]).is_err());
    assert_eq!(bind_federated_sql_parameters("?", &vec![]).unwrap(), "?");
}

#[test]
fn document_filters_join_their_conditions() {
    let select = document_select(
        vec![
            path_condition("$.a", ComparisonOperator::Gte, Value::Integer(3)),
            Condition::Comparison {
                field: "b".to_string(),
                operator: ComparisonOperator::Ne,
                value: Value::Boolean(true),
            },
            path_condition("$.c", ComparisonOperator::Like, Value::Number("1.5".to_string())),
        ],
        None,
    );
    assert_eq!(
        document_filter_from_select(&select).unwrap(),
        "a >= 3 AND b != true AND c CONTAINS 1.5"
    );
}

#[test]
fn conditions_without_a_lowering_are_refused() {
    let refused = |c: Condition| document_filter_from_select(&document_select(vec![c], None)).is_err();
    assert!(refused(path_condition(
        "$.a",
        ComparisonOperator::Other("Near".to_string()),
        Value::Integer(1)
    )));
    assert!(refused(path_condition("$.a", ComparisonOperator::Eq, Value::Other)));
    assert!(refused(Condition::Other("EXISTS".to_string())));
    let either = SelectStatement {
        where_clause: Some(WhereClause { logic: LogicOperator::Or, conditions: vec![] }),
        ..document_select(vec![], None)
    };
    assert!(document_filter_from_select(&either).is_err());
}

#[test]
fn statements_without_a_lowering_are_refused() {
    let select = |model: DataModel| {
        Some(UqlStatement::Select(SelectStatement { model, ..document_select(vec![], None) }))
    };
    assert!(uql_to_federated_sql(&select(DataModel::Graph), &vec![], None).is_err());
    assert!(uql_to_federated_sql(&select(DataModel::Other("x".to_string())), &vec![], None).is_err());
    assert!(uql_to_federated_sql(&Some(UqlStatement::MultiModal), &vec![], None).is_err());
    assert!(uql_to_federated_sql(&vector_select(None), &vec![], None).is_err());
    assert!(uql_to_federated_sql(&vector_select(None), &vec![vector(&[])], None).is_err());
}

#[test]
fn components_must_be_well_formed() {
    let failure = |text: &str| json_to_multi_model_sql(&json(text)).expect_err("must be refused");
    assert_eq!(failure(r#"{"components": 1}"#), "components must be an array");
    assert_eq!(
        failure(r#"{"components": [{}]}"#),
        "components[0].component_type must be a string"
    );
    assert_eq!(
        failure(r#"{"components": [{"component_type": "vector", "config": {"collection": "c"}}]}"#),
        "components[0].config.query_vector is required"
    );
    assert!(failure(r#"{"components": [{"component_type": "audio"}]}"#).contains("audio"));
}

#[test]
fn requests_are_lowered_to_sql() {
    assert_eq!(execute_federated_query_sql("SELECT ?", &vec![whole(1)]).unwrap(), "SELECT 1");
    let empty = execute_federated_query_sql("  ", &vec![]).unwrap_err();
    assert_eq!(empty.message, "query cannot be empty");
    assert_eq!(
        execute_unified_query_sql("q", &vector_select(Some(2)), &vec![vector(&[1.0])], None).unwrap(),
        "SELECT * FROM VECTOR_SEARCH('products', '[1]', 2)"
    );
    assert_eq!(
        execute_unified_query_sql("SELECT ?", &None, &vec![whole(4)], None).unwrap(),
        "SELECT 4"
    );
    let failed = execute_unified_query_sql("q", &Some(UqlStatement::MultiModal), &vec![], None).unwrap_err();
    assert_eq!(failed.context.as_deref(), Some("UQL lowering failed for query 'q'"));
    assert_eq!(execute_multi_model_query_sql(&json(r#"{"query": "Q"}"#)).unwrap(), "Q");
    assert_eq!(execute_multi_model_query_sql(&json("{}")).unwrap(), "SELECT 1");
    assert_eq!(
        distributed_query_request(&json(r#"{"query": "Q", "limit": 4294967299}"#)).unwrap(),
        ("Q".to_string(), Some(3))
    );
    assert_eq!(
        distributed_query_request(&json("{}")).unwrap_err(),
        "distributed query request must have a 'query' field"
    );
}

#[test]
fn rows_are_cut_at_the_limit() {
    assert_eq!(limit_rows(vec![1, 2, 3], Some(2)), [1, 2]);
    assert_eq!(limit_rows(vec![1, 2, 3], Some(9)), [1, 2, 3]);
    assert_eq!(limit_rows(vec![1, 2, 3], None), [1, 2, 3]);
}

#[test]
fn prepared_statement_failures_are_told_apart() {
    assert_eq!(
        prepared_statement_message(&PreparedStatementError::NotFound, "s1"),
        "prepared statement not found: s1"
    );
    assert_eq!(
        prepared_statement_message(&PreparedStatementError::Expired, "s1"),
        "prepared statement expired: s1"
    );
    assert_eq!(
        prepared_statement_message(&PreparedStatementError::Other("x".to_string()), "s1"),
        "prepared statement error: x"
    );
}

#[test]
fn ports_keep_what_they_were_made_of() {
    let adapter = Arc::new(1u8);
    let port: UnifiedQueryPortImpl<u8, u16, u32> = UnifiedQueryPortImpl::new(adapter.clone());
    assert!(Arc::ptr_eq(port.adapter_ref(), &adapter));
    assert_eq!(**port.cache_ref(), 0);
    assert!(port.catalog_ref().is_none());
    let port: UnifiedQueryPortImpl<u8, u16, u32> =
        UnifiedQueryPortImpl::with_cache(adapter, Arc::new(2u16)).with_catalog_manager(Arc::new(3u32));
    assert_eq!(**port.cache_ref(), 2);
    assert_eq!(port.catalog_ref().map(|c| **c), Some(3));
}

#[test]
fn members_are_found_by_key() {
    let value = json(r#"{"a": {"b": "c"}, "n": 1}"#);
    assert_eq!(get_text(get_member(Some(&value), "a"), "b"), Some("c"));
    assert!(get_member(Some(&value), "z").is_none());
    assert!(get_text(Some(&value), "n").is_none());
    assert!(get_member(None, "a").is_none());
}
