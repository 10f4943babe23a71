//! Clauses of SELECT statements and vector operands.

use proximadb::sql::clauses::{
    find_clause_end, find_top_level_keyword, find_top_level_keyword_from, find_top_level_operator,
    is_identifier_byte, split_top_level_list,
};
use proximadb::sql::select::{
    AggregateFunction, SelectItem, extract_group_by_columns, extract_select_columns,
    extract_select_items, parse_aggregate_expr, select_has_distinct,
};
use proximadb::sql::tail::{
    PredicateOp, PredicateValue, extract_limit_offset, extract_order_by, extract_where_predicate,
    parse_predicate_value,
};
use proximadb::sql::vector::{
    VectorQuery, VectorSource, parse_vector_literal, split_qualified_reference,
    vector_source_from_expression, vector_source_from_literal, vector_source_from_query,
};

#[test]
fn top_level_scanners_keep_original_utf8_offsets() {
    // U+FB00 uppercases to two ASCII bytes. Building an uppercased copy
    // and indexing it with offsets from the original UTF-8 string shifts
    // every token that follows this literal.
    let sql = "SELECT 'ﬀ' AS label FROM documents";
    assert_eq!(
        find_top_level_keyword(sql, "FROM"),
        sql.find("FROM"),
        "keyword offsets must refer to the original SQL"
    );
    let items = extract_select_items(sql);
    assert_eq!(items.len(), 1);
    assert_eq!(items[0].expression, "'ﬀ'");
    assert_eq!(items[0].alias.as_deref(), Some("label"));

    let order = extract_order_by("SELECT label FROM documents ORDER BY 'ﬀ' DESC NULLS LAST");
    assert_eq!(order.len(), 1);
    assert_eq!(order[0].column, "'ﬀ'");
    assert!(!order[0].ascending);
    assert!(!order[0].nulls_first);

    let predicate = extract_where_predicate("SELECT * FROM documents WHERE 'ﬀ' IS NOT NULL")
        .expect("simple predicate");
    assert_eq!(predicate.column, "'ﬀ'");

    let predicate = "label = 'ﬀ' AND score >= 0.5";
    assert_eq!(
        find_top_level_operator(predicate, ">="),
        predicate.find(">="),
        "operator offsets must refer to the original predicate"
    );
}

#[test]
fn distinct_keyword_requires_a_token_boundary() {
    let sql = "SELECT Distinctive FROM documents";
    assert!(!select_has_distinct(sql));
    let items = extract_select_items(sql);
    assert_eq!(items.len(), 1);
    assert_eq!(items[0].expression, "Distinctive");
}

#[test]
fn malformed_single_quote_predicate_fails_closed() {
    assert!(parse_predicate_value("'").is_none());
    assert!(parse_predicate_value("\"").is_none());
}

#[test]
fn select_alias_scanner_accepts_whitespace_classes_only_at_top_level() {
    let items = extract_select_items(
        "SELECT CAST(price AS INT)\tAS\tprice_int, 'kept AS literal'\nAS\nlabel FROM sales",
    );

    assert_eq!(items.len(), 2);
    assert_eq!(items[0].expression, "CAST(price AS INT)");
    assert_eq!(items[0].alias.as_deref(), Some("price_int"));
    assert_eq!(items[1].expression, "'kept AS literal'");
    assert_eq!(items[1].alias.as_deref(), Some("label"));

    let aggregate_items = extract_select_items(
        "SELECT COUNT(DISTINCT(customer_id)) AS unique_customers FROM sales",
    );
    let aggregate = parse_aggregate_expr(&aggregate_items[0])
        .expect("parenthesized distinct operand must parse");
    assert!(matches!(
        aggregate.function,
        AggregateFunction::CountDistinct
    ));
    assert_eq!(aggregate.column.as_deref(), Some("customer_id"));
}

#[test]
fn vector_literals_reject_non_finite_components() {
    assert!(parse_vector_literal("'[NaN]'").is_none());
    assert!(parse_vector_literal("'[inf]'").is_none());
    assert!(parse_vector_literal("'[-inf]'").is_none());
    assert!(parse_vector_literal("'[1e300]'").is_none());
}

#[test]
fn keywords_stand_alone_at_top_level() {
    assert_eq!(find_top_level_keyword("SELECT éfrom FROM t", "FROM"), Some(14));
    assert_eq!(find_top_level_keyword("SELECT b$from", "FROM"), None);
    assert_eq!(find_top_level_keyword("SELECT (1 FROM x)", "FROM"), None);
    assert_eq!(find_top_level_keyword("SELECT 'it''s FROM' FROM t", "FROM"), Some(20));
    assert_eq!(find_top_level_keyword_from("FROM a FROM b", "from", 1), Some(7));
    assert_eq!(find_clause_end("a LIMIT 1 OFFSET 2", 0, &["OFFSET", "LIMIT"]), 2);
    assert_eq!(find_clause_end("abc", 0, &["LIMIT"]), 3);
    assert_eq!(find_top_level_operator("(a>=b) >= c", ">="), Some(7));
}

#[test]
fn identifier_bytes_are_letters_digits_and_more() {
    assert!(is_identifier_byte(b'a'));
    assert!(is_identifier_byte(b'_'));
    assert!(is_identifier_byte(b'$'));
    assert!(is_identifier_byte(0xc3));
    assert!(!is_identifier_byte(b' '));
    assert!(!is_identifier_byte(b'-'));
}

#[test]
fn lists_are_split_outside_brackets_and_quotes() {
    assert_eq!(split_top_level_list("a, f(b, c), [1, 2], 'x, ''y', "), ["a", "f(b, c)", "[1, 2]", "'x, ''y'"]);
    assert!(split_top_level_list(" , ").is_empty());
}

#[test]
fn columns_and_groups_are_extracted() {
    assert_eq!(extract_select_columns("SELECT a AS x, b FROM t"), ["a", "b"]);
    assert!(extract_select_columns("SELECT a").is_empty());
    assert_eq!(
        extract_group_by_columns("SELECT a FROM t GROUP BY a, lower(b) ORDER BY a"),
        ["a", "lower(b)"]
    );
    assert!(extract_group_by_columns("SELECT a FROM t").is_empty());
    assert!(select_has_distinct("SELECT DISTINCT(a)FROM t"));
    assert!(select_has_distinct("SELECT distinct\ta FROM t"));
    assert!(!select_has_distinct("SELECT DISTINCT FROM t"));
    let items = |sql: &str| -> Vec<String> {
        extract_select_items(sql).into_iter().map(|i| i.expression).collect()
    };
    assert_eq!(items("SELECT DISTINCT FROM t"), ["DISTINCT"]);
    assert_eq!(items("SELECT DISTINCT (a), (b) FROM t"), ["(a)", "(b)"]);
}

fn aggregate(expression: &str, alias: Option<&str>) -> Option<(AggregateFunction, Option<String>, String)> {
    let item = SelectItem {
        expression: expression.to_string(),
        alias: alias.map(|a| a.to_string()),
    };
    parse_aggregate_expr(&item).map(|a| (a.function, a.column, a.alias))
}

#[test]
fn aggregates_are_recognised() {
    let column = |c: &str| Some(c.to_string());
    assert_eq!(
        aggregate("count(*)", None),
        Some((AggregateFunction::Count, None, "count(*)".to_string()))
    );
    assert_eq!(
        aggregate("COUNT(DISTINCT\tid)", Some("n")),
        Some((AggregateFunction::CountDistinct, column("id"), "n".to_string()))
    );
    assert_eq!(
        aggregate("COUNT( id )", None),
        Some((AggregateFunction::Count, column("id"), "COUNT( id )".to_string()))
    );
    assert_eq!(
        aggregate("Sum(price)", None),
        Some((AggregateFunction::Sum, column("price"), "Sum(price)".to_string()))
    );
    assert_eq!(aggregate("AVG(x)", None).map(|a| a.0), Some(AggregateFunction::Avg));
    assert_eq!(aggregate("MIN(x)", None).map(|a| a.0), Some(AggregateFunction::Min));
    assert_eq!(aggregate("MAX(x)", None).map(|a| a.0), Some(AggregateFunction::Max));
    let distinct = |e: &str| aggregate(e, None).map(|a| (a.0, a.1.unwrap_or_default()));
    let counted = |c: &str| Some((AggregateFunction::CountDistinct, c.to_string()));
    assert_eq!(distinct("COUNT(DISTINCT (a) || (b))"), counted("(a) || (b)"));
    assert_eq!(distinct("COUNT(DISTINCT ((a) || (b)))"), counted("(a) || (b)"));
    assert_eq!(distinct("COUNT(DISTINCT ( ')' ))"), counted("')'"));
    assert_eq!(distinct("COUNT(DISTINCT (id))"), counted("id"));
    assert_eq!(distinct("COUNT(DISTINCT )"), Some((AggregateFunction::Count, "DISTINCT".to_string())));
    assert_eq!(aggregate("lower(x)", None), None);
    assert_eq!(aggregate("x", None), None);
}

#[test]
fn limits_and_offsets_are_read() {
    assert_eq!(extract_limit_offset("SELECT a FROM t LIMIT 5 OFFSET 10 ;"), (Some(5), 10));
    assert_eq!(extract_limit_offset("SELECT a FROM t OFFSET 3 LIMIT +2"), (Some(2), 3));
    assert_eq!(extract_limit_offset("SELECT a FROM t LIMIT x"), (None, 0));
    assert_eq!(extract_limit_offset("SELECT a FROM t"), (None, 0));
}

#[test]
fn orderings_put_nulls_first_when_descending() {
    let order = extract_order_by("SELECT a FROM t ORDER BY a, b desc, c ASC NULLS FIRST LIMIT 1");
    let shown: Vec<(&str, bool, bool)> = order
        .iter()
        .map(|o| (o.column.as_str(), o.ascending, o.nulls_first))
        .collect();
    assert_eq!(shown, [("a", true, false), ("b", false, true), ("c", true, true)]);
}

#[test]
fn predicates_are_read() {
    let read = |sql: &str| extract_where_predicate(sql).map(|p| (p.column, p.op, p.value));
    let (column, op, value) = read("SELECT * FROM t WHERE a >= 5 LIMIT 1").unwrap();
    assert_eq!((column.as_str(), op), ("a", PredicateOp::Ge));
    assert!(matches!(value, PredicateValue::Int(5)));
    let (column, op, value) = read("SELECT * FROM t WHERE a like 'it''s%'").unwrap();
    assert_eq!((column.as_str(), op), ("a", PredicateOp::Like));
    assert!(matches!(value, PredicateValue::String(s) if s == "it's%"));
    let (column, op, value) = read("SELECT * FROM t WHERE a is null").unwrap();
    assert_eq!((column.as_str(), op), ("a", PredicateOp::IsNull));
    assert!(matches!(value, PredicateValue::Null));
    for (sql, op) in [
        ("a <> 1", PredicateOp::Ne),
        ("a != 1", PredicateOp::Ne),
        ("a <= 1", PredicateOp::Le),
        ("a < 1", PredicateOp::Lt),
        ("a > 1", PredicateOp::Gt),
        ("a = 1", PredicateOp::Eq),
        ("a IS NOT NULL", PredicateOp::IsNotNull),
    ] {
        assert_eq!(read(&format!("SELECT * FROM t WHERE {sql}")).map(|p| p.1), Some(op));
    }
    assert!(read("SELECT * FROM t WHERE a = 1 AND b = 2").is_none());
    assert!(read("SELECT * FROM t WHERE a = 1 or b = 2").is_none());
    assert!(read("SELECT * FROM t WHERE a = b").is_none());
    assert!(read("SELECT * FROM t").is_none());
}

#[test]
fn predicate_values_are_read() {
    assert!(matches!(parse_predicate_value(" null "), Some(PredicateValue::Null)));
    assert!(matches!(parse_predicate_value("True"), Some(PredicateValue::Bool(true))));
    assert!(matches!(parse_predicate_value("FALSE"), Some(PredicateValue::Bool(false))));
    assert!(matches!(parse_predicate_value("-7"), Some(PredicateValue::Int(-7))));
    assert!(
        matches!(parse_predicate_value("1.5e3"), Some(PredicateValue::Float(t)) if t == "1.5e3")
    );
    assert!(
        matches!(parse_predicate_value("\"a\"\"b\""), Some(PredicateValue::String(t)) if t == "a\"b")
    );
    assert!(parse_predicate_value("name").is_none());
}

#[test]
fn vector_literals_are_read() {
    assert_eq!(
        parse_vector_literal("'[1.5, -2, 3e2]'"),
        Some(vec!["1.5".to_string(), "-2".to_string(), "3e2".to_string()])
    );
    assert!(parse_vector_literal("'[1.5, x]'").is_none());
    assert!(parse_vector_literal("'[340282350000000000000000000000000000000]'").is_some());
    assert!(parse_vector_literal("'[340282360000000000000000000000000000000]'").is_none());
}

#[test]
fn vector_sources_are_told_apart() {
    assert_eq!(
        split_qualified_reference("docs.embedding"),
        Some(("docs".to_string(), "embedding".to_string()))
    );
    assert!(split_qualified_reference("embedding").is_none());
    assert!(matches!(
        vector_source_from_expression("docs.embedding"),
        VectorSource::ColumnRef { table, column } if table == "docs" && column == "embedding"
    ));
    assert!(matches!(
        vector_source_from_expression("embed('x')"),
        VectorSource::Expression(e) if e == "embed('x')"
    ));
    assert!(matches!(
        vector_source_from_literal("'[1]'"),
        VectorSource::Literal(c) if c == ["1"]
    ));
    assert!(matches!(
        vector_source_from_query(&VectorQuery::Literal(vec!["2".to_string()])),
        VectorSource::Literal(c) if c == ["2"]
    ));
    assert!(matches!(
        vector_source_from_query(&VectorQuery::Expression("a.b".to_string())),
        VectorSource::ColumnRef { .. }
    ));
}

#[test]
fn items_split_into_themselves() {
    for input in ["a, f(b, c) ,, [1, 2], 'x, ''y', ", "a), b", "a,(b, c", " x , 'open, y  ", "\"p\"\"q\" , r", " , "] {
        let items = split_top_level_list(input);
        assert_eq!(split_top_level_list(&items.join(", ")), items, "{input}");
        assert!(items.iter().all(|i| !i.is_empty() && i.trim() == i));
    }
    assert_eq!(split_top_level_list("a),(b, c"), ["a)", "(b, c"]);
}
