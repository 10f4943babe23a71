//! The catalog objects that SQL text names.

use proximadb::sql::authority::ast::{
    AstEvent, SetBody, SqlArgument, SqlCall, SqlIdent, SqlName, SqlQuery, SqlTable,
};
use proximadb::sql::authority::collector::{collect_targets, count_tables, name_is_target};
use proximadb::sql::authority::normalize::normalize_table_query_bodies;
use proximadb::sql::authority::targets::{ParsePlan, collect_sql_catalog_targets, plan_parse};
use proximadb::sql::authority::tokens::{
    MAX_SQL_AUTHORITY_BYTES, MAX_SQL_AUTHORITY_NESTING, SqlKeyword, SqlToken, TokenKind,
    keyword_is_set_operator, tokens_within_bounds,
};

#[test]
fn sql_target_scanner_uses_ast_relation_context() {
    let mut targets = Vec::new();
    for sql in [
        r#"SELECT*FROM "schema"."orders", extra"#,
        r#"INSERT INTO"events(2026)"(id) VALUES (1) ON CONFLICT DO UPDATE SET id = 2"#,
        r#"SELECT EXTRACT(YEAR FROM created_at) FROM "left"JOIN "right" ON true"#,
        r#"SELECT * FROM "tenant" . "spaced""#,
        r#"SELECT * FROM "commented"/*c*/."table""#,
        "SELECT * FROM orders FOR UPDATE",
        "SELECT * FROM TRACES('ops')",
        r#"SELECT * FROM "TRACES""#,
        "WITH scoped AS (SELECT * FROM base) SELECT * FROM scoped",
        "WITH first AS (SELECT * FROM later), later AS (SELECT * FROM base) SELECT * FROM first",
        "WITH x AS (SELECT * FROM x) SELECT * FROM x",
        "WITH RECURSIVE r AS (SELECT * FROM seed UNION ALL SELECT * FROM r) SELECT * FROM r",
        r#"WITH "foo" AS (SELECT * FROM quoted_base) SELECT * FROM foo"#,
        r#"WITH bar AS (SELECT * FROM plain_base) SELECT * FROM "bar""#,
        r#"WITH "Caps" AS (SELECT * FROM caps_base) SELECT * FROM caps"#,
        r#"WITH É AS (SELECT * FROM unicode_seed) SELECT * FROM "é""#,
        "WITH write_target AS (SELECT * FROM write_seed) INSERT INTO write_target VALUES (1)",
        "INSERT INTO insertion_sink TABLE insertion_source",
        "INSERT INTO returning_sink TABLE returning_source RETURNING id",
        "INSERT INTO conflict_sink TABLE conflict_source ON CONFLICT DO NOTHING",
        "TABLE shorthand",
        "TABLE public.qualified_shorthand",
        "TABLE terminated;",
        r#"TABLE "CaseTable""#,
        r#"WITH caps_table AS (SELECT * FROM caps_table_seed) TABLE "CapsTable""#,
        r#"WITH "QuotedTable" AS (SELECT * FROM quoted_table_seed) TABLE "QuotedTable""#,
        r#"SELECT * FROM union_base UNION ALL TABLE "UnionTable""#,
        "SELECT 'O''Brien' FROM literal_base UNION ALL TABLE literal_other",
        r#"SELECT E'O\'Brien' FROM e_base UNION ALL TABLE e_other"#,
        r#"SELECT U&'d\0061t' FROM u_base UNION ALL TABLE u_other"#,
        r#"SELECT * FROM "a""b" UNION ALL TABLE identifier_other"#,
        "TABLE pipe_source |> CALL TRACES('pipe_table')",
        "SELECT * FROM by_base UNION BY NAME TABLE by_source",
        "SELECT * FROM by_all_base UNION ALL BY NAME TABLE by_all_source",
        "SELECT * FROM by_distinct_base UNION DISTINCT BY NAME TABLE by_distinct_source",
        "SELECT $$ harmless TRACES('secret') $$ AS note FROM actual",
        "CALL TRACES('called')",
        r#"CALL "TRACES"('quoted_call')"#,
        r#"SELECT * FROM "TRACES"('quoted_function')"#,
    ] {
        collect_sql_catalog_targets(sql, &mut targets);
    }
    targets.sort();
    targets.dedup();
    assert_eq!(
        targets,
        [
            "CapsTable",
            "CaseTable",
            "TRACES",
            "UnionTable",
            "a\"b",
            "actual",
            "base",
            "by_all_base",
            "by_all_source",
            "by_base",
            "by_distinct_base",
            "by_distinct_source",
            "by_source",
            "called",
            "caps",
            "caps_base",
            "caps_table_seed",
            "commented.table",
            "conflict_sink",
            "conflict_source",
            "e_base",
            "e_other",
            "events(2026)",
            "extra",
            "identifier_other",
            "insertion_sink",
            "insertion_source",
            "later",
            "left",
            "literal_base",
            "literal_other",
            "ops",
            "orders",
            "pipe_source",
            "pipe_table",
            "plain_base",
            "public.qualified_shorthand",
            "quoted_base",
            "quoted_table_seed",
            "returning_sink",
            "returning_source",
            "right",
            "schema.orders",
            "seed",
            "shorthand",
            "tenant.spaced",
            "terminated",
            "u_base",
            "u_other",
            "unicode_seed",
            "union_base",
            "write_seed",
            "write_target",
            "x",
            "é",
        ]
    );
    assert!(!targets.contains(&"created_at".to_string()));
    assert!(!targets.contains(&"id".to_string()));
    assert!(!targets.contains(&"scoped".to_string()));
    assert!(!targets.contains(&"first".to_string()));
    assert!(!targets.contains(&"r".to_string()));
    assert!(!targets.contains(&"foo".to_string()));
    assert!(!targets.contains(&"bar".to_string()));
    assert!(!targets.contains(&"secret".to_string()));
    assert!(!targets.contains(&"quoted_call".to_string()));
    assert!(!targets.contains(&"quoted_function".to_string()));

    for malformed in ["TABLE guarded garbage", "TABLE guarded; SELECT"] {
        let mut trailing = Vec::new();
        collect_sql_catalog_targets(malformed, &mut trailing);
        assert!(trailing.is_empty(), "{malformed}: {trailing:?}");
    }
}

#[test]
fn delete_target_authority_distinguishes_multi_table_sources() {
    let mut targets = Vec::new();
    // GenericDialect rejects MySQL's multi-target form before traversal;
    // keep the defensive Delete.tables branch for any future dialect
    // broadening, without claiming unsupported syntax is accepted here.
    collect_sql_catalog_targets("DELETE t FROM c JOIN t ON true", &mut targets);
    assert!(targets.is_empty());

    collect_sql_catalog_targets("WITH t AS (SELECT * FROM seed) DELETE FROM t", &mut targets);
    targets.sort();
    targets.dedup();
    assert_eq!(targets, ["seed", "t"]);
}

#[test]
fn cte_authority_scope_handles_large_flat_with_list() {
    const CTE_COUNT: usize = 512;
    let definitions = (0..CTE_COUNT)
        .map(|index| format!("c{index} AS (SELECT * FROM base{index})"))
        .collect::<Vec<_>>()
        .join(", ");
    let sql = format!("WITH {definitions} SELECT * FROM c511");
    let mut targets = Vec::new();
    collect_sql_catalog_targets(&sql, &mut targets);
    targets.sort();
    targets.dedup();

    assert_eq!(targets.len(), CTE_COUNT);
    assert!(targets.contains(&"base0".to_string()));
    assert!(targets.contains(&"base511".to_string()));
    assert!(!targets.contains(&"c511".to_string()));
}

#[test]
fn table_authority_normalization_handles_large_set_chain() {
    const TABLE_COUNT: usize = 256;
    let sql = (0..TABLE_COUNT)
        .map(|index| format!("TABLE table{index}"))
        .collect::<Vec<_>>()
        .join(" UNION ALL ");
    let mut targets = Vec::new();
    collect_sql_catalog_targets(&sql, &mut targets);
    targets.sort();
    targets.dedup();

    assert_eq!(targets.len(), TABLE_COUNT);
    assert!(targets.contains(&"table0".to_string()));
    assert!(targets.contains(&"table255".to_string()));
}

#[test]
fn sql_authority_scanner_bounds_adversarial_ast_shapes() {
    let oversized_set_chain = (0..600)
        .map(|index| format!("TABLE table{index}"))
        .collect::<Vec<_>>()
        .join(" UNION ALL ");
    let mut targets = Vec::new();
    collect_sql_catalog_targets(&oversized_set_chain, &mut targets);
    assert!(targets.is_empty());

    let deeply_nested = format!("{}SELECT * FROM hidden{}", "(".repeat(129), ")".repeat(129));
    collect_sql_catalog_targets(&deeply_nested, &mut targets);
    assert!(targets.is_empty());

    let oversized_literal = format!(
        "TABLE visible UNION ALL SELECT '{}' FROM hidden",
        "x".repeat(MAX_SQL_AUTHORITY_BYTES)
    );
    collect_sql_catalog_targets(&oversized_literal, &mut targets);
    assert!(targets.is_empty());
}

#[test]
fn catalog_functions_are_collected_from_bare_function_ast_slots() {
    let mut targets = Vec::new();
    for sql in [
        "CALL TRACES('called')",
        "SELECT * FROM source |> CALL TRACES('piped')",
    ] {
        collect_sql_catalog_targets(sql, &mut targets);
    }
    targets.sort();
    targets.dedup();
    assert_eq!(targets, ["called", "piped", "source"]);

    // GenericDialect rejects ClickHouse's TableObject::TableFunction
    // syntax. The visitor still covers that AST slot defensively if the
    // collector's configured dialect expands later.
    targets.clear();
    collect_sql_catalog_targets(
        "INSERT INTO TABLE FUNCTION TRACES('inserted') VALUES (1)",
        &mut targets,
    );
    assert!(targets.is_empty());
}

#[test]
fn target_scanner_requires_a_complete_function_call_name() {
    let mut targets = Vec::new();
    collect_sql_catalog_targets(
        r#"SELECT * FROM NOT_VECTOR_SEARCH('wrong', [1.0]);
           SELECT * FROM πVECTOR_SEARCH('unicode_wrong', [1.0]);
           /* outer /* VECTOR_SEARCH('block_wrong') */ comment */
           SELECT VECTOR_SEARCH + other_call('also_wrong') FROM actual;
           SELECT * FROM VECTOR_SEARCH ('right', [1.0]);
           SELECT * FROM TRACES /* outer /* nested */ comment */ ( /* arg */ 'commented');
           SELECT * FROM TRACES -- call trivia
             ( -- arg trivia
             'line-commented')"#,
        &mut targets,
    );
    targets.sort();
    targets.dedup();
    assert_eq!(targets, ["actual", "commented", "line-commented", "right"]);
}

fn token(kind: TokenKind, start: u64, end: u64) -> SqlToken {
    SqlToken { kind, start_line: 1, start_column: start, end_line: 1, end_column: end }
}

fn name(text: &str) -> SqlName {
    SqlName { parts: vec![Some(SqlIdent { value: text.to_string(), quoted: false })] }
}

fn relation(text: &str) -> AstEvent {
    AstEvent::Table(SqlTable::Relation(name(text)))
}

fn query(ctes: &[&str], recursive: bool) -> AstEvent {
    AstEvent::EnterQuery(SqlQuery {
        body: SetBody::Other,
        ctes: ctes
            .iter()
            .map(|c| SqlIdent { value: c.to_string(), quoted: false })
            .collect(),
        recursive,
        calls: vec![],
    })
}

fn targets_of(events: Vec<AstEvent>) -> Vec<String> {
    let mut targets = Vec::new();
    collect_targets(&events, &mut targets);
    targets
}

#[test]
fn an_alias_is_hidden_in_its_own_definition_only_when_recursive() {
    let walk = |recursive: bool| {
        vec![
            query(&["r"], recursive),
            query(&[], false),
            relation("r"),
            AstEvent::LeaveQuery,
            relation("r"),
            AstEvent::LeaveQuery,
        ]
    };
    assert_eq!(targets_of(walk(false)), ["r"]);
    assert!(targets_of(walk(true)).is_empty());
}

#[test]
fn targets_are_added_behind_those_already_there() {
    let mut targets = vec!["kept".to_string()];
    collect_targets(&vec![relation("t"), relation("t")], &mut targets);
    assert_eq!(targets[0], "kept");
    assert!(targets.contains(&"t".to_string()));
    assert_eq!(count_tables(&vec![relation("t"), AstEvent::LeaveQuery]), 0);
}

#[test]
fn catalog_calls_hand_over_their_first_argument() {
    let call = |function: &str, first: SqlArgument| {
        let args = vec![first, SqlArgument::Identifier("second".to_string())];
        AstEvent::Expression(Some(SqlCall { name: name(function), args }))
    };
    assert_eq!(
        targets_of(vec![call("traces", SqlArgument::Literal(Some("ops".to_string())))]),
        ["ops"]
    );
    assert_eq!(
        targets_of(vec![call(
            "VECTOR_SEARCH",
            SqlArgument::Compound(vec!["a".to_string(), "b".to_string()])
        )]),
        ["a.b"]
    );
    assert!(targets_of(vec![call("length", SqlArgument::Identifier("x".to_string()))]).is_empty());
    let bare = SqlCall { name: name("TRACES"), args: Vec::new() };
    assert!(targets_of(vec![AstEvent::Expression(Some(bare))]).is_empty());
    assert!(targets_of(vec![AstEvent::Expression(None)]).is_empty());
    assert!(targets_of(vec![call("TRACES", SqlArgument::Other)]).is_empty());
}

#[test]
fn placeholders_are_no_targets() {
    assert!(name_is_target(&"docs".to_string()));
    assert!(!name_is_target(&"$1".to_string()));
    assert!(!name_is_target(&"?".to_string()));
    assert!(!name_is_target(&"".to_string()));
}

#[test]
fn set_operators_are_told_from_other_keywords() {
    assert!(keyword_is_set_operator(SqlKeyword::Union));
    assert!(keyword_is_set_operator(SqlKeyword::Except));
    assert!(keyword_is_set_operator(SqlKeyword::Intersect));
    assert!(!keyword_is_set_operator(SqlKeyword::Table));
}

#[test]
fn nesting_is_bounded() {
    let nested = |depth: usize| {
        (0..depth)
            .map(|i| token(TokenKind::LParen, i as u64 + 1, i as u64 + 2))
            .collect::<Vec<_>>()
    };
    assert!(tokens_within_bounds(&nested(MAX_SQL_AUTHORITY_NESTING)));
    assert!(!tokens_within_bounds(&nested(MAX_SQL_AUTHORITY_NESTING + 1)));
}

#[test]
fn type_arguments_nest_like_parentheses() {
    let tokens = |kinds: &[TokenKind], times: usize| {
        (0..times * kinds.len())
            .map(|i| token(kinds[i % kinds.len()], i as u64 + 1, i as u64 + 2))
            .collect::<Vec<_>>()
    };
    let (array, strukt) =
        (TokenKind::Word(SqlKeyword::Array), TokenKind::Word(SqlKeyword::Struct));
    let other = TokenKind::Word(SqlKeyword::Other);
    let (lt, gt, shift) = (TokenKind::Lt, TokenKind::Gt, TokenKind::ShiftRight);
    let (left, right) = (TokenKind::LParen, TokenKind::RParen);
    let limit = MAX_SQL_AUTHORITY_NESTING;

    assert!(tokens_within_bounds(&tokens(&[array, lt], limit)));
    assert!(!tokens_within_bounds(&tokens(&[array, lt], limit + 1)));
    assert!(!tokens_within_bounds(&tokens(&[strukt, TokenKind::Whitespace, lt], limit + 1)));
    assert!(tokens_within_bounds(&tokens(&[array, lt, left], limit / 2)));
    assert!(!tokens_within_bounds(&tokens(&[array, lt, left], limit / 2 + 1)));

    assert!(tokens_within_bounds(&tokens(&[other, lt], limit + 1)));
    assert!(tokens_within_bounds(&tokens(&[array, lt, gt], limit + 1)));
    assert!(tokens_within_bounds(&tokens(&[array, lt, strukt, lt, shift], limit + 1)));
    assert!(tokens_within_bounds(&tokens(&[left, array, lt, right], limit + 1)));
    assert!(!tokens_within_bounds(&tokens(&[array, lt, left, gt, right], limit + 1)));
}

#[test]
fn deep_types_have_no_targets() {
    let found = |sql: &str| {
        let mut targets = Vec::new();
        collect_sql_catalog_targets(sql, &mut targets);
        targets
    };
    let nested = |opening: &str| {
        let depth = MAX_SQL_AUTHORITY_NESTING;
        format!("SELECT CAST(a AS {}INT{}) FROM t", opening.repeat(depth), ">".repeat(depth))
    };
    assert!(found(&nested("ARRAY<")).is_empty());
    assert!(found(&nested("STRUCT<a ")).is_empty());
    assert_eq!(found("SELECT CAST(a AS ARRAY<STRUCT<a INT>>) FROM t"), ["t"]);
    let casts = vec!["a::ARRAY<ARRAY<INT>>"; 2 * MAX_SQL_AUTHORITY_NESTING].join(", ");
    assert_eq!(found(&format!("SELECT {casts} FROM t")), ["t"]);
}

#[test]
fn table_bodies_are_rewritten() {
    let tokens = vec![
        token(TokenKind::Word(SqlKeyword::Table), 1, 6),
        token(TokenKind::Whitespace, 6, 7),
        token(TokenKind::Word(SqlKeyword::Other), 7, 8),
    ];
    assert_eq!(
        normalize_table_query_bodies("TABLE t", &tokens),
        Some(("SELECT * FROM t".to_string(), 1))
    );
}

#[test]
fn a_parse_without_table_bodies_stands() {
    let tokens = vec![token(TokenKind::Word(SqlKeyword::Other), 1, 7)];
    let parsed = Some(vec![query(&[], false), relation("t"), AstEvent::LeaveQuery]);
    assert!(matches!(plan_parse("SELECT", &tokens, &parsed), ParsePlan::AsParsed));
    assert!(matches!(plan_parse("SELECT", &tokens, &None), ParsePlan::Reject));
}

#[test]
fn channels_have_to_be_named() {
    let found = |sql: &str| {
        let mut targets = Vec::new();
        collect_sql_catalog_targets(sql, &mut targets);
        targets
    };
    for sql in [
        "FLUSH RELAY LOGS FOR CHANNEL",
        "FLUSH RELAY LOGS FOR CHANNEL ;",
        "flush local relay logs for channel 1",
        "FLUSH NO_WRITE_TO_BINLOG RELAY /* x */ LOGS FOR CHANNEL a.",
        "FLUSH RELAY LOGS FOR CHANNEL a.(b)",
        "SELECT * FROM t; FLUSH RELAY LOGS FOR CHANNEL",
        "TABLE t; FLUSH RELAY LOGS FOR CHANNEL",
        "EXPLAIN FLUSH RELAY LOGS FOR CHANNEL",
    ] {
        assert!(found(sql).is_empty(), "{sql}");
    }
    assert_eq!(found("FLUSH RELAY LOGS FOR CHANNEL a; SELECT * FROM t"), ["t"]);
    assert_eq!(found("FLUSH LOCAL RELAY LOGS FOR CHANNEL 'a'.\"b\"; SELECT * FROM t"), ["t"]);
    assert_eq!(found("FLUSH RELAY LOGS; SELECT * FROM t"), ["t"]);
    assert_eq!(found("TABLE t; FLUSH RELAY LOGS FOR CHANNEL a.b"), ["t"]);
}
