//! Scanning of SQL and Cypher text.

use proximadb::sql::cypher::{find_cypher_clause, inject_graph_target_into_cypher};
use proximadb::sql::scan::{
    decode_identifier, find_ascii_ci, find_ascii_ci_outside_quotes, skip_leading_ws_and_comments,
    strip_if_not_exists,
};
use proximadb::sql::top_level::{
    at_top_level_impl, find_ascii_ci_at_top_level, find_ascii_ci_at_top_level_checked,
};

#[test]
fn strip_if_not_exists_is_comment_and_ws_tolerant() {
    // Comment BEFORE the prefix and AFTER it (rounds 43-44); operand
    // decoding belongs to the CONSUMERS (extract_identifier /
    // clean_identifier) — the strip hands back the raw rest.
    assert_eq!(
        strip_if_not_exists("/* v2 */ IF NOT EXISTS docs"),
        (true, "docs")
    );
    assert_eq!(
        strip_if_not_exists("IF NOT EXISTS /* v2 */ docs"),
        (true, "docs")
    );
    // Word boundary: no separator, no strip.
    assert_eq!(
        strip_if_not_exists("IF NOT EXISTSx"),
        (false, "IF NOT EXISTSx")
    );
    assert_eq!(
        strip_if_not_exists("IF NOT EXISTSécole"),
        (false, "IF NOT EXISTSécole")
    );
    assert_eq!(strip_if_not_exists("IF\nNOT\tEXISTS docs"), (true, "docs"));
    assert_eq!(
        strip_if_not_exists("IF/* one */NOT /* two */ EXISTS docs"),
        (true, "docs")
    );
    assert_eq!(
        strip_if_not_exists("IF NOT EXISTS-- note\nlogs"),
        (true, "logs")
    );
    // Quoted operands pass through raw (consumers decode).
    assert_eq!(
        strip_if_not_exists("IF NOT EXISTS `logs` (id INT)"),
        (true, "`logs` (id INT)")
    );
}

#[test]
fn skip_leading_ws_and_comments_handles_nested_blocks() {
    assert_eq!(
        skip_leading_ws_and_comments("  -- note\n  /* a /* b */ */ t"),
        "t"
    );
    assert_eq!(skip_leading_ws_and_comments("plain"), "plain");

    // An unterminated comment is invalid input, not ignorable trivia.
    // Preserve it so callers fail closed instead of mistaking the
    // remainder for an absent identifier.
    assert_eq!(
        skip_leading_ws_and_comments("  /* unterminated"),
        "/* unterminated"
    );
    assert_eq!(
        strip_if_not_exists("IF NOT EXISTS /* unterminated"),
        (true, "/* unterminated")
    );
}

#[test]
fn graph_target_injection_ignores_clause_text_inside_literals() {
    let cypher = "MATCH (n {note: ' FROM archived RETURN value'}) RETURN n";
    assert_eq!(
        inject_graph_target_into_cypher("social", cypher),
        "MATCH (n {note: ' FROM archived RETURN value'}) FROM social RETURN n"
    );
}

#[test]
fn graph_target_injection_ignores_cypher_names_and_comments() {
    let quoted_name = "MATCH (n:` FROM archive RETURN value`) RETURN n";
    assert_eq!(
        inject_graph_target_into_cypher("social", quoted_name),
        "MATCH (n:` FROM archive RETURN value`) FROM social RETURN n"
    );

    let line_comment = "MATCH (n) // FROM archive RETURN value\nRETURN n";
    assert_eq!(
        inject_graph_target_into_cypher("social", line_comment),
        "MATCH (n) // FROM archive RETURN value\nFROM social RETURN n"
    );
}

#[test]
fn skipping_twice_is_skipping_once() {
    for text in ["  -- a\n b", "/* x */ /* y */z", "  /* open", "", "   "] {
        let once = skip_leading_ws_and_comments(text);
        assert_eq!(skip_leading_ws_and_comments(once), once);
        assert!(text.ends_with(once));
    }
}

#[test]
fn stripping_leaves_a_suffix() {
    let text = "IF NOT EXISTS a.b";
    let (stripped, rest) = strip_if_not_exists(text);
    assert!(stripped);
    assert!(text.ends_with(rest));
    assert_eq!(strip_if_not_exists("IF EXISTS t"), (false, "IF EXISTS t"));
    assert_eq!(strip_if_not_exists(""), (false, ""));
}

#[test]
fn case_is_ignored_and_offsets_are_bytes() {
    assert_eq!(find_ascii_ci("é from T", "FROM"), Some(3));
    assert_eq!(find_ascii_ci("abc", "abcd"), None);
    assert_eq!(find_ascii_ci("abc", ""), Some(0));
}

#[test]
fn quoted_text_and_comments_hold_no_match() {
    assert_eq!(find_ascii_ci_outside_quotes("'from' from t", "from"), Some(7));
    assert_eq!(find_ascii_ci_outside_quotes("-- from\nfrom t", "from"), Some(8));
    assert_eq!(find_ascii_ci_outside_quotes("/* from */", "from"), None);
    assert_eq!(find_ascii_ci_outside_quotes("'it''s from' x", "from"), None);
}

#[test]
fn parentheses_hold_no_top_level_match() {
    assert_eq!(find_ascii_ci_at_top_level("(a and b) and c", "and"), Some(10));
    assert_eq!(find_ascii_ci_at_top_level("(a and b)", "and"), None);
    assert_eq!(
        find_ascii_ci_at_top_level_checked("(a and b) and c", "and").ok(),
        Some(Some(10))
    );
    assert_eq!(find_ascii_ci_at_top_level_checked("a or b", "and").ok(), Some(None));
}

#[test]
fn malformed_text_is_reported_by_the_strict_search() {
    assert!(find_ascii_ci_at_top_level_checked("'open and c", "and").is_err());
    assert!(find_ascii_ci_at_top_level_checked("/* open and c", "and").is_err());
    assert!(find_ascii_ci_at_top_level_checked("(a and b", "and").is_err());
}

#[test]
fn identifiers_are_decoded() {
    assert_eq!(decode_identifier("\"a\"\"b\"").as_ref(), "a\"b");
    assert_eq!(decode_identifier("`x`").as_ref(), "x");
    assert_eq!(decode_identifier("plain").as_ref(), "plain");
}

#[test]
fn cypher_clauses_are_found_between_whitespace() {
    assert_eq!(find_cypher_clause("MATCH (n) ORDER  BY n", &["ORDER", "BY"]), Some(10));
    assert_eq!(find_cypher_clause("MATCH (n) ORDERBY n", &["ORDER", "BY"]), None);
    assert_eq!(find_cypher_clause("RETURN n", &["RETURN"]), Some(0));
    assert_eq!(find_cypher_clause("RETURNS n", &["RETURN"]), None);
    assert_eq!(find_cypher_clause("'a\\' RETURN' RETURN n", &["RETURN"]), Some(13));
    assert_eq!(find_cypher_clause("RETURN n", &[]), None);
}

#[test]
fn graph_targets_are_placed_before_the_first_clause() {
    assert_eq!(inject_graph_target_into_cypher("g", "MATCH (n) "), "MATCH (n) FROM g");
    assert_eq!(inject_graph_target_into_cypher(" default ", " MATCH (n); "), "MATCH (n)");
    assert_eq!(inject_graph_target_into_cypher("", "MATCH (n)"), "MATCH (n)");
    assert_eq!(
        inject_graph_target_into_cypher("g", "MATCH (n) FROM h RETURN n"),
        "MATCH (n) FROM h RETURN n"
    );
    assert_eq!(
        inject_graph_target_into_cypher("g", "MATCH (n) WHERE n.a RETURN n LIMIT 3"),
        "MATCH (n) FROM g WHERE n.a RETURN n LIMIT 3"
    );
}

#[test]
fn a_graph_is_named_once() {
    for cypher in ["MATCH (n)", "MATCH (n) RETURN n", "RETURN 1", "MATCH (n:`FROM x`) RETURN n // FROM y"] {
        let named = inject_graph_target_into_cypher("social", cypher);
        assert_ne!(named, cypher);
        assert_eq!(inject_graph_target_into_cypher("social", &named), named);
        assert_eq!(inject_graph_target_into_cypher("other", &named), named);
        assert_eq!(inject_graph_target_into_cypher("", cypher), cypher);
        assert_eq!(inject_graph_target_into_cypher("default", cypher), cypher);
    }
    // A name behind a comment is part of the comment.
    let hidden = inject_graph_target_into_cypher("g", "MATCH (n) // all");
    assert_eq!(hidden, "MATCH (n) // all FROM g");
    assert_eq!(inject_graph_target_into_cypher("h", &hidden), "MATCH (n) // all FROM g FROM h");
}

#[test]
fn completing_a_scan_finds_the_same() {
    let sql = "SELECT a FROM t WHERE b = (1)";
    let at = find_ascii_ci_at_top_level(sql, "where");
    assert_eq!(at, Some(16));
    assert_eq!(find_ascii_ci_at_top_level_checked(sql, "where"), Ok(at));
    let open = "SELECT a FROM t WHERE b = (1";
    assert_eq!(find_ascii_ci_at_top_level(open, "where"), at);
    assert!(find_ascii_ci_at_top_level_checked(open, "where").is_err());
    let scan = |text: &str, complete: bool| {
        let text: Vec<char> = text.chars().collect();
        let word: Vec<char> = "where".chars().collect();
        let r = at_top_level_impl(&text, &word, None, complete);
        (r.found, r.unterminated, r.malformed)
    };
    assert_eq!(scan(sql, true), (at, None, false));
    assert_eq!(scan(sql, false), (at, None, false));
    assert_eq!(scan(open, true), (at, None, true));
    assert_eq!(scan(open, false), (at, None, false));
    assert_eq!(scan("SELECT 'a", true), (None, Some(7), false));
    assert_eq!(scan("SELECT 'a", false), (None, Some(7), false));
}
