use gmail_proxy::scrub::query::{is_blank, parse_query, validate_query, QueryNode, MAX_QUERY_LENGTH};

fn parse_err(q: &str) -> (String, String, Option<usize>) {
    let e = parse_query(q).unwrap_err();
    assert_eq!(e.error, "query_parse_error");
    assert_eq!(e.query, q);
    (e.message, e.hint, e.position)
}

#[test]
fn parse_errors_name_cause_hint_and_position() {
    assert_eq!(
        parse_err("(from:alice"),
        ("Unmatched opening parenthesis".into(), "Add a closing ')'".into(), Some(0))
    );
    assert_eq!(
        parse_err("{a b"),
        ("Unmatched opening brace".into(), "Add a closing '}'".into(), Some(0))
    );
    assert_eq!(
        parse_err("from:alice)"),
        ("Unexpected token after query".into(), "Check query syntax".into(), Some(10))
    );
    assert_eq!(
        parse_err("a}"),
        ("Unexpected token after query".into(), "Check query syntax".into(), Some(1))
    );
    assert_eq!(
        parse_err("()"),
        ("Empty group".into(), "Add expressions inside the parentheses".into(), Some(0))
    );
    assert_eq!(
        parse_err("x {}"),
        ("Empty group".into(), "Add expressions inside the braces".into(), Some(2))
    );
    assert_eq!(
        parse_err("a OR"),
        ("OR requires expression on both sides".into(), "Add an expression after OR".into(), Some(2))
    );
    assert_eq!(
        parse_err("OR a"),
        ("OR requires expression on both sides".into(), "Add an expression before OR".into(), Some(0))
    );
    assert_eq!(
        parse_err("from:"),
        ("Operator 'from' requires a value".into(), "Use from:value".into(), Some(0))
    );
    assert_eq!(parse_err("  "), ("Empty query".into(), "Provide a search query".into(), None));
    // A lone opening parenthesis has nothing inside it to parse.
    assert_eq!(parse_err("("), ("Empty query".into(), "Provide a search query".into(), None));
}

#[test]
fn length_limit_is_in_bytes() {
    assert_eq!(MAX_QUERY_LENGTH, 1000);
    assert!(parse_query(&"a".repeat(1000)).is_ok());
    let (msg, hint, pos) = parse_err(&"a".repeat(1001));
    assert_eq!(msg, "Query exceeds maximum length");
    assert_eq!(hint, "Keep queries under 1000 characters");
    assert_eq!(pos, None);
    // 334 three-byte characters exceed the limit though they are fewer than 1000 characters.
    assert!(parse_query(&"語".repeat(334)).is_err());
    assert!(parse_query(&"語".repeat(333)).is_ok());
}

#[test]
fn blank_means_only_whitespace() {
    assert!(is_blank(""));
    assert!(is_blank(" \t\n\u{3000}"));
    assert!(!is_blank(" a "));
}

#[test]
fn unsupported_operator_lists_supported_ones() {
    let node = parse_query("filename:secret.pdf").unwrap();
    let e = validate_query(&node, &["from", "subject"], "agent-blocked", 10).unwrap_err();
    assert_eq!(e.error, "query_validation_error");
    assert_eq!(e.message, "Operator 'filename' is not supported. Supported operators: from, subject");
    assert_eq!(e.hint, "Use one of: from, subject");
    assert_eq!(e.position, None);
}

#[test]
fn other_labels_are_refused_too() {
    let node = parse_query("label:important").unwrap();
    let e = validate_query(&node, &["from", "label"], "agent-blocked", 10).unwrap_err();
    assert_eq!(e.message, "The label: operator is not allowed for agents");
    assert_eq!(e.hint, "Remove the label: operator from your query");
}

#[test]
fn drafts_are_refused() {
    let node = parse_query("IS:Draft").unwrap();
    let e = validate_query(&node, &["is"], "agent-blocked", 10).unwrap_err();
    assert_eq!(e.message, "Drafts are not accessible");
    assert_eq!(e.hint, "Remove is:draft from your query");
}

#[test]
fn operator_names_compared_lowercased() {
    let node = parse_query("FROM:alice").unwrap();
    assert!(validate_query(&node, &["from"], "agent-blocked", 10).is_ok());
}

#[test]
fn depth_counts_groups_and_negations() {
    let node = parse_query("-(a)").unwrap();
    assert!(validate_query(&node, &["from"], "agent-blocked", 2).is_ok());
    let e = validate_query(&node, &["from"], "agent-blocked", 1).unwrap_err();
    assert_eq!(e.message, "Query nesting depth exceeds maximum of 1");
}

#[test]
fn error_displays_its_message() {
    let e = parse_query("(x").unwrap_err();
    assert_eq!(e.to_string(), "Unmatched opening parenthesis");
}

#[test]
fn negated_group_parses_as_not() {
    let node = parse_query("-(a OR b)").unwrap();
    match node {
        QueryNode::Not(inner) => match *inner {
            QueryNode::Group(g) => assert!(matches!(*g, QueryNode::Or(ref c) if c.len() == 2)),
            other => panic!("Expected Group, got {other:?}"),
        },
        other => panic!("Expected Not, got {other:?}"),
    }
}

#[test]
fn ascii_operators_compared_in_ascii_lowercase() {
    let node = parse_query("LaBeL:Agent-BLOCKED").unwrap();
    let e = validate_query(&node, &["from"], "agent-blocked", 10).unwrap_err();
    assert_eq!(e.message, "Query references a label used for security filtering");
    let node = parse_query("In:TRASH").unwrap();
    let e = validate_query(&node, &["in"], "agent-blocked", 10).unwrap_err();
    assert_eq!(e.message, "The location 'TRASH' is restricted");
}
