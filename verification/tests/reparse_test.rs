use gmail_proxy::scrub::query::{parse_query, reconstruct_query, reconstruct_with_label_exclusion, QueryNode};

fn reparsed(q: &str) -> (String, bool) {
    let node = parse_query(q).unwrap();
    let text = reconstruct_query(&node);
    let again = parse_query(&text).unwrap();
    (text, again == node)
}

#[test]
fn reconstructed_queries_parse_back_to_the_same_tree() {
    for q in [
        "hello",
        "from:alice OR from:bob",
        "(from:alice OR from:bob) subject:meeting",
        "{from:alice from:bob}",
        "-spam -\"quoted text\" -(a OR b)",
        "--a -OR - x",
        "subject:\"hello world\" to:bob",
        "-from:bob :x a:b:c",
        "\"unterminated",
        "a\tb\u{3000}c",
    ] {
        let (text, same) = reparsed(q);
        assert!(same, "{q} reconstructed as {text} parses differently");
    }
}

#[test]
fn reconstruction_normalises_spacing_and_braces() {
    assert_eq!(reparsed("  {a   b}  OR c").0, "(a b) OR c");
    assert_eq!(reparsed("\"open").0, "\"open\"");
}

#[test]
fn quoted_value_with_delimiter_but_no_space_reads_differently() {
    let node = parse_query("subject:\"a(b\"").unwrap();
    let text = reconstruct_query(&node);
    assert_eq!(text, "subject:a(b");
    assert!(parse_query(&text).map(|n| n != node).unwrap_or(true));
}

#[test]
fn secured_query_keeps_the_exclusion_outside() {
    use_secured("from:alice OR from:bob");
    use_secured("a OR b c");
    use_secured("-(x OR y)");
}

fn use_secured(q: &str) {
    let node = parse_query(q).unwrap();
    let text = reconstruct_with_label_exclusion(&node, "agent-blocked");
    let parsed = parse_query(&text).unwrap();
    let expected = QueryNode::And(vec![
        QueryNode::Group(Box::new(node)),
        QueryNode::Operator { key: "label".into(), value: "agent-blocked".into(), negated: true },
    ]);
    assert_eq!(parsed, expected);
}

#[test]
fn quoted_values_with_spaces_or_plain_values_round_trip() {
    for q in ["subject:\"a b(c\"", "subject:\"x\" to:\"y z\"", "-label:\"two words\""] {
        let (text, same) = reparsed(q);
        assert!(same, "{q} reconstructed as {text} parses differently");
    }
}

#[test]
fn cloned_query_is_equal() {
    let node = parse_query("(a OR -\"b c\") from:x {d e}").unwrap();
    assert_eq!(node.clone(), node);
}
