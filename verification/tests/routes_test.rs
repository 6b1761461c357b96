use gmail_proxy::audit::AuditEvent;
use gmail_proxy::gmail::types::{Header, Message, MessagePart, MessagePartBody};
use gmail_proxy::proxy::routes::{
    effective_max, message_event, plan_search, rejection_event, screen_all, screen_message, search_event,
    search_query, thread_event, Screening,
};
use gmail_proxy::scrub::content::ContentScrubber;
use gmail_proxy::scrub::labels::LabelFilter;
use gmail_proxy::scrub::query::{parse_query, QueryNode};

fn scrubber() -> ContentScrubber {
    ContentScrubber::new(
        vec![
            r"\b\d{4,8}\b".to_string(),
            r"(?i)verification code[:\s]+\S+".to_string(),
            r"(?i)(one.time|temporary|security)\s+(code|password|pin)".to_string(),
        ],
        vec![r"(?i)https?://[^\s]*/(reset|verify|confirm|auth|signin|login|activate)[^\s]*".to_string()],
        vec![
            r"(?i)noreply@.*\.google\.com".to_string(),
            r"(?i)no-reply@accounts\.google\.com".to_string(),
            r"(?i)security@".to_string(),
        ],
        true,
    )
}

fn filter() -> LabelFilter {
    LabelFilter::new("Label_42".into(), "agent-blocked".into())
}

fn allowed() -> Vec<&'static str> {
    vec!["from", "to", "subject", "has", "is", "in", "after", "before"]
}

fn mail(id: &str, from: &str, subject: &str, body_b64: &str, labels: Vec<&str>) -> Message {
    Message {
        id: id.into(),
        thread_id: "thread-1".into(),
        label_ids: Some(labels.into_iter().map(String::from).collect()),
        snippet: Some("snippet".into()),
        payload: Some(MessagePart {
            mime_type: Some("text/plain".into()),
            headers: Some(vec![
                Header { name: "From".into(), value: from.into() },
                Header { name: "Subject".into(), value: subject.into() },
            ]),
            body: Some(MessagePartBody { data: Some(body_b64.into()), size: None }),
            parts: None,
        }),
        internal_date: None,
    }
}

#[test]
fn search_query_requires_non_blank_text() {
    assert_eq!(search_query(&None), None);
    assert_eq!(search_query(&Some("   ".into())), None);
    assert_eq!(search_query(&Some(String::new())), None);
    assert_eq!(search_query(&Some("from:alice".into())), Some("from:alice".to_string()));
}

#[test]
fn effective_max_defaults_and_caps() {
    assert_eq!(effective_max(None), 20);
    assert_eq!(effective_max(Some(5)), 5);
    assert_eq!(effective_max(Some(100)), 100);
    assert_eq!(effective_max(Some(250)), 100);
    assert_eq!(effective_max(Some(0)), 0);
}

#[test]
fn plan_search_secures_valid_query() {
    let plan = plan_search("from:alice OR from:bob", &allowed(), "agent-blocked", 10, &filter()).unwrap();
    assert_eq!(plan, "(from:alice OR from:bob) -label:agent-blocked");
}

#[test]
fn plan_search_reports_parse_error_with_position() {
    let err = plan_search("(unclosed", &allowed(), "agent-blocked", 10, &filter()).unwrap_err();
    assert_eq!(err.error, "query_parse_error");
    assert_eq!(err.message, "Unmatched opening parenthesis");
    assert_eq!(err.hint, "Add a closing ')'");
    assert_eq!(err.position, Some(0));
    assert_eq!(err.query, "(unclosed");
}

#[test]
fn plan_search_validation_error_carries_raw_query() {
    let err = plan_search("label:agent-blocked", &allowed(), "agent-blocked", 10, &filter()).unwrap_err();
    assert_eq!(err.error, "query_validation_error");
    assert_eq!(err.message, "Query references a label used for security filtering");
    assert_eq!(err.hint, "Remove the label: operator from your query");
    assert_eq!(err.query, "label:agent-blocked");
    assert_eq!(err.position, None);
}

#[test]
fn plan_search_rejects_too_deep_query() {
    let err = plan_search("((from:alice))", &allowed(), "agent-blocked", 1, &filter()).unwrap_err();
    assert_eq!(err.message, "Query nesting depth exceeds maximum of 1");
    assert_eq!(err.hint, "Simplify the query to reduce nesting");
    assert_eq!(err.query, "((from:alice))");
}

#[test]
fn screen_message_withholds_blocked_label_first() {
    let msg = mail("m1", "noreply@accounts.google.com", "Blocked", "VGhpcyBoYXMgYSBibG9ja2VkIGxhYmVsLg", vec!["INBOX", "Label_42"]);
    let s = screen_message(&filter(), &scrubber(), &msg);
    assert!(matches!(s, Screening::BlockedLabel));
    assert_eq!(s.block_reason(), Some("Blocked label".to_string()));
}

#[test]
fn screen_message_withholds_blocked_sender() {
    let msg = mail("m2", "noreply@accounts.google.com", "Security alert", "U2VjdXJpdHkgYWxlcnQgZnJvbSBHb29nbGUu", vec!["INBOX"]);
    let s = screen_message(&filter(), &scrubber(), &msg);
    assert!(matches!(s, Screening::BlockedSender));
    assert_eq!(s.block_reason(), Some("Blocked sender".to_string()));
}

#[test]
fn screen_message_scrubs_passing_message() {
    let msg = mail(
        "msg-otp",
        "support@example.com",
        "Your code",
        "WW91ciB2ZXJpZmljYXRpb24gY29kZSBpcyA0ODI5MTcuIERvIG5vdCBzaGFyZSB0aGlzIGNvZGUu",
        vec!["INBOX"],
    );
    match screen_message(&filter(), &scrubber(), &msg) {
        Screening::Passed(sm) => {
            assert_eq!(sm.id, "msg-otp");
            assert_eq!(sm.from, "support@example.com");
            assert_eq!(sm.subject, "Your code");
            assert!(sm.body_text.contains("[REDACTED]"));
            assert!(!sm.body_text.contains("482917"));
        }
        _ => panic!("message should pass"),
    }
}

#[test]
fn screen_message_strips_links() {
    let msg = mail(
        "msg-links",
        "friend@example.com",
        "Links",
        "Q2hlY2sgb3V0IGh0dHBzOi8vZXhhbXBsZS5jb20vcGFnZSBhbmQgaHR0cHM6Ly90ZXN0Lm9yZy9saW5rIGZvciBkZXRhaWxzLg",
        vec!["INBOX"],
    );
    match screen_message(&filter(), &scrubber(), &msg) {
        Screening::Passed(sm) => {
            assert_eq!(sm.body_text, "Check out [link removed] and [link removed] for details.");
            assert_eq!(msg_event_reason(&msg), None);
        }
        _ => panic!("message should pass"),
    }
}

fn msg_event_reason(msg: &Message) -> Option<String> {
    let s = screen_message(&filter(), &scrubber(), msg);
    match message_event("id", msg, &s) {
        AuditEvent::GetMessage { block_reason, .. } => block_reason,
        _ => panic!("expected GetMessage"),
    }
}

#[test]
fn screen_all_keeps_only_normal_message_of_mixed_thread() {
    let msgs = vec![
        mail("msg-normal", "alice@example.com", "Hello", "VGhpcyBpcyBhIG5vcm1hbCBtZXNzYWdlLg", vec!["INBOX"]),
        mail("msg-blocked-s", "noreply@accounts.google.com", "Security", "U2VjdXJpdHkgYWxlcnQgZnJvbSBHb29nbGUu", vec!["INBOX"]),
        mail("msg-blocked-l", "bob@example.com", "Blocked label", "VGhpcyBoYXMgYSBibG9ja2VkIGxhYmVsLg", vec!["INBOX", "Label_42"]),
    ];
    let batch = screen_all(&filter(), &scrubber(), &msgs);
    assert_eq!(batch.passed.len(), 1);
    assert_eq!(batch.passed[0].id, "msg-normal");
    assert_eq!(batch.passed[0].from, "alice@example.com");
    assert_eq!(batch.passed[0].body_text, "This is a normal message.");
    assert_eq!(batch.withheld_ids, vec!["msg-blocked-s".to_string(), "msg-blocked-l".to_string()]);

    match thread_event("thread-mixed", msgs.len(), &batch) {
        AuditEvent::GetThread { thread_id, message_count, returned_count, blocked_count } => {
            assert_eq!(thread_id, "thread-mixed");
            assert_eq!(message_count, 3);
            assert_eq!(returned_count, 1);
            assert_eq!(blocked_count, 2);
        }
        _ => panic!("expected GetThread"),
    }
}

#[test]
fn search_event_lists_result_ids() {
    let msgs = vec![
        mail("a", "alice@example.com", "Hi", "VGhpcyBpcyBhIG5vcm1hbCBtZXNzYWdlLg", vec!["INBOX"]),
        mail("b", "carol@example.com", "Yo", "VGhpcyBpcyBhIG5vcm1hbCBtZXNzYWdlLg", vec!["INBOX"]),
    ];
    let batch = screen_all(&filter(), &scrubber(), &msgs);
    let e = search_event("from:alice", "(from:alice) -label:agent-blocked", &batch.passed, &Some("tok".into()), true);
    match e {
        AuditEvent::Search { raw_query, parsed_query, result_count, message_ids, page_token_used, has_next_page } => {
            assert_eq!(raw_query, "from:alice");
            assert_eq!(parsed_query, "(from:alice) -label:agent-blocked");
            assert_eq!(result_count, 2);
            assert_eq!(message_ids, vec!["a".to_string(), "b".to_string()]);
            assert_eq!(page_token_used, Some("tok".to_string()));
            assert!(has_next_page);
        }
        _ => panic!("expected Search"),
    }
}

#[test]
fn message_event_records_block_reason() {
    let msg = mail("m2", "security@example.com", "Alert", "U2VjdXJpdHkgYWxlcnQgZnJvbSBHb29nbGUu", vec!["INBOX"]);
    let s = screen_message(&filter(), &scrubber(), &msg);
    match message_event("m2", &msg, &s) {
        AuditEvent::GetMessage { message_id, from, subject, blocked, block_reason } => {
            assert_eq!(message_id, "m2");
            assert_eq!(from, "security@example.com");
            assert_eq!(subject, "Alert");
            assert!(blocked);
            assert_eq!(block_reason, Some("Blocked sender".to_string()));
        }
        _ => panic!("expected GetMessage"),
    }
}

#[test]
fn rejection_event_copies_message_and_hint() {
    let err = plan_search("in:trash", &allowed(), "agent-blocked", 10, &filter()).unwrap_err();
    match rejection_event("in:trash", &err) {
        AuditEvent::QueryRejected { raw_query, error, hint } => {
            assert_eq!(raw_query, "in:trash");
            assert_eq!(error, "The location 'trash' is restricted");
            assert_eq!(hint, "Use a different location or remove the in: operator");
        }
        _ => panic!("expected QueryRejected"),
    }
}

#[test]
fn planned_search_parses_as_query_and_exclusion() {
    let raw = "from:alice OR subject:\"weekly report\"";
    let text = plan_search(raw, &allowed(), "agent-blocked", 10, &filter()).unwrap();
    let expected = QueryNode::And(vec![
        QueryNode::Group(Box::new(parse_query(raw).unwrap())),
        QueryNode::Operator { key: "label".into(), value: "agent-blocked".into(), negated: true },
    ]);
    assert_eq!(parse_query(&text).unwrap(), expected);
}
