use gmail_proxy::gmail::types::{Header, Message, MessagePart, MessagePartBody};

fn header(name: &str, value: &str) -> Header {
    Header { name: name.into(), value: value.into() }
}

fn part(mime: &str, data: Option<&str>, headers: Option<Vec<Header>>, parts: Option<Vec<MessagePart>>) -> MessagePart {
    MessagePart {
        mime_type: Some(mime.into()),
        headers,
        body: data.map(|d| MessagePartBody { data: Some(d.into()), size: None }),
        parts,
    }
}

fn message(id: &str, thread_id: &str, labels: Option<Vec<&str>>, snippet: Option<&str>, payload: Option<MessagePart>) -> Message {
    Message {
        id: id.into(),
        thread_id: thread_id.into(),
        label_ids: labels.map(|v| v.into_iter().map(String::from).collect()),
        snippet: snippet.map(String::from),
        payload,
        internal_date: None,
    }
}

#[test]
fn test_extract_text_body_simple() {
    let msg = message(
        "abc",
        "def",
        Some(vec!["INBOX"]),
        None,
        Some(part(
            "text/plain",
            Some("SGVsbG8gV29ybGQ"),
            Some(vec![header("From", "alice@example.com"), header("Subject", "Test")]),
            None,
        )),
    );
    assert_eq!(msg.extract_text_body().unwrap(), "Hello World");
}

#[test]
fn test_extract_text_body_multipart() {
    let msg = message(
        "abc",
        "def",
        None,
        None,
        Some(part(
            "multipart/alternative",
            None,
            None,
            Some(vec![
                part("text/plain", Some("UGxhaW4gdGV4dA"), None, None),
                part("text/html", Some("PGI-SFRNTDwvYj4"), None, None),
            ]),
        )),
    );
    assert_eq!(msg.extract_text_body().unwrap(), "Plain text");
}

#[test]
fn test_extract_text_body_nested_multipart() {
    let pdf = MessagePart {
        mime_type: Some("application/pdf".into()),
        headers: Some(vec![header("Content-Disposition", "attachment; filename=\"doc.pdf\"")]),
        body: Some(MessagePartBody { data: None, size: Some(12345) }),
        parts: None,
    };
    let msg = message(
        "abc",
        "def",
        None,
        None,
        Some(part(
            "multipart/mixed",
            None,
            None,
            Some(vec![
                part("multipart/alternative", None, None, Some(vec![part("text/plain", Some("TmVzdGVk"), None, None)])),
                pdf,
            ]),
        )),
    );
    assert_eq!(msg.extract_text_body().unwrap(), "Nested");
    assert!(msg.has_attachments());
}

#[test]
fn test_header_extraction() {
    let msg = message(
        "abc",
        "def",
        None,
        None,
        Some(part(
            "text/plain",
            Some("dGVzdA"),
            Some(vec![
                header("From", "alice@example.com"),
                header("To", "bob@example.com"),
                header("Subject", "Hello"),
                header("Date", "Mon, 14 Mar 2026 10:30:00 +0000"),
            ]),
            None,
        )),
    );
    assert_eq!(msg.header("From"), Some("alice@example.com"));
    assert_eq!(msg.header("from"), Some("alice@example.com"));
    assert_eq!(msg.header("Subject"), Some("Hello"));
    assert_eq!(msg.header("X-Missing"), None);
}

#[test]
fn test_to_sanitized() {
    let msg = message(
        "msg1",
        "t1",
        Some(vec!["INBOX", "CATEGORY_UPDATES"]),
        Some("Hello there..."),
        Some(part(
            "text/plain",
            Some("dGVzdA"),
            Some(vec![
                header("From", "alice@example.com"),
                header("To", "bob@example.com"),
                header("Subject", "Test Subject"),
                header("Date", "2026-03-14T10:30:00Z"),
            ]),
            None,
        )),
    );
    let sanitized = msg.to_sanitized("scrubbed body text".into());
    assert_eq!(sanitized.id, "msg1");
    assert_eq!(sanitized.thread_id, "t1");
    assert_eq!(sanitized.from, "alice@example.com");
    assert_eq!(sanitized.to, "bob@example.com");
    assert_eq!(sanitized.subject, "Test Subject");
    assert_eq!(sanitized.body_text, "scrubbed body text");
    assert_eq!(sanitized.labels, vec!["INBOX", "CATEGORY_UPDATES"]);
    assert!(!sanitized.has_attachments);
}

#[test]
fn test_no_payload_returns_none() {
    let msg = message("abc", "def", None, None, None);
    assert!(msg.extract_text_body().is_none());
}

#[test]
fn html_fallback_when_no_plain_part() {
    let msg = message(
        "abc",
        "def",
        None,
        None,
        Some(part("multipart/alternative", None, None, Some(vec![part("text/html", Some("PGI-SFRNTDwvYj4"), None, None)]))),
    );
    assert_eq!(msg.extract_text_body().unwrap(), "<b>HTML</b>");
}

#[test]
fn padded_base64url_decodes() {
    let msg = message("abc", "def", None, None, Some(part("text/plain", Some("SGk="), None, None)));
    assert_eq!(msg.extract_text_body().unwrap(), "Hi");
}

#[test]
fn invalid_base64_gives_no_text() {
    let msg = message("abc", "def", None, None, Some(part("text/plain", Some("!!!"), None, None)));
    assert!(msg.extract_text_body().is_none());
}

#[test]
fn invalid_utf8_gives_no_text() {
    let msg = message("abc", "def", None, None, Some(part("text/plain", Some("_w"), None, None)));
    assert!(msg.extract_text_body().is_none());
}

#[test]
fn non_text_part_naming_a_file_is_attachment() {
    let msg = message(
        "abc",
        "def",
        None,
        None,
        Some(part("image/png", None, Some(vec![header("Content-Type", "image/png; name=\"a.png\"; FileName=a.png")]), None)),
    );
    assert!(msg.has_attachments());
    let text = message(
        "abc",
        "def",
        None,
        None,
        Some(part("text/plain", None, Some(vec![header("X-Note", "filename=a.txt")]), None)),
    );
    assert!(!text.has_attachments());
}

#[test]
fn sanitized_defaults_when_fields_missing() {
    let msg = message("m", "t", None, None, None);
    let s = msg.to_sanitized(String::new());
    assert_eq!(s.from, "");
    assert_eq!(s.snippet, "");
    assert!(s.labels.is_empty());
    assert!(!s.has_attachments);
}

#[test]
fn part_text_rules() {
    // A top-level text/html part gives no text.
    assert_eq!(Message::extract_text_from_part(&part("text/html", Some("PGI-SFRNTDwvYj4"), None, None)), None);
    // A text/plain part without data gives none either.
    assert_eq!(Message::extract_text_from_part(&part("text/plain", None, None, None)), None);
    // A multipart part prefers a later plain part over an earlier HTML one.
    let mixed = part(
        "multipart/alternative",
        None,
        None,
        Some(vec![
            part("text/html", Some("PGI-SFRNTDwvYj4"), None, None),
            part("text/plain", Some("UGxhaW4gdGV4dA"), None, None),
        ]),
    );
    assert_eq!(Message::extract_text_from_part(&mixed), Some("Plain text".to_string()));
    // A nested multipart part yields its own HTML fallback.
    let deep_html = part(
        "multipart/mixed",
        None,
        None,
        Some(vec![part("multipart/alternative", None, None, Some(vec![part("text/html", Some("PGI-SFRNTDwvYj4"), None, None)]))]),
    );
    assert_eq!(Message::extract_text_from_part(&deep_html), Some("<b>HTML</b>".to_string()));
}

#[test]
fn attachment_found_anywhere_in_the_tree() {
    let disposition = part("text/plain", None, Some(vec![header("content-disposition", "ATTACHMENT; filename=x")]), None);
    assert!(Message::part_has_attachments(&disposition));
    let nested = part("multipart/mixed", None, None, Some(vec![part("text/plain", None, None, None), part("application/pdf", None, Some(vec![header("X", "FileName=r.pdf")]), None)]));
    assert!(Message::part_has_attachments(&nested));
    let inline = part("multipart/mixed", None, None, Some(vec![part("text/plain", None, Some(vec![header("Content-Disposition", "inline")]), None)]));
    assert!(!Message::part_has_attachments(&inline));
}
