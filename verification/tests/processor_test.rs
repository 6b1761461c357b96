use gmail_proxy::audit::AuditEvent;
use gmail_proxy::gmail::types::{HistoryRecord, HistoryResponse, MessageAdded, MessageRef};
use gmail_proxy::poller::processor::{
    batch_step, decode_notification_data, history_to_fetch, needs_delivery, poll_event, unique_message_ids, BatchStep,
    DeliveryOutcome,
};
use gmail_proxy::poller::{backoff_after_error, backoff_after_success, MAX_BACKOFF_SECS};
use gmail_proxy::poller::state::{read_state, state_text};
use gmail_proxy::proxy::routes::{PollerStatus, ScreenedBatch};

fn added(ids: &[&str]) -> HistoryRecord {
    HistoryRecord {
        messages_added: Some(
            ids.iter()
                .map(|id| MessageAdded { message: MessageRef { id: id.to_string(), thread_id: "t".into() } })
                .collect(),
        ),
    }
}

#[test]
fn notification_data_decodes_standard_base64() {
    let bytes = decode_notification_data("eyJlbWFpbEFkZHJlc3MiOiJ0ZXN0QGdtYWlsLmNvbSIsImhpc3RvcnlJZCI6OTk5OTl9").unwrap();
    assert_eq!(bytes, br#"{"emailAddress":"test@gmail.com","historyId":99999}"#.to_vec());
}

#[test]
fn notification_data_rejects_invalid_base64() {
    assert_eq!(decode_notification_data("not base64!"), None);
    // URL-safe alphabet is not the standard one.
    assert_eq!(decode_notification_data("a-_b"), None);
}

#[test]
fn history_fetched_only_when_newer_id_announced() {
    assert_eq!(history_to_fetch(&vec![], 10), None);
    assert_eq!(history_to_fetch(&vec![5, 10], 10), None);
    assert_eq!(history_to_fetch(&vec![12, 99999, 500], 10), Some(99999));
    assert_eq!(history_to_fetch(&vec![11], 10), Some(11));
}

#[test]
fn unique_ids_keep_first_occurrence_order() {
    let h = HistoryResponse {
        history: Some(vec![
            added(&["msg3", "msg4"]),
            HistoryRecord { messages_added: None },
            added(&["msg4", "msg5", "msg3"]),
        ]),
        history_id: Some("99999".into()),
        next_page_token: None,
    };
    assert_eq!(unique_message_ids(&h), vec!["msg3".to_string(), "msg4".to_string(), "msg5".to_string()]);
}

#[test]
fn unique_ids_of_empty_history() {
    let h = HistoryResponse { history: None, history_id: None, next_page_token: None };
    assert!(unique_message_ids(&h).is_empty());
}

#[test]
fn poller_status_records_processing() {
    let mut ps = PollerStatus {
        connected: false,
        last_message_received: None,
        last_message_delivered: Some("earlier".into()),
        consecutive_errors: 4,
    };
    ps.record_processed("2026-03-14T15:30:00Z".into(), 0);
    assert!(ps.connected);
    assert_eq!(ps.consecutive_errors, 0);
    assert_eq!(ps.last_message_received, Some("2026-03-14T15:30:00Z".to_string()));
    assert_eq!(ps.last_message_delivered, Some("earlier".to_string()));

    ps.record_processed("2026-03-14T16:00:00Z".into(), 2);
    assert_eq!(ps.last_message_delivered, Some("2026-03-14T16:00:00Z".to_string()));
}

#[test]
fn poll_event_counts_batch() {
    let batch = ScreenedBatch { passed: vec![], withheld_ids: vec!["x".into(), "y".into()] };
    match poll_event(99999, 3, &batch) {
        AuditEvent::PollProcessed { history_id, new_message_count, delivered_count, suppressed_count, suppressed_ids } => {
            assert_eq!(history_id, 99999);
            assert_eq!(new_message_count, 3);
            assert_eq!(delivered_count, 0);
            assert_eq!(suppressed_count, 2);
            assert_eq!(suppressed_ids, vec!["x".to_string(), "y".to_string()]);
        }
        _ => panic!("expected PollProcessed"),
    }
}

#[test]
fn backoff_doubles_up_to_a_minute() {
    assert_eq!(backoff_after_success(), 1);
    assert_eq!(backoff_after_error(1), 2);
    assert_eq!(backoff_after_error(16), 32);
    assert_eq!(backoff_after_error(32), 60);
    assert_eq!(backoff_after_error(60), 60);
    let mut b = backoff_after_success();
    for _ in 0..20 {
        b = backoff_after_error(b);
        assert!(b >= 1 && b <= MAX_BACKOFF_SECS);
    }
    assert_eq!(b, 60);
}

#[test]
fn history_advances_only_after_delivery() {
    let empty = ScreenedBatch { passed: vec![], withheld_ids: vec!["x".into()] };
    assert!(!needs_delivery(&empty));
    assert!(matches!(batch_step(10, 12, DeliveryOutcome::NothingToDeliver), BatchStep::Advance(12)));
    assert!(matches!(batch_step(10, 12, DeliveryOutcome::Delivered), BatchStep::Advance(12)));
    assert!(matches!(batch_step(10, 12, DeliveryOutcome::Failed), BatchStep::Keep(10)));
}

#[test]
fn state_text_reads_back() {
    use_state(12345);
    use_state(0);
    use_state(u64::MAX);
}

fn use_state(h: u64) {
    let text = state_text(h);
    assert_eq!(text, format!("{{\n  \"last_history_id\": {h}\n}}"));
    assert_eq!(read_state(&text).unwrap(), Some(h));
}

#[test]
fn state_without_u64_id_reads_as_none() {
    assert_eq!(read_state("{}").unwrap(), None);
    assert_eq!(read_state("{\"last_history_id\": \"12\"}").unwrap(), None);
    assert_eq!(read_state("{\"last_history_id\": -1}").unwrap(), None);
    assert_eq!(read_state("[1, 2]").unwrap(), None);
    assert_eq!(read_state("{\"other\": 1, \"last_history_id\": 7}").unwrap(), Some(7));
}

#[test]
fn state_that_is_not_json_is_an_error() {
    let e = read_state("#not json").unwrap_err();
    assert_eq!(e.message, "failed to parse state file");
    assert!(e.cause.contains("expected value"), "cause: {}", e.cause);
}
