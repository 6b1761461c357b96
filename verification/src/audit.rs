use vstd::prelude::*;

verus! {

/// One line of the audit log.
pub struct AuditRecord {
    pub timestamp: String,
    pub request_id: String,
    pub event: AuditEvent,
    pub duration_ms: u64,
}

/// What an audit record reports.
pub enum AuditEvent {
    Search {
        raw_query: String,
        parsed_query: String,
        result_count: usize,
        message_ids: Vec<String>,
        page_token_used: Option<String>,
        has_next_page: bool,
    },
    GetMessage {
        message_id: String,
        from: String,
        subject: String,
        blocked: bool,
        block_reason: Option<String>,
    },
    GetThread { thread_id: String, message_count: usize, returned_count: usize, blocked_count: usize },
    PollProcessed {
        history_id: u64,
        new_message_count: usize,
        delivered_count: usize,
        suppressed_count: usize,
        suppressed_ids: Vec<String>,
    },
    QueryRejected { raw_query: String, error: String, hint: String },
}

} // verus!
