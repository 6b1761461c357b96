use vstd::prelude::*;
use vstd::string::*;

use crate::audit::AuditEvent;
use crate::gmail::types::{
    header_or_empty, header_value,
    message_text, msg_labels, sanitized_from, sender_of, text_or_empty, Message, SanitizedMessage,
};
use crate::scrub::content::{first_match, scrubbed, ContentScrubber};
use crate::scrub::labels::{has_label, LabelFilter};
use crate::scrub::query::{
    all_permitted, byte_len, law_validation_accepts_exactly, nesting, parse_error, parse_query, secure_text,
    spec_parse, spec_validate, validate_query, ParseFailure, QueryError, QueryErrorView, QueryTree,
    MAX_QUERY_LENGTH,
};
use crate::scrub::reparse::{law_parsed_query_stays_excluded, plain, reads_as, secured_tree, values_readable};
use crate::text::{strings_view, strs_view};

verus! {

/// Health of the Pub/Sub poller.
pub struct PollerStatus {
    pub connected: bool,
    pub last_message_received: Option<String>,
    pub last_message_delivered: Option<String>,
    pub consecutive_errors: u32,
}

/// State of the Gmail watch registration.
pub struct WatchStatus {
    pub active: bool,
    pub expiration: Option<String>,
    pub last_history_id: Option<u64>,
}

/// Query parameters of a search request.
pub struct SearchParams {
    pub q: Option<String>,
    pub max: Option<u32>,
    pub page_token: Option<String>,
}

/// The number of results asked of Gmail when the request names none.
pub const DEFAULT_MAX_RESULTS: u32 = 20;

/// The most results a search may ask for.
pub const MAX_RESULTS_CAP: u32 = 100;

/// The query of a search request, when one is given and is not blank.
pub fn search_query(q: &Option<String>) -> (r: Option<String>)
    ensures
        match q {
            Some(s) => if crate::scrub::query::all_ws(s@) {
                r is None
            } else {
                r matches Some(t) && t@ == s@
            },
            None => r is None,
        },
{
    match q {
        Some(s) => {
            if crate::scrub::query::is_blank(s.as_str()) {
                None
            } else {
                Some(s.clone())
            }
        },
        None => None,
    }
}

/// The number of results to ask Gmail for: the requested number (20 when
/// absent), capped at 100.
pub fn effective_max(max: Option<u32>) -> (r: u32)
    ensures
        r == match max {
            Some(m) => if m < 100 { m } else { 100 },
            None => 20,
        },
{
    let m = match max {
        Some(m) => m,
        None => DEFAULT_MAX_RESULTS,
    };
    if m < MAX_RESULTS_CAP {
        m
    } else {
        MAX_RESULTS_CAP
    }
}

/// The outcome of planning a search over `raw`: the text sent to Gmail, or
/// the rejection (whose `query` is the raw query).
pub open spec fn search_plan(
    raw: Seq<char>,
    allowed: Seq<Seq<char>>,
    blocked_label: Seq<char>,
    max_depth: nat,
    label_name: Seq<char>,
) -> Result<Seq<char>, QueryErrorView> {
    match spec_parse(raw) {
        Err(f) => Err(parse_error(f, raw)),
        Ok(t) => match spec_validate(t, allowed, blocked_label, max_depth, 0) {
            Err(v) => Err(QueryErrorView { query: raw, ..v }),
            Ok(()) => Ok(secure_text(t, label_name)),
        },
    }
}

/// Parse and validate an agent query, and turn it into the query sent to
/// Gmail, with the blocked label excluded.
pub fn plan_search(
    raw: &str,
    allowed_operators: &[&str],
    blocked_label: &str,
    max_depth: usize,
    filter: &LabelFilter,
) -> (r: Result<String, QueryError>)
    ensures
        match (r, search_plan(raw@, strs_view(allowed_operators@), blocked_label@, max_depth as nat, filter.name())) {
            (Ok(s), Ok(t)) => s@ == t,
            (Err(e), Err(v)) => e@ == v,
            _ => false,
        },
        r is Ok ==> (spec_parse(raw@) matches Ok(t) && all_permitted(t, strs_view(allowed_operators@))
            && nesting(t) <= max_depth),
{
    let ast = match parse_query(raw) {
        Ok(ast) => ast,
        Err(e) => {
            return Err(e);
        },
    };
    match validate_query(&ast, allowed_operators, blocked_label, max_depth) {
        Err(e) => {
            return Err(QueryError {
                error: e.error,
                message: e.message,
                hint: e.hint,
                position: e.position,
                query: String::from_str(raw),
            });
        },
        Ok(()) => {},
    }
    Ok(filter.secure_query_string(&ast))
}

/// What a search sends to Gmail is the agent's query, validated, grouped,
/// and joined with the exclusion of the blocked label: the text reads as
/// that conjunction (its tokens at any length, the whole parse within the
/// length limit), and every operator of the agent's query is permitted.
/// (For a label name without delimiters and a query whose operator values
/// each hold a space or no whitespace, parenthesis or brace.)
pub proof fn law_planned_search_excludes_label(
    raw: Seq<char>,
    allowed: Seq<Seq<char>>,
    blocked_label: Seq<char>,
    max_depth: nat,
    label_name: Seq<char>,
    t: QueryTree,
    text: Seq<char>,
)
    requires
        search_plan(raw, allowed, blocked_label, max_depth, label_name) == Ok::<Seq<char>, QueryErrorView>(text),
        spec_parse(raw) == Ok::<QueryTree, ParseFailure>(t),
        values_readable(t),
        label_name.len() > 0,
        plain(label_name),
    ensures
        reads_as(text, secured_tree(t, label_name)),
        all_permitted(t, allowed),
        nesting(t) <= max_depth,
{
    law_validation_accepts_exactly(t, allowed, blocked_label, max_depth);
    law_parsed_query_stays_excluded(raw, t, label_name);
}

// ---------------------------------------------------------------------------
// Message screening
// ---------------------------------------------------------------------------

/// The message carries the blocked label.
pub open spec fn label_blocked(f: LabelFilter, m: Message) -> bool {
    has_label(msg_labels(m), f.id())
}

/// The message comes from a blocked sender.
pub open spec fn sender_blocked(s: ContentScrubber, m: Message) -> bool {
    first_match(s.senders(), sender_of(m), 0) < s.senders().len()
}

/// The message may be shown to the agent.
pub open spec fn passes(f: LabelFilter, s: ContentScrubber, m: Message) -> bool {
    !label_blocked(f, m) && !sender_blocked(s, m)
}

/// The body the agent sees: the plain text (empty when none), scrubbed.
pub open spec fn scrubbed_text(s: ContentScrubber, m: Message) -> Seq<char> {
    scrubbed(s.otp(), s.urls(), s.strips_links(), text_or_empty(message_text(m)))
}

/// What screening decided for one message.
pub enum Screening {
    BlockedLabel,
    BlockedSender,
    Passed(SanitizedMessage),
}

impl Screening {
    /// The reason recorded when the message is withheld.
    pub fn block_reason(&self) -> (r: Option<String>)
        ensures
            match self {
                Screening::BlockedLabel => r matches Some(s) && s@ == "Blocked label"@,
                Screening::BlockedSender => r matches Some(s) && s@ == "Blocked sender"@,
                Screening::Passed(_) => r is None,
            },
    {
        match self {
            Screening::BlockedLabel => Some(String::from_str("Blocked label")),
            Screening::BlockedSender => Some(String::from_str("Blocked sender")),
            Screening::Passed(_) => None,
        }
    }
}

/// Withhold a message with the blocked label or from a blocked sender;
/// otherwise sanitize it with its scrubbed body.
pub fn screen_message(filter: &LabelFilter, scrubber: &ContentScrubber, msg: &Message) -> (r: Screening)
    ensures
        label_blocked(*filter, *msg) ==> r is BlockedLabel,
        !label_blocked(*filter, *msg) && sender_blocked(*scrubber, *msg) ==> r is BlockedSender,
        passes(*filter, *scrubber, *msg) ==> (r matches Screening::Passed(sm) && sanitized_from(
            sm,
            *msg,
            scrubbed_text(*scrubber, *msg),
        )),
{
    let blocked = match &msg.label_ids {
        Some(v) => filter.is_message_blocked(v.as_slice()),
        None => {
            assert(!has_label(Seq::<String>::empty(), filter.id()));
            false
        },
    };
    if blocked {
        return Screening::BlockedLabel;
    }
    let from = match msg.header("From") {
        Some(f) => f,
        None => {
            proof {
                reveal_strlit("");
            }
            ""
        },
    };
    assert(from@ == sender_of(*msg));
    if scrubber.check_sender(from).is_blocked() {
        return Screening::BlockedSender;
    }
    let body = match msg.extract_text_body() {
        Some(b) => b,
        None => String::new(),
    };
    let scrubbed_body = scrubber.scrub_body(body.as_str());
    Screening::Passed(msg.to_sanitized(scrubbed_body))
}

/// The messages of `ms` that pass screening, in order.
pub open spec fn passing(f: LabelFilter, s: ContentScrubber, ms: Seq<Message>) -> Seq<Message>
    decreases ms.len(),
{
    if ms.len() == 0 {
        Seq::empty()
    } else {
        let p = passing(f, s, ms.drop_last());
        if passes(f, s, ms.last()) {
            p.push(ms.last())
        } else {
            p
        }
    }
}

/// The ids of the messages of `ms` that are withheld, in order.
pub open spec fn withheld_ids(f: LabelFilter, s: ContentScrubber, ms: Seq<Message>) -> Seq<Seq<char>>
    decreases ms.len(),
{
    if ms.len() == 0 {
        Seq::empty()
    } else {
        let w = withheld_ids(f, s, ms.drop_last());
        if passes(f, s, ms.last()) {
            w
        } else {
            w.push(ms.last().id@)
        }
    }
}

/// The result of screening a batch of messages.
pub struct ScreenedBatch {
    pub passed: Vec<SanitizedMessage>,
    pub withheld_ids: Vec<String>,
}

pub proof fn lemma_passing_split(f: LabelFilter, s: ContentScrubber, ms: Seq<Message>)
    ensures
        passing(f, s, ms).len() + withheld_ids(f, s, ms).len() == ms.len(),
        forall|i: int| 0 <= i < passing(f, s, ms).len() ==> passes(f, s, #[trigger] passing(f, s, ms)[i]),
    decreases ms.len(),
{
    if ms.len() > 0 {
        lemma_passing_split(f, s, ms.drop_last());
    }
}

/// Screen a batch of messages: the passing ones sanitized, in order, and
/// the ids of the withheld ones.
pub fn screen_all(filter: &LabelFilter, scrubber: &ContentScrubber, msgs: &Vec<Message>) -> (r: ScreenedBatch)
    ensures
        r.passed@.len() == passing(*filter, *scrubber, msgs@).len(),
        forall|i: int|
            0 <= i < r.passed@.len() ==> sanitized_from(
                #[trigger] r.passed@[i],
                passing(*filter, *scrubber, msgs@)[i],
                scrubbed_text(*scrubber, passing(*filter, *scrubber, msgs@)[i]),
            ),
        strings_view(r.withheld_ids@) == withheld_ids(*filter, *scrubber, msgs@),
        r.passed@.len() + r.withheld_ids@.len() == msgs@.len(),
        forall|i: int| 0 <= i < r.passed@.len() ==> !has_label((#[trigger] r.passed@[i]).labels@, filter.id()),
        forall|i: int|
            0 <= i < r.passed@.len() ==> first_match(scrubber.senders(), (#[trigger] r.passed@[i]).from@, 0)
                == scrubber.senders().len(),
{
    let ghost ms = msgs@;
    let mut passed: Vec<SanitizedMessage> = Vec::new();
    let mut withheld: Vec<String> = Vec::new();
    let mut i: usize = 0;
    proof {
        assert(ms.take(0) =~= Seq::<Message>::empty());
        assert(strings_view(withheld@) =~= Seq::<Seq<char>>::empty());
    }
    while i < msgs.len()
        invariant
            ms == msgs@,
            i <= ms.len(),
            passed@.len() == passing(*filter, *scrubber, ms.take(i as int)).len(),
            forall|k: int|
                0 <= k < passed@.len() ==> sanitized_from(
                    #[trigger] passed@[k],
                    passing(*filter, *scrubber, ms.take(i as int))[k],
                    scrubbed_text(*scrubber, passing(*filter, *scrubber, ms.take(i as int))[k]),
                ),
            strings_view(withheld@) == withheld_ids(*filter, *scrubber, ms.take(i as int)),
        decreases ms.len() - i,
    {
        let ghost before = ms.take(i as int);
        let ghost after = ms.take(i + 1);
        assert(after.drop_last() =~= before);
        assert(after.last() == ms[i as int]);
        let msg = &msgs[i];
        match screen_message(filter, scrubber, msg) {
            Screening::Passed(sm) => {
                passed.push(sm);
            },
            _ => {
                let ghost w = withheld@;
                withheld.push(msg.id.clone());
                assert(strings_view(withheld@) =~= strings_view(w).push(msg.id@));
            },
        }
        i = i + 1;
    }
    proof {
        assert(ms.take(ms.len() as int) =~= ms);
        lemma_passing_split(*filter, *scrubber, ms);
        assert forall|i: int| 0 <= i < passed@.len() implies !has_label((#[trigger] passed@[i]).labels@, filter.id()) by {
            let src = passing(*filter, *scrubber, ms)[i];
            assert(passes(*filter, *scrubber, src));
            assert(strings_view(passed@[i].labels@) == strings_view(msg_labels(src)));
            crate::scrub::labels::lemma_has_label_view(passed@[i].labels@, msg_labels(src), filter.id());
        }
        assert forall|i: int| 0 <= i < passed@.len() implies first_match(scrubber.senders(), (#[trigger] passed@[i]).from@, 0)
            == scrubber.senders().len() by {
            let src = passing(*filter, *scrubber, ms)[i];
            assert(passes(*filter, *scrubber, src));
            crate::scrub::content::lemma_first_match_bounds(scrubber.senders(), sender_of(src), 0);
        }
    }
    ScreenedBatch { passed, withheld_ids: withheld }
}


// ---------------------------------------------------------------------------
// Audit events
// ---------------------------------------------------------------------------

pub open spec fn ids_of(ms: Seq<SanitizedMessage>) -> Seq<Seq<char>> {
    ms.map_values(|m: SanitizedMessage| m.id@)
}

pub open spec fn opt_view(o: Option<String>) -> Option<Seq<char>> {
    match o {
        Some(s) => Some(s@),
        None => None,
    }
}

fn clone_opt(o: &Option<String>) -> (r: Option<String>)
    ensures
        opt_view(r) == opt_view(*o),
{
    match o {
        Some(s) => Some(s.clone()),
        None => None,
    }
}

/// The audit event of a served search.
pub fn search_event(
    raw_query: &str,
    parsed_query: &str,
    results: &Vec<SanitizedMessage>,
    page_token: &Option<String>,
    has_next_page: bool,
) -> (e: AuditEvent)
    ensures
        e matches AuditEvent::Search {
            raw_query: rq,
            parsed_query: pq,
            result_count: n,
            message_ids: ids,
            page_token_used: pt,
            has_next_page: hn,
        } && rq@ == raw_query@ && pq@ == parsed_query@ && n == results@.len() && strings_view(ids@) == ids_of(
            results@,
        ) && opt_view(pt) == opt_view(*page_token) && hn == has_next_page,
{
    let mut ids: Vec<String> = Vec::new();
    let mut i: usize = 0;
    while i < results.len()
        invariant
            i <= results@.len(),
            ids@.len() == i,
            forall|k: int| 0 <= k < i ==> (#[trigger] ids@[k])@ == results@[k].id@,
        decreases results@.len() - i,
    {
        ids.push(results[i].id.clone());
        i = i + 1;
    }
    assert(strings_view(ids@) =~= ids_of(results@));
    AuditEvent::Search {
        raw_query: String::from_str(raw_query),
        parsed_query: String::from_str(parsed_query),
        result_count: results.len(),
        message_ids: ids,
        page_token_used: clone_opt(page_token),
        has_next_page,
    }
}

/// The audit event of a served (or withheld) message.
pub fn message_event(message_id: &str, msg: &Message, screening: &Screening) -> (e: AuditEvent)
    ensures
        e matches AuditEvent::GetMessage {
            message_id: id,
            from,
            subject,
            blocked,
            block_reason,
        } && id@ == message_id@ && from@ == sender_of(*msg) && subject@ == text_or_empty(
            header_value(*msg, "Subject"@),
        ) && blocked == !(screening is Passed) && (match screening {
            Screening::BlockedLabel => block_reason matches Some(r) && r@ == "Blocked label"@,
            Screening::BlockedSender => block_reason matches Some(r) && r@ == "Blocked sender"@,
            Screening::Passed(_) => block_reason is None,
        }),
{
    let blocked = match screening {
        Screening::Passed(_) => false,
        _ => true,
    };
    AuditEvent::GetMessage {
        message_id: String::from_str(message_id),
        from: header_or_empty(msg.header("From")),
        subject: header_or_empty(msg.header("Subject")),
        blocked,
        block_reason: screening.block_reason(),
    }
}

/// The audit event of a served thread.
pub fn thread_event(thread_id: &str, message_count: usize, batch: &ScreenedBatch) -> (e: AuditEvent)
    ensures
        e matches AuditEvent::GetThread {
            thread_id: t,
            message_count: n,
            returned_count: r,
            blocked_count: b,
        } && t@ == thread_id@ && n == message_count && r == batch.passed@.len() && b == batch.withheld_ids@.len(),
{
    AuditEvent::GetThread {
        thread_id: String::from_str(thread_id),
        message_count,
        returned_count: batch.passed.len(),
        blocked_count: batch.withheld_ids.len(),
    }
}

/// The audit event of a rejected query.
pub fn rejection_event(raw_query: &str, e: &QueryError) -> (r: AuditEvent)
    ensures
        r matches AuditEvent::QueryRejected { raw_query: q, error, hint } && q@ == raw_query@ && error@
            == e.message@ && hint@ == e.hint@,
{
    AuditEvent::QueryRejected {
        raw_query: String::from_str(raw_query),
        error: e.message.clone(),
        hint: e.hint.clone(),
    }
}

} // verus!
