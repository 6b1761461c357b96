use vstd::prelude::*;
use vstd::string::*;

use crate::audit::AuditEvent;
use crate::gmail::types::HistoryResponse;
use crate::proxy::routes::{PollerStatus, ScreenedBatch};
use crate::text::strings_view;

verus! {

/// What the standard base64 engine (`STANDARD`) decodes from `data`, or
/// `None` when it rejects it.
pub uninterp spec fn standard_decoded(data: Seq<char>) -> Option<Seq<u8>>;

/// `base64::engine::general_purpose::STANDARD.decode`, its error mapped to `None`.
#[verifier::external_body]
fn decode_standard(data: &str) -> (r: Option<Vec<u8>>)
    ensures
        r matches Some(v) ==> standard_decoded(data@) == Some(v@),
        r is None ==> standard_decoded(data@) is None,
{
    base64::Engine::decode(&base64::engine::general_purpose::STANDARD, data).ok()
}

/// The bytes of a Pub/Sub notification's data (a JSON document).
pub fn decode_notification_data(data: &str) -> (r: Option<Vec<u8>>)
    ensures
        match r {
            Some(v) => standard_decoded(data@) == Some(v@),
            None => standard_decoded(data@) is None,
        },
{
    decode_standard(data)
}

/// The largest of `ids`, or 0.
pub open spec fn max_id(ids: Seq<u64>) -> u64
    decreases ids.len(),
{
    if ids.len() == 0 {
        0
    } else {
        let m = max_id(ids.drop_last());
        if ids.last() > m { ids.last() } else { m }
    }
}

/// The history id to fetch from, when the notifications announce a history
/// id newer than `current`: the newest announced one.
pub fn history_to_fetch(notified: &Vec<u64>, current: u64) -> (r: Option<u64>)
    ensures
        r == (if max_id(notified@) > current {
            Some(max_id(notified@))
        } else {
            None::<u64>
        }),
{
    let ghost ids = notified@;
    let mut newest: u64 = 0;
    let mut i: usize = 0;
    assert(ids.take(0) =~= Seq::<u64>::empty());
    while i < notified.len()
        invariant
            ids == notified@,
            i <= ids.len(),
            newest == max_id(ids.take(i as int)),
        decreases ids.len() - i,
    {
        assert(ids.take(i + 1).drop_last() =~= ids.take(i as int));
        if notified[i] > newest {
            newest = notified[i];
        }
        i = i + 1;
    }
    assert(ids.take(ids.len() as int) =~= ids);
    if newest > current {
        Some(newest)
    } else {
        None
    }
}

/// How delivering a screened batch to OpenClaw went.
pub enum DeliveryOutcome {
    /// No message passed screening, so nothing was sent.
    NothingToDeliver,
    /// The passing messages were accepted.
    Delivered,
    /// Sending them failed.
    Failed,
}

/// Whether a screened batch has messages to deliver.
pub fn needs_delivery(batch: &ScreenedBatch) -> (b: bool)
    ensures
        b == (batch.passed@.len() > 0),
{
    batch.passed.len() > 0
}

/// What the poller does after a batch: record `target` as the newest
/// history id seen (then save it, update its status and audit the batch),
/// or, when delivery failed, keep `current` and report the failure.
pub enum BatchStep {
    Advance(u64),
    Keep(u64),
}

/// The step after a batch fetched from `current` up to `target`: the
/// history id advances to `target` only when nothing had to be delivered
/// or the delivery succeeded; a failed delivery leaves it at `current`,
/// so the same history is fetched again.
pub fn batch_step(current: u64, target: u64, outcome: DeliveryOutcome) -> (r: BatchStep)
    ensures
        r == batch_step_spec(current, target, outcome),
        outcome is Failed ==> r == BatchStep::Keep(current),
        !(outcome is Failed) ==> r == BatchStep::Advance(target),
{
    match outcome {
        DeliveryOutcome::Failed => BatchStep::Keep(current),
        _ => BatchStep::Advance(target),
    }
}

/// The history id only moves forward: when the notifications announce
/// a newer id than `current`, the batch is fetched up to it, and the
/// step after the batch either keeps `current` (delivery failed) or
/// advances to that newer id; otherwise nothing is fetched.
pub proof fn law_history_id_only_advances(notified: Seq<u64>, current: u64, outcome: DeliveryOutcome)
    ensures
        max_id(notified) > current ==> (outcome is Failed <==> batch_step_spec(current, max_id(notified), outcome)
            == BatchStep::Keep(current)),
        max_id(notified) > current && !(outcome is Failed) ==> batch_step_spec(current, max_id(notified), outcome)
            == BatchStep::Advance(max_id(notified)) && max_id(notified) > current,
{
}

/// The step of `batch_step`, as a spec function.
pub open spec fn batch_step_spec(current: u64, target: u64, outcome: DeliveryOutcome) -> BatchStep {
    if outcome is Failed {
        BatchStep::Keep(current)
    } else {
        BatchStep::Advance(target)
    }
}

/// The ids of the added messages of a history listing, in order.
pub open spec fn added_ids(h: HistoryResponse) -> Seq<Seq<char>> {
    match h.history {
        Some(records) => records_ids(records@),
        None => Seq::empty(),
    }
}

pub open spec fn records_ids(rs: Seq<crate::gmail::types::HistoryRecord>) -> Seq<Seq<char>>
    decreases rs.len(),
{
    if rs.len() == 0 {
        Seq::empty()
    } else {
        records_ids(rs.drop_last()) + match rs.last().messages_added {
            Some(v) => v@.map_values(|m: crate::gmail::types::MessageAdded| m.message.id@),
            None => Seq::empty(),
        }
    }
}

/// `ids` with every repeat of an earlier element removed.
pub open spec fn dedup(ids: Seq<Seq<char>>) -> Seq<Seq<char>>
    decreases ids.len(),
{
    if ids.len() == 0 {
        Seq::empty()
    } else {
        let d = dedup(ids.drop_last());
        if d.contains(ids.last()) {
            d
        } else {
            d.push(ids.last())
        }
    }
}

fn contains_string(v: &Vec<String>, s: &String) -> (b: bool)
    ensures
        b == strings_view(v@).contains(s@),
{
    let mut i: usize = 0;
    while i < v.len()
        invariant
            i <= v@.len(),
            forall|k: int| 0 <= k < i ==> v@[k]@ != s@,
        decreases v@.len() - i,
    {
        if v[i] == *s {
            assert(strings_view(v@)[i as int] == s@);
            return true;
        }
        i = i + 1;
    }
    assert forall|k: int| 0 <= k < strings_view(v@).len() implies strings_view(v@)[k] != s@ by {
        assert(strings_view(v@)[k] == v@[k]@);
    }
    false
}

/// Add `id` to `seen` unless it is already there.
fn push_new(seen: &mut Vec<String>, id: &String)
    ensures
        strings_view(final(seen)@) == (if strings_view(old(seen)@).contains(id@) {
            strings_view(old(seen)@)
        } else {
            strings_view(old(seen)@).push(id@)
        }),
{
    if !contains_string(seen, id) {
        let ghost before = seen@;
        seen.push(id.clone());
        assert(strings_view(seen@) =~= strings_view(before).push(id@));
    }
}

/// The ids of the messages added in a history listing, each once, in the
/// order of their first appearance.
pub fn unique_message_ids(history: &HistoryResponse) -> (r: Vec<String>)
    ensures
        strings_view(r@) == dedup(added_ids(*history)),
{
    let mut unique: Vec<String> = Vec::new();
    assert(strings_view(unique@) =~= Seq::<Seq<char>>::empty());
    match &history.history {
        None => {},
        Some(records) => {
            let ghost rs = records@;
            let mut i: usize = 0;
            assert(records_ids(rs.take(0)) =~= Seq::<Seq<char>>::empty());
            assert(rs.take(0) =~= Seq::empty());
            while i < records.len()
                invariant
                    rs == records@,
                    i <= rs.len(),
                    strings_view(unique@) == dedup(records_ids(rs.take(i as int))),
                decreases rs.len() - i,
            {
                assert(rs.take(i + 1).drop_last() =~= rs.take(i as int));
                let ghost prefix = records_ids(rs.take(i as int));
                match &records[i].messages_added {
                    None => {
                        assert(records_ids(rs.take(i + 1)) =~= prefix);
                    },
                    Some(added) => {
                        let ghost ids = added@.map_values(|m: crate::gmail::types::MessageAdded| m.message.id@);
                        let mut j: usize = 0;
                        assert(prefix + ids.take(0) =~= prefix);
                        while j < added.len()
                            invariant
                                ids == added@.map_values(|m: crate::gmail::types::MessageAdded| m.message.id@),
                                j <= added@.len(),
                                strings_view(unique@) == dedup(prefix + ids.take(j as int)),
                            decreases added@.len() - j,
                        {
                            assert((prefix + ids.take(j + 1)).drop_last() =~= prefix + ids.take(j as int));
                            assert((prefix + ids.take(j + 1)).last() == added@[j as int].message.id@);
                            push_new(&mut unique, &added[j].message.id);
                            j = j + 1;
                        }
                        assert(ids.take(added@.len() as int) =~= ids);
                        assert(records_ids(rs.take(i + 1)) =~= prefix + ids);
                    },
                }
                i = i + 1;
            }
            assert(rs.take(rs.len() as int) =~= rs);
        },
    }
    unique
}

proof fn lemma_contains_push(s: Seq<Seq<char>>, y: Seq<char>, x: Seq<char>)
    ensures
        s.push(y).contains(x) <==> (s.contains(x) || x == y),
{
    if s.contains(x) {
        let k = choose|k: int| 0 <= k < s.len() && s[k] == x;
        assert(s.push(y)[k] == x);
    }
    if x == y {
        assert(s.push(y)[s.len() as int] == x);
    }
    if s.push(y).contains(x) {
        let k = choose|k: int| 0 <= k < s.push(y).len() && s.push(y)[k] == x;
        if k < s.len() {
            assert(s[k] == x);
        }
    }
}

/// No id occurs twice in a deduplicated list, and it holds exactly the ids
/// of the list it was made from.
pub proof fn law_dedup_unique(ids: Seq<Seq<char>>)
    ensures
        forall|i: int, j: int| 0 <= i < j < dedup(ids).len() ==> dedup(ids)[i] != dedup(ids)[j],
        forall|x: Seq<char>| dedup(ids).contains(x) <==> ids.contains(x),
    decreases ids.len(),
{
    if ids.len() > 0 {
        law_dedup_unique(ids.drop_last());
        let d = dedup(ids.drop_last());
        assert(ids == ids.drop_last().push(ids.last()));
        assert forall|x: Seq<char>| dedup(ids).contains(x) <==> ids.contains(x) by {
            lemma_contains_push(ids.drop_last(), ids.last(), x);
            lemma_contains_push(d, ids.last(), x);
        }
    } else {
        assert forall|x: Seq<char>| dedup(ids).contains(x) <==> ids.contains(x) by {}
    }
}

impl PollerStatus {
    /// Record a processed batch at `now`: connected, errors cleared, and
    /// the delivery time set when something was delivered.
    pub fn record_processed(&mut self, now: String, delivered_count: usize)
        ensures
            final(self).connected,
            final(self).consecutive_errors == 0,
            final(self).last_message_received matches Some(t) && t@ == now@,
            delivered_count > 0 ==> (final(self).last_message_delivered matches Some(t) && t@ == now@),
            delivered_count == 0 ==> final(self).last_message_delivered == old(self).last_message_delivered,
    {
        self.connected = true;
        if delivered_count > 0 {
            self.last_message_delivered = Some(now.clone());
        }
        self.last_message_received = Some(now);
        self.consecutive_errors = 0;
    }
}

/// The audit event of a processed batch.
pub fn poll_event(history_id: u64, new_message_count: usize, batch: &ScreenedBatch) -> (e: AuditEvent)
    ensures
        e matches AuditEvent::PollProcessed {
            history_id: h,
            new_message_count: n,
            delivered_count: d,
            suppressed_count: s,
            suppressed_ids: ids,
        } && h == history_id && n == new_message_count && d == batch.passed@.len() && s
            == batch.withheld_ids@.len() && strings_view(ids@) == strings_view(batch.withheld_ids@),
{
    AuditEvent::PollProcessed {
        history_id,
        new_message_count,
        delivered_count: batch.passed.len(),
        suppressed_count: batch.withheld_ids.len(),
        suppressed_ids: crate::text::clone_strings(&batch.withheld_ids),
    }
}

} // verus!
