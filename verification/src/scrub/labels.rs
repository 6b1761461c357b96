use vstd::prelude::*;

use crate::scrub::query::{reconstruct_with_label_exclusion, secure_text, QueryNode};
use crate::text::strings_view;

verus! {

/// Filters out messages carrying the label reserved for security filtering.
pub struct LabelFilter {
    blocked_label_id: String,
    blocked_label_name: String,
}

/// Whether `labels` holds the label `id`.
pub open spec fn has_label(labels: Seq<String>, id: Seq<char>) -> bool {
    exists|i: int| 0 <= i < labels.len() && (#[trigger] labels[i])@ == id
}

/// Label lists with the same texts hold the same labels.
pub proof fn lemma_has_label_view(a: Seq<String>, b: Seq<String>, id: Seq<char>)
    requires
        strings_view(a) == strings_view(b),
    ensures
        has_label(a, id) == has_label(b, id),
{
    assert(a.len() == strings_view(a).len());
    assert(b.len() == strings_view(b).len());
    if has_label(a, id) {
        let k = choose|k: int| 0 <= k < a.len() && (#[trigger] a[k])@ == id;
        assert(strings_view(a)[k] == a[k]@);
        assert(strings_view(b)[k] == b[k]@);
    }
    if has_label(b, id) {
        let k = choose|k: int| 0 <= k < b.len() && (#[trigger] b[k])@ == id;
        assert(strings_view(a)[k] == a[k]@);
        assert(strings_view(b)[k] == b[k]@);
    }
}

impl LabelFilter {
    /// The id of the blocked label.
    pub closed spec fn id(&self) -> Seq<char> {
        self.blocked_label_id@
    }

    /// The name of the blocked label.
    pub closed spec fn name(&self) -> Seq<char> {
        self.blocked_label_name@
    }

    pub fn new(blocked_label_id: String, blocked_label_name: String) -> (f: Self)
        ensures
            f.id() == blocked_label_id@,
            f.name() == blocked_label_name@,
    {
        Self { blocked_label_id, blocked_label_name }
    }

    /// A message is blocked exactly when it carries the blocked label.
    pub fn is_message_blocked(&self, label_ids: &[String]) -> (b: bool)
        ensures
            b == has_label(label_ids@, self.id()),
    {
        let mut i: usize = 0;
        while i < label_ids.len()
            invariant
                i <= label_ids@.len(),
                forall|k: int| 0 <= k < i ==> (#[trigger] label_ids@[k])@ != self.blocked_label_id@,
            decreases label_ids@.len() - i,
        {
            if label_ids[i] == self.blocked_label_id {
                return true;
            }
            i = i + 1;
        }
        false
    }

    /// The query text sent to Gmail: the user query grouped, with the
    /// blocked label excluded.
    pub fn secure_query_string(&self, node: &QueryNode) -> (r: String)
        ensures
            r@ == secure_text(node@, self.name()),
    {
        reconstruct_with_label_exclusion(node, self.blocked_label_name.as_str())
    }

    pub fn blocked_label_id(&self) -> (r: &str)
        ensures
            r@ == self.id(),
    {
        self.blocked_label_id.as_str()
    }

    pub fn blocked_label_name(&self) -> (r: &str)
        ensures
            r@ == self.name(),
    {
        self.blocked_label_name.as_str()
    }
}

} // verus!
