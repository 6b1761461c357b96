use vstd::prelude::*;
use vstd::string::*;

use crate::text::strings_view;

verus! {

/// Whether `regex::Regex::new` accepts the pattern (with default settings).
pub uninterp spec fn regex_valid(pattern: Seq<char>) -> bool;

/// Whether the regex of `pattern` matches anywhere in `text`.
pub uninterp spec fn regex_matches(pattern: Seq<char>, text: Seq<char>) -> bool;

/// The text after replacing every non-overlapping match of `pattern` with
/// `replacement` (`Regex::replace_all`).
pub uninterp spec fn regex_replaced(pattern: Seq<char>, text: Seq<char>, replacement: Seq<char>) -> Seq<char>;

/// The error `regex::Regex::new` reports for a pattern it rejects.
#[verifier::external_type_specification]
#[verifier::external_body]
pub struct ExRegexError(regex::Error);

/// `regex::Regex::new(pattern)`, the compiled regex dropped: `Ok` exactly
/// when the pattern compiles, else the crate's error.
#[verifier::external_body]
pub(crate) fn regex_compile(pattern: &str) -> (r: Result<(), regex::Error>)
    ensures
        r is Ok <==> regex_valid(pattern@),
{
    match regex::Regex::new(pattern) {
        Ok(_) => Ok(()),
        Err(e) => Err(e),
    }
}

/// The text (`Display`) of the error `regex::Regex::new` reports for a
/// pattern it rejects: the crate's own description of the fault, which
/// depends on the pattern alone.
pub uninterp spec fn regex_error_message(pattern: Seq<char>) -> Seq<char>;

/// The `Display` text of the `regex::Error` that `regex::Regex::new`
/// returns for `pattern` (which is known not to compile).
#[verifier::external_body]
pub(crate) fn regex_error_text(pattern: &str) -> (r: String)
    requires
        !regex_valid(pattern@),
    ensures
        r@ == regex_error_message(pattern@),
{
    match regex::Regex::new(pattern) {
        Ok(_) => String::new(),
        Err(e) => e.to_string(),
    }
}

/// `Regex::is_match` on the regex that `Regex::new(pattern)` builds; the
/// pattern is known to compile, so building it does not fail.
#[verifier::external_body]
fn regex_is_match(pattern: &str, text: &str) -> (b: bool)
    requires
        regex_valid(pattern@),
    ensures
        b == regex_matches(pattern@, text@),
{
    regex::Regex::new(pattern).unwrap().is_match(text)
}

/// `Regex::replace_all` with a literal replacement (free of `$`), on the
/// regex that `Regex::new(pattern)` builds. The crate documents that a text
/// without a match comes back unchanged.
#[verifier::external_body]
fn regex_replace_all(pattern: &str, text: &str, replacement: &str) -> (r: String)
    requires
        regex_valid(pattern@),
        !replacement@.contains('$'),
    ensures
        r@ == regex_replaced(pattern@, text@, replacement@),
        !regex_matches(pattern@, text@) ==> r@ == text@,
{
    regex::Regex::new(pattern).unwrap().replace_all(text, replacement).into_owned()
}


/// The pattern of a URL (`http://` or `https://` up to the next whitespace).
pub const LINK_PATTERN: &'static str = "https?://\\S+";

/// The text that replaces a redacted code or authentication link.
pub const REDACTED: &'static str = "[REDACTED]";

/// The text that replaces any other link when links are stripped.
pub const LINK_REMOVED: &'static str = "[link removed]";

pub open spec fn all_valid(ps: Seq<Seq<char>>) -> bool {
    forall|i: int| 0 <= i < ps.len() ==> regex_valid(#[trigger] ps[i])
}

/// Every pattern in `ps`, in order, replaced in `text` by `rep`.
pub open spec fn replace_each(ps: Seq<Seq<char>>, text: Seq<char>, rep: Seq<char>) -> Seq<char>
    decreases ps.len(),
{
    if ps.len() == 0 {
        text
    } else {
        regex_replaced(ps.last(), replace_each(ps.drop_last(), text, rep), rep)
    }
}

/// The scrubbed form of a message body.
pub open spec fn scrubbed(otp: Seq<Seq<char>>, urls: Seq<Seq<char>>, strip_links: bool, body: Seq<char>) -> Seq<char> {
    let codes_gone = replace_each(otp, body, REDACTED@);
    let urls_gone = replace_each(urls, codes_gone, REDACTED@);
    if strip_links {
        regex_replaced(LINK_PATTERN@, urls_gone, LINK_REMOVED@)
    } else {
        urls_gone
    }
}

proof fn lemma_replace_each_concat(a: Seq<Seq<char>>, b: Seq<Seq<char>>, text: Seq<char>, rep: Seq<char>)
    ensures
        replace_each(a + b, text, rep) == replace_each(b, replace_each(a, text, rep), rep),
    decreases b.len(),
{
    if b.len() == 0 {
        assert(a + b =~= a);
    } else {
        lemma_replace_each_concat(a, b.drop_last(), text, rep);
        assert((a + b).drop_last() =~= a + b.drop_last());
        assert((a + b).last() == b.last());
    }
}

/// The order of the scrubbing steps: the one-time-code patterns run first
/// and the authentication-link patterns after them, all in their given
/// order and all redacting to `[REDACTED]`; stripping links acts last, on
/// the already redacted text, and replaces each link left in it by
/// `[link removed]`.
pub proof fn law_scrub_order(otp: Seq<Seq<char>>, urls: Seq<Seq<char>>, body: Seq<char>)
    ensures
        scrubbed(otp, urls, false, body) == replace_each(otp + urls, body, REDACTED@),
        scrubbed(otp, urls, true, body) == regex_replaced(
            LINK_PATTERN@,
            scrubbed(otp, urls, false, body),
            LINK_REMOVED@,
        ),
{
    lemma_replace_each_concat(otp, urls, body, REDACTED@);
}

/// No pattern of `ps` matches `text`.
pub open spec fn none_match(ps: Seq<Seq<char>>, text: Seq<char>) -> bool {
    forall|i: int| 0 <= i < ps.len() ==> !regex_matches(#[trigger] ps[i], text)
}

/// The index of the first pattern that matches `text`, or the length of `ps`.
pub open spec fn first_match(ps: Seq<Seq<char>>, text: Seq<char>, k: int) -> int
    decreases ps.len() - k,
{
    if k < 0 || k >= ps.len() || regex_matches(ps[k], text) {
        k
    } else {
        first_match(ps, text, k + 1)
    }
}

pub proof fn lemma_first_match_bounds(ps: Seq<Seq<char>>, text: Seq<char>, k: int)
    requires
        0 <= k <= ps.len(),
    ensures
        k <= first_match(ps, text, k) <= ps.len(),
    decreases ps.len() - k,
{
    if k < ps.len() && !regex_matches(ps[k], text) {
        lemma_first_match_bounds(ps, text, k + 1);
    }
}

/// The reason given for a sender blocked by `pattern`.
pub open spec fn block_reason(pattern: Seq<char>) -> Seq<char> {
    "Sender matches blocked pattern: "@ + pattern
}

/// Redacts one-time codes and authentication links from message bodies and
/// recognises senders whose mail is suppressed. Patterns are regular
/// expressions, kept as their source text.
pub struct ContentScrubber {
    otp_patterns: Vec<String>,
    url_strip_patterns: Vec<String>,
    blocked_sender_patterns: Vec<String>,
    strip_links: bool,
}

/// The outcome of a sender check.
pub struct SenderCheckResult {
    pub blocked: bool,
    pub reason: Option<String>,
}

impl SenderCheckResult {
    pub fn is_blocked(&self) -> (b: bool)
        ensures
            b == self.blocked,
    {
        self.blocked
    }
}

impl ContentScrubber {
    #[verifier::type_invariant]
    spec fn patterns_compile(self) -> bool {
        &&& all_valid(strings_view(self.otp_patterns@))
        &&& all_valid(strings_view(self.url_strip_patterns@))
        &&& all_valid(strings_view(self.blocked_sender_patterns@))
        &&& regex_valid(LINK_PATTERN@)
    }

    pub closed spec fn otp(&self) -> Seq<Seq<char>> {
        strings_view(self.otp_patterns@)
    }

    pub closed spec fn urls(&self) -> Seq<Seq<char>> {
        strings_view(self.url_strip_patterns@)
    }

    pub closed spec fn senders(&self) -> Seq<Seq<char>> {
        strings_view(self.blocked_sender_patterns@)
    }

    pub closed spec fn strips_links(&self) -> bool {
        self.strip_links
    }

    /// Build a scrubber from patterns that all compile.
    pub fn new(
        otp_patterns: Vec<String>,
        url_strip_patterns: Vec<String>,
        blocked_sender_patterns: Vec<String>,
        strip_links: bool,
    ) -> (s: Self)
        requires
            all_valid(strings_view(otp_patterns@)),
            all_valid(strings_view(url_strip_patterns@)),
            all_valid(strings_view(blocked_sender_patterns@)),
            regex_valid(LINK_PATTERN@),
        ensures
            s.otp() == strings_view(otp_patterns@),
            s.urls() == strings_view(url_strip_patterns@),
            s.senders() == strings_view(blocked_sender_patterns@),
            s.strips_links() == strip_links,
    {
        Self { otp_patterns, url_strip_patterns, blocked_sender_patterns, strip_links }
    }

    /// Build a scrubber, or `None` when a pattern (or the link pattern) does
    /// not compile.
    pub fn try_new(
        otp_patterns: Vec<String>,
        url_strip_patterns: Vec<String>,
        blocked_sender_patterns: Vec<String>,
        strip_links: bool,
    ) -> (r: Option<Self>)
        ensures
            r is Some <==> (all_valid(strings_view(otp_patterns@)) && all_valid(strings_view(url_strip_patterns@))
                && all_valid(strings_view(blocked_sender_patterns@)) && regex_valid(LINK_PATTERN@)),
            r matches Some(s) ==> {
                &&& s.otp() == strings_view(otp_patterns@)
                &&& s.urls() == strings_view(url_strip_patterns@)
                &&& s.senders() == strings_view(blocked_sender_patterns@)
                &&& s.strips_links() == strip_links
            },
    {
        if all_compile(&otp_patterns) && all_compile(&url_strip_patterns) && all_compile(&blocked_sender_patterns)
            && regex_compile(LINK_PATTERN).is_ok() {
            Some(Self::new(otp_patterns, url_strip_patterns, blocked_sender_patterns, strip_links))
        } else {
            None
        }
    }

    /// Whether mail from `from` is suppressed, with the first matching
    /// pattern as the reason.
    pub fn check_sender(&self, from: &str) -> (r: SenderCheckResult)
        ensures
            r.blocked == (first_match(self.senders(), from@, 0) < self.senders().len()),
            r.blocked ==> (r.reason matches Some(why) && why@ == block_reason(
                self.senders()[first_match(self.senders(), from@, 0)],
            )),
            !r.blocked ==> r.reason is None,
    {
        proof {
            use_type_invariant(self);
        }
        let ghost ps = self.senders();
        let mut i: usize = 0;
        while i < self.blocked_sender_patterns.len()
            invariant
                ps == strings_view(self.blocked_sender_patterns@),
                all_valid(ps),
                i <= ps.len(),
                first_match(ps, from@, i as int) == first_match(ps, from@, 0),
            decreases ps.len() - i,
        {
            let pattern = &self.blocked_sender_patterns[i];
            assert(ps[i as int] == pattern@);
            if regex_is_match(pattern.as_str(), from) {
                let mut why = String::from_str("Sender matches blocked pattern: ");
                why.append(pattern.as_str());
                return SenderCheckResult { blocked: true, reason: Some(why) };
            }
            i = i + 1;
        }
        SenderCheckResult { blocked: false, reason: None }
    }

    /// Redact one-time codes, then authentication links, then (when
    /// enabled) every remaining link.
    pub fn scrub_body(&self, body: &str) -> (r: String)
        ensures
            r@ == scrubbed(self.otp(), self.urls(), self.strips_links(), body@),
            ({
                &&& none_match(self.otp(), body@)
                &&& none_match(self.urls(), body@)
                &&& self.strips_links() ==> !regex_matches(LINK_PATTERN@, body@)
            }) ==> r@ == body@,
    {
        proof {
            use_type_invariant(self);
            reveal_strlit("[REDACTED]");
            reveal_strlit("[link removed]");
        }
        let codes_gone = replace_each_exec(&self.otp_patterns, String::from_str(body), REDACTED);
        let urls_gone = replace_each_exec(&self.url_strip_patterns, codes_gone, REDACTED);
        if self.strip_links {
            regex_replace_all(LINK_PATTERN, urls_gone.as_str(), LINK_REMOVED)
        } else {
            urls_gone
        }
    }
}

fn all_compile(patterns: &Vec<String>) -> (b: bool)
    ensures
        b == all_valid(strings_view(patterns@)),
{
    let ghost ps = strings_view(patterns@);
    let mut i: usize = 0;
    while i < patterns.len()
        invariant
            ps == strings_view(patterns@),
            i <= ps.len(),
            forall|k: int| 0 <= k < i ==> regex_valid(#[trigger] ps[k]),
        decreases ps.len() - i,
    {
        if regex_compile(patterns[i].as_str()).is_err() {
            assert(!regex_valid(ps[i as int]));
            return false;
        }
        i = i + 1;
    }
    true
}

fn replace_each_exec(patterns: &Vec<String>, text: String, rep: &str) -> (r: String)
    requires
        all_valid(strings_view(patterns@)),
        !rep@.contains('$'),
    ensures
        r@ == replace_each(strings_view(patterns@), text@, rep@),
        none_match(strings_view(patterns@), text@) ==> r@ == text@,
{
    let ghost ps = strings_view(patterns@);
    let mut result = text;
    let mut i: usize = 0;
    assert(ps.take(0) =~= Seq::<Seq<char>>::empty());
    while i < patterns.len()
        invariant
            ps == strings_view(patterns@),
            all_valid(ps),
            !rep@.contains('$'),
            i <= ps.len(),
            result@ == replace_each(ps.take(i as int), text@, rep@),
            none_match(ps, text@) ==> result@ == text@,
        decreases ps.len() - i,
    {
        assert(ps.take(i + 1).drop_last() =~= ps.take(i as int));
        assert(ps.take(i + 1).last() == ps[i as int]);
        result = regex_replace_all(patterns[i].as_str(), result.as_str(), rep);
        i = i + 1;
    }
    assert(ps.take(ps.len() as int) =~= ps);
    result
}

} // verus!
