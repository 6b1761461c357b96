use base64::Engine;
use vstd::prelude::*;
use vstd::string::*;
use vstd::utf8::{decode_utf8, valid_utf8};

use crate::text::{
    clone_strings, eq_ignore_ascii_case, has_substring, lowercase, starts_with, str_contains,
    str_eq_ignore_ascii_case, str_starts_with, strings_view, to_lowercase,
};

verus! {

// ---------------------------------------------------------------------------
// Gmail API response types
// ---------------------------------------------------------------------------

#[derive(Debug)]
pub struct MessageListResponse {
    pub messages: Option<Vec<MessageRef>>,
    pub next_page_token: Option<String>,
    pub result_size_estimate: Option<u32>,
}

#[derive(Debug)]
pub struct MessageRef {
    pub id: String,
    pub thread_id: String,
}

#[derive(Debug)]
pub struct Message {
    pub id: String,
    pub thread_id: String,
    pub label_ids: Option<Vec<String>>,
    pub snippet: Option<String>,
    pub payload: Option<MessagePart>,
    pub internal_date: Option<String>,
}

#[derive(Debug)]
pub struct MessagePart {
    pub mime_type: Option<String>,
    pub headers: Option<Vec<Header>>,
    pub body: Option<MessagePartBody>,
    pub parts: Option<Vec<MessagePart>>,
}

#[derive(Debug)]
pub struct Header {
    pub name: String,
    pub value: String,
}

#[derive(Debug)]
pub struct MessagePartBody {
    pub data: Option<String>,
    pub size: Option<u32>,
}

#[derive(Debug)]
pub struct ThreadResponse {
    pub id: String,
    pub messages: Option<Vec<Message>>,
}

#[derive(Debug)]
pub struct LabelListResponse {
    pub labels: Option<Vec<Label>>,
}

#[derive(Debug)]
pub struct Label {
    pub id: String,
    pub name: String,
}

#[derive(Debug)]
pub struct WatchResponse {
    pub history_id: String,
    pub expiration: String,
}

#[derive(Debug)]
pub struct HistoryResponse {
    pub history: Option<Vec<HistoryRecord>>,
    pub history_id: Option<String>,
    pub next_page_token: Option<String>,
}

#[derive(Debug)]
pub struct HistoryRecord {
    pub messages_added: Option<Vec<MessageAdded>>,
}

#[derive(Debug)]
pub struct MessageAdded {
    pub message: MessageRef,
}

#[derive(Debug)]
pub struct TokenResponse {
    pub access_token: String,
    pub expires_in: u64,
    pub token_type: String,
}

#[derive(Debug)]
pub struct PubSubPullResponse {
    pub received_messages: Option<Vec<ReceivedMessage>>,
}

#[derive(Debug)]
pub struct ReceivedMessage {
    pub ack_id: String,
    pub message: PubSubMessage,
}

#[derive(Debug)]
pub struct PubSubMessage {
    pub data: Option<String>,
    pub message_id: String,
    pub publish_time: Option<String>,
}

#[derive(Debug)]
pub struct GmailNotification {
    pub email_address: String,
    pub history_id: u64,
}

// ---------------------------------------------------------------------------
// Sanitized output type
// ---------------------------------------------------------------------------

#[derive(Debug, Clone)]
pub struct SanitizedMessage {
    pub id: String,
    pub thread_id: String,
    pub from: String,
    pub to: String,
    pub subject: String,
    pub date: String,
    pub snippet: String,
    pub body_text: String,
    pub labels: Vec<String>,
    pub has_attachments: bool,
}


// ---------------------------------------------------------------------------
// Decoding
// ---------------------------------------------------------------------------

/// What the URL-safe base64 engine with padding (`URL_SAFE`) decodes from
/// `data`, or `None` when it rejects it.
pub uninterp spec fn url_safe_decoded(data: Seq<char>) -> Option<Seq<u8>>;

/// What the URL-safe base64 engine without padding (`URL_SAFE_NO_PAD`)
/// decodes from `data`, or `None` when it rejects it.
pub uninterp spec fn url_safe_no_pad_decoded(data: Seq<char>) -> Option<Seq<u8>>;

/// `base64::engine::general_purpose::URL_SAFE.decode`, its error mapped to `None`.
#[verifier::external_body]
fn decode_url_safe(data: &str) -> (r: Option<Vec<u8>>)
    ensures
        r matches Some(v) ==> url_safe_decoded(data@) == Some(v@),
        r is None ==> url_safe_decoded(data@) is None,
{
    base64::engine::general_purpose::URL_SAFE.decode(data).ok()
}

/// `base64::engine::general_purpose::URL_SAFE_NO_PAD.decode`, its error mapped to `None`.
#[verifier::external_body]
fn decode_url_safe_no_pad(data: &str) -> (r: Option<Vec<u8>>)
    ensures
        r matches Some(v) ==> url_safe_no_pad_decoded(data@) == Some(v@),
        r is None ==> url_safe_no_pad_decoded(data@) is None,
{
    base64::engine::general_purpose::URL_SAFE_NO_PAD.decode(data).ok()
}

/// `String::from_utf8`: the text of the bytes when they are valid UTF-8.
#[verifier::external_body]
pub(crate) fn utf8_string(bytes: Vec<u8>) -> (r: Option<String>)
    ensures
        r is Some <==> valid_utf8(bytes@),
        r matches Some(s) ==> s@ == decode_utf8(bytes@),
{
    String::from_utf8(bytes).ok()
}

/// The text of a byte string when it is valid UTF-8.
pub open spec fn utf8_text(b: Seq<u8>) -> Option<Seq<char>> {
    if valid_utf8(b) {
        Some(decode_utf8(b))
    } else {
        None
    }
}

/// The text carried by base64url data: decoded with padding, else without,
/// then read as UTF-8.
pub open spec fn decoded_text(data: Seq<char>) -> Option<Seq<char>> {
    match url_safe_decoded(data) {
        Some(b) => utf8_text(b),
        None => match url_safe_no_pad_decoded(data) {
            Some(b) => utf8_text(b),
            None => None,
        },
    }
}

pub open spec fn opt_text(o: Option<String>) -> Option<Seq<char>> {
    match o {
        Some(s) => Some(s@),
        None => None,
    }
}

// ---------------------------------------------------------------------------
// MIME structure
// ---------------------------------------------------------------------------

pub open spec fn mime_of(p: MessagePart) -> Seq<char> {
    match p.mime_type {
        Some(m) => m@,
        None => Seq::empty(),
    }
}

pub open spec fn body_data(p: MessagePart) -> Option<Seq<char>> {
    match p.body {
        Some(b) => match b.data {
            Some(d) => Some(d@),
            None => None,
        },
        None => None,
    }
}

pub open spec fn headers_of(p: MessagePart) -> Seq<Header> {
    match p.headers {
        Some(v) => v@,
        None => Seq::empty(),
    }
}

/// The plain text of a part: a `text/plain` part's data, or for a
/// `multipart/*` part the first text found among its `text/plain` and
/// `multipart/*` children, falling back to the first `text/html` child
/// that carries data.
pub open spec fn part_text(p: MessagePart) -> Option<Seq<char>>
    decreases p,
{
    let mime = mime_of(p);
    if mime == "text/plain"@ {
        match body_data(p) {
            Some(d) => decoded_text(d),
            None => None,
        }
    } else if starts_with(mime, "multipart/"@) {
        match p.parts {
            Some(v) => match first_plain(v@) {
                Some(t) => Some(t),
                None => first_html(v@),
            },
            None => None,
        }
    } else {
        None
    }
}

/// The first text among the `text/plain` and `multipart/*` parts of `ps`.
pub open spec fn first_plain(ps: Seq<MessagePart>) -> Option<Seq<char>>
    decreases ps,
{
    if ps.len() == 0 {
        None
    } else {
        let m = mime_of(ps[0]);
        let here = if m == "text/plain"@ || starts_with(m, "multipart/"@) {
            part_text(ps[0])
        } else {
            None
        };
        match here {
            Some(t) => Some(t),
            None => first_plain(ps.drop_first()),
        }
    }
}

/// The decoded data of the first `text/html` part of `ps` that carries data.
pub open spec fn first_html(ps: Seq<MessagePart>) -> Option<Seq<char>>
    decreases ps.len(),
{
    if ps.len() == 0 {
        None
    } else if mime_of(ps[0]) == "text/html"@ && body_data(ps[0]) is Some {
        decoded_text(body_data(ps[0]).unwrap())
    } else {
        first_html(ps.drop_first())
    }
}

/// The index of the first header named `name` (ignoring ASCII case), or the length.
pub open spec fn header_index(hs: Seq<Header>, name: Seq<char>, k: int) -> int
    decreases hs.len() - k,
{
    if k < 0 || k >= hs.len() || eq_ignore_ascii_case(hs[k].name@, name) {
        k
    } else {
        header_index(hs, name, k + 1)
    }
}

/// The value of the first header of the message named `name`.
pub open spec fn header_value(m: Message, name: Seq<char>) -> Option<Seq<char>> {
    match m.payload {
        None => None,
        Some(p) => match p.headers {
            None => None,
            Some(v) => {
                let i = header_index(v@, name, 0);
                if i < v@.len() {
                    Some(v@[i].value@)
                } else {
                    None
                }
            },
        },
    }
}

/// A `Content-Disposition` header that mentions `attachment`.
pub open spec fn disposition_attachment(hs: Seq<Header>) -> bool {
    exists|i: int|
        0 <= i < hs.len() && eq_ignore_ascii_case((#[trigger] hs[i]).name@, "Content-Disposition"@)
            && has_substring(lowercase(hs[i].value@), "attachment"@)
}

/// A header whose value mentions `filename`.
pub open spec fn names_a_file(hs: Seq<Header>) -> bool {
    exists|i: int| 0 <= i < hs.len() && has_substring(lowercase((#[trigger] hs[i]).value@), "filename"@)
}

/// A MIME type that is neither empty, nor text, nor multipart.
pub open spec fn binary_mime(m: Seq<char>) -> bool {
    !starts_with(m, "text/"@) && !starts_with(m, "multipart/"@) && m.len() != 0
}

/// A part is, or contains, an attachment.
pub open spec fn part_attaches(p: MessagePart) -> bool
    decreases p,
{
    ||| disposition_attachment(headers_of(p))
    ||| (binary_mime(mime_of(p)) && names_a_file(headers_of(p)))
    ||| match p.parts {
        Some(v) => any_attaches(v@),
        None => false,
    }
}

pub open spec fn any_attaches(ps: Seq<MessagePart>) -> bool
    decreases ps,
{
    if ps.len() == 0 {
        false
    } else {
        part_attaches(ps[0]) || any_attaches(ps.drop_first())
    }
}

pub open spec fn message_attaches(m: Message) -> bool {
    match m.payload {
        Some(p) => part_attaches(p),
        None => false,
    }
}

pub open spec fn message_text(m: Message) -> Option<Seq<char>> {
    match m.payload {
        Some(p) => part_text(p),
        None => None,
    }
}

pub open spec fn text_or_empty(o: Option<Seq<char>>) -> Seq<char> {
    match o {
        Some(t) => t,
        None => Seq::empty(),
    }
}

/// The labels of a message (none when the field is absent).
pub open spec fn msg_labels(m: Message) -> Seq<String> {
    match m.label_ids {
        Some(v) => v@,
        None => Seq::empty(),
    }
}

/// The `From` header of a message, or the empty text.
pub open spec fn sender_of(m: Message) -> Seq<char> {
    text_or_empty(header_value(m, "From"@))
}

/// `r` is the sanitized form of `m` with body text `body`.
pub open spec fn sanitized_from(r: SanitizedMessage, m: Message, body: Seq<char>) -> bool {
    &&& r.id@ == m.id@
    &&& r.thread_id@ == m.thread_id@
    &&& r.from@ == sender_of(m)
    &&& r.to@ == text_or_empty(header_value(m, "To"@))
    &&& r.subject@ == text_or_empty(header_value(m, "Subject"@))
    &&& r.date@ == text_or_empty(header_value(m, "Date"@))
    &&& r.snippet@ == text_or_empty(opt_text(m.snippet))
    &&& r.body_text@ == body
    &&& strings_view(r.labels@) == strings_view(msg_labels(m))
    &&& r.has_attachments == message_attaches(m)
}

fn mime_str(p: &MessagePart) -> (r: &str)
    ensures
        r@ == mime_of(*p),
{
    proof {
        reveal_strlit("");
    }
    match &p.mime_type {
        Some(m) => m.as_str(),
        None => "",
    }
}

fn decode_base64url(data: &str) -> (r: Option<String>)
    ensures
        opt_text(r) == decoded_text(data@),
{
    let bytes = match decode_url_safe(data) {
        Some(b) => b,
        None => match decode_url_safe_no_pad(data) {
            Some(b) => b,
            None => {
                return None;
            },
        },
    };
    utf8_string(bytes)
}

fn body_data_exec(p: &MessagePart) -> (r: Option<&String>)
    ensures
        match r {
            Some(d) => body_data(*p) == Some(d@),
            None => body_data(*p) is None,
        },
{
    match &p.body {
        Some(body) => match &body.data {
            Some(d) => Some(d),
            None => None,
        },
        None => None,
    }
}

impl Message {
    /// Extract plain text body from MIME parts recursively.
    /// Walks the tree preferring text/plain over text/html.
    /// Decodes base64url data (RFC 4648 section 5).
    pub fn extract_text_body(&self) -> (r: Option<String>)
        ensures
            opt_text(r) == message_text(*self),
    {
        match &self.payload {
            Some(payload) => Self::extract_text_from_part(payload),
            None => None,
        }
    }

    pub fn extract_text_from_part(part: &MessagePart) -> (r: Option<String>)
        ensures
            opt_text(r) == part_text(*part),
        decreases part,
    {
        let mime = mime_str(part);
        if crate::text::str_eq(mime, "text/plain") {
            return match body_data_exec(part) {
                Some(d) => decode_base64url(d.as_str()),
                None => None,
            };
        }
        if str_starts_with(mime, "multipart/") {
            match &part.parts {
                Some(parts) => {
                    proof {
                        assert(decreases_to!(*part => part.parts));
                    }
                    let found = Self::first_plain_in(parts);
                    if found.is_some() {
                        found
                    } else {
                        Self::first_html_in(parts)
                    }
                },
                None => None,
            }
        } else {
            None
        }
    }

    fn first_plain_in(parts: &Vec<MessagePart>) -> (r: Option<String>)
        ensures
            opt_text(r) == first_plain(parts@),
        decreases parts,
    {
        let ghost ps = parts@;
        let mut i: usize = 0;
        assert(ps.skip(0) =~= ps);
        while i < parts.len()
            invariant
                ps == parts@,
                i <= ps.len(),
                first_plain(ps) == first_plain(ps.skip(i as int)),
            decreases ps.len() - i,
        {
            let sub = &parts[i];
            let ghost rest = ps.skip(i as int);
            assert(rest[0] == ps[i as int]);
            assert(rest.drop_first() =~= ps.skip(i + 1));
            let sub_mime = mime_str(sub);
            if crate::text::str_eq(sub_mime, "text/plain") || str_starts_with(sub_mime, "multipart/") {
                let found = Self::extract_text_from_part(sub);
                if found.is_some() {
                    assert(first_plain(rest) == opt_text(found));
                    return found;
                }
                assert(first_plain(rest) == first_plain(rest.drop_first()));
            } else {
                assert(first_plain(rest) == first_plain(rest.drop_first()));
            }
            i = i + 1;
        }
        assert(ps.skip(i as int).len() == 0);
        None
    }

    fn first_html_in(parts: &Vec<MessagePart>) -> (r: Option<String>)
        ensures
            opt_text(r) == first_html(parts@),
    {
        let ghost ps = parts@;
        let mut j: usize = 0;
        assert(ps.skip(0) =~= ps);
        while j < parts.len()
            invariant
                ps == parts@,
                j <= ps.len(),
                first_html(ps) == first_html(ps.skip(j as int)),
            decreases ps.len() - j,
        {
            let sub = &parts[j];
            let ghost rest = ps.skip(j as int);
            assert(rest[0] == ps[j as int]);
            assert(rest.drop_first() =~= ps.skip(j + 1));
            if crate::text::str_eq(mime_str(sub), "text/html") {
                match body_data_exec(sub) {
                    Some(d) => {
                        return decode_base64url(d.as_str());
                    },
                    None => {},
                }
            }
            j = j + 1;
        }
        assert(ps.skip(j as int).len() == 0);
        None
    }

    /// Extract header value by name (case-insensitive lookup).
    pub fn header(&self, name: &str) -> (r: Option<&str>)
        ensures
            match header_value(*self, name@) {
                Some(v) => r matches Some(s) && s@ == v,
                None => r is None,
            },
    {
        let payload = match &self.payload {
            Some(p) => p,
            None => {
                return None;
            },
        };
        let headers = match &payload.headers {
            Some(h) => h,
            None => {
                return None;
            },
        };
        let ghost hs = headers@;
        let ghost found = header_index(hs, name@, 0);
        assert(header_value(*self, name@) == (if found < hs.len() {
            Some(hs[found].value@)
        } else {
            None
        }));
        let mut i: usize = 0;
        while i < headers.len()
            invariant
                hs == headers@,
                found == header_index(hs, name@, 0),
                header_value(*self, name@) == (if found < hs.len() {
                    Some(hs[found].value@)
                } else {
                    None
                }),
                i <= hs.len(),
                header_index(hs, name@, i as int) == header_index(hs, name@, 0),
            decreases hs.len() - i,
        {
            if str_eq_ignore_ascii_case(headers[i].name.as_str(), name) {
                assert(header_index(hs, name@, i as int) == i as int);
                return Some(headers[i].value.as_str());
            }
            i = i + 1;
        }
        None
    }

    /// Check if the message has attachments.
    pub fn has_attachments(&self) -> (b: bool)
        ensures
            b == message_attaches(*self),
    {
        match &self.payload {
            Some(payload) => Self::part_has_attachments(payload),
            None => false,
        }
    }

    pub fn part_has_attachments(part: &MessagePart) -> (b: bool)
        ensures
            b == part_attaches(*part),
        decreases part,
    {
        let mime = mime_str(part);
        let ghost hs = headers_of(*part);
        if let Some(headers) = &part.headers {
            let mut i: usize = 0;
            while i < headers.len()
                invariant
                    hs == headers@,
                    hs == headers_of(*part),
                    i <= hs.len(),
                    forall|k: int|
                        0 <= k < i ==> !(eq_ignore_ascii_case((#[trigger] hs[k]).name@, "Content-Disposition"@)
                            && has_substring(lowercase(hs[k].value@), "attachment"@)),
                decreases hs.len() - i,
            {
                let h = &headers[i];
                assert(hs[i as int] == *h);
                if str_eq_ignore_ascii_case(h.name.as_str(), "Content-Disposition") {
                    let lower = to_lowercase(h.value.as_str());
                    if str_contains(lower.as_str(), "attachment") {
                        assert(disposition_attachment(hs));
                        return true;
                    }
                }
                i = i + 1;
            }
        }
        assert(!disposition_attachment(hs));
        if !str_starts_with(mime, "text/") && !str_starts_with(mime, "multipart/") && !mime.is_empty() {
            if let Some(headers) = &part.headers {
                let mut i: usize = 0;
                while i < headers.len()
                    invariant
                        hs == headers@,
                        hs == headers_of(*part),
                        binary_mime(mime_of(*part)),
                        i <= hs.len(),
                        forall|k: int| 0 <= k < i ==> !has_substring(lowercase((#[trigger] hs[k]).value@), "filename"@),
                    decreases hs.len() - i,
                {
                    let lower = to_lowercase(headers[i].value.as_str());
                    assert(hs[i as int] == headers@[i as int]);
                    if str_contains(lower.as_str(), "filename") {
                        assert(names_a_file(hs));
                        return true;
                    }
                    i = i + 1;
                }
            }
        }
        assert(!(binary_mime(mime_of(*part)) && names_a_file(hs)));
        match &part.parts {
            Some(parts) => {
                proof {
                    assert(decreases_to!(*part => part.parts));
                }
                Self::any_attachment_in(parts)
            },
            None => false,
        }
    }

    fn any_attachment_in(parts: &Vec<MessagePart>) -> (b: bool)
        ensures
            b == any_attaches(parts@),
        decreases parts,
    {
        let ghost ps = parts@;
        let mut i: usize = 0;
        assert(ps.skip(0) =~= ps);
        while i < parts.len()
            invariant
                ps == parts@,
                i <= ps.len(),
                any_attaches(ps) == any_attaches(ps.skip(i as int)),
            decreases ps.len() - i,
        {
            let ghost rest = ps.skip(i as int);
            assert(rest[0] == ps[i as int]);
            assert(rest.drop_first() =~= ps.skip(i + 1));
            if Self::part_has_attachments(&parts[i]) {
                return true;
            }
            i = i + 1;
        }
        assert(ps.skip(i as int).len() == 0);
        false
    }

    /// Convert to SanitizedMessage using a pre-scrubbed body text.
    pub fn to_sanitized(&self, scrubbed_body: String) -> (r: SanitizedMessage)
        ensures
            sanitized_from(r, *self, scrubbed_body@),
    {
        SanitizedMessage {
            id: self.id.clone(),
            thread_id: self.thread_id.clone(),
            from: header_or_empty(self.header("From")),
            to: header_or_empty(self.header("To")),
            subject: header_or_empty(self.header("Subject")),
            date: header_or_empty(self.header("Date")),
            snippet: match &self.snippet {
                Some(s) => s.clone(),
                None => String::new(),
            },
            body_text: scrubbed_body,
            labels: match &self.label_ids {
                Some(v) => clone_strings(v),
                None => {
                    let v: Vec<String> = Vec::new();
                    assert(strings_view(v@) =~= Seq::<Seq<char>>::empty());
                    v
                },
            },
            has_attachments: self.has_attachments(),
        }
    }
}

/// The index of the first label named `name` (ignoring ASCII case), or the length.
pub open spec fn label_index(ls: Seq<Label>, name: Seq<char>, k: int) -> int
    decreases ls.len() - k,
{
    if k < 0 || k >= ls.len() || eq_ignore_ascii_case(ls[k].name@, name) {
        k
    } else {
        label_index(ls, name, k + 1)
    }
}

/// The first label named `name`, ignoring ASCII case.
pub fn find_label<'a>(labels: &'a Vec<Label>, name: &str) -> (r: Option<&'a Label>)
    ensures
        label_index(labels@, name@, 0) < labels@.len() ==> r == Some(&labels@[label_index(labels@, name@, 0)]),
        label_index(labels@, name@, 0) >= labels@.len() ==> r is None,
{
    let mut i: usize = 0;
    while i < labels.len()
        invariant
            i <= labels@.len(),
            label_index(labels@, name@, i as int) == label_index(labels@, name@, 0),
        decreases labels@.len() - i,
    {
        if str_eq_ignore_ascii_case(labels[i].name.as_str(), name) {
            return Some(&labels[i]);
        }
        i = i + 1;
    }
    None
}

/// A header value, or the empty text when absent.
pub fn header_or_empty(h: Option<&str>) -> (r: String)
    ensures
        r@ == match h {
            Some(s) => s@,
            None => Seq::empty(),
        },
{
    match h {
        Some(s) => String::from_str(s),
        None => String::new(),
    }
}

// ---------------------------------------------------------------------------
// Laws of the MIME walk and of sanitization
// ---------------------------------------------------------------------------

/// A list of parts holds an attachment exactly when one of its parts is, or
/// contains, an attachment: every part of the list is looked at, whatever its
/// MIME type.
pub proof fn law_any_attaches_iff_some_part(ps: Seq<MessagePart>)
    ensures
        any_attaches(ps) <==> exists|i: int| 0 <= i < ps.len() && part_attaches(#[trigger] ps[i]),
    decreases ps.len(),
{
    if ps.len() > 0 {
        let rest = ps.drop_first();
        law_any_attaches_iff_some_part(rest);
        if any_attaches(rest) {
            let i = choose|i: int| 0 <= i < rest.len() && part_attaches(#[trigger] rest[i]);
            assert(ps[i + 1] == rest[i]);
        }
        if exists|i: int| 0 <= i < ps.len() && part_attaches(#[trigger] ps[i]) {
            let i = choose|i: int| 0 <= i < ps.len() && part_attaches(#[trigger] ps[i]);
            if i > 0 {
                assert(rest[i - 1] == ps[i]);
            }
        }
    }
}

/// A part whose child is, or contains, an attachment contains one itself;
/// by induction an attachment nested at any depth below a part is found.
pub proof fn law_nested_attachment_found(p: MessagePart, i: int)
    requires
        p.parts matches Some(v) && 0 <= i < v@.len() && part_attaches(v@[i]),
    ensures
        part_attaches(p),
{
    let v = p.parts.unwrap();
    law_any_attaches_iff_some_part(v@);
}

/// A part is, or contains, an attachment exactly when it has a
/// `Content-Disposition` header that mentions `attachment` (both ignoring
/// case), or it is neither empty, text nor multipart and a header of it
/// mentions `filename`, or one of its children is, or contains, one.
pub proof fn law_attachment_detected(p: MessagePart)
    ensures
        part_attaches(p) <==> {
            ||| exists|j: int|
                0 <= j < headers_of(p).len() && eq_ignore_ascii_case(
                    (#[trigger] headers_of(p)[j]).name@,
                    "Content-Disposition"@,
                ) && has_substring(lowercase(headers_of(p)[j].value@), "attachment"@)
            ||| (mime_of(p).len() != 0 && !starts_with(mime_of(p), "text/"@) && !starts_with(
                mime_of(p),
                "multipart/"@,
            ) && exists|j: int|
                0 <= j < headers_of(p).len() && has_substring(
                    lowercase((#[trigger] headers_of(p)[j]).value@),
                    "filename"@,
                ))
            ||| (p.parts matches Some(v) && exists|i: int| 0 <= i < v@.len() && part_attaches(#[trigger] v@[i]))
        },
{
    match p.parts {
        Some(v) => law_any_attaches_iff_some_part(v@),
        None => {},
    }
}

/// An eligible source of plain text: a `text/plain` or `multipart/*` part.
pub open spec fn plain_candidate(p: MessagePart) -> bool {
    mime_of(p) == "text/plain"@ || starts_with(mime_of(p), "multipart/"@)
}

proof fn lemma_first_plain_at(ps: Seq<MessagePart>, i: int, t: Seq<char>)
    requires
        0 <= i < ps.len(),
        plain_candidate(ps[i]),
        part_text(ps[i]) == Some(t),
        forall|j: int| 0 <= j < i && plain_candidate(#[trigger] ps[j]) ==> part_text(ps[j]) is None,
    ensures
        first_plain(ps) == Some(t),
    decreases ps.len(),
{
    if i > 0 {
        let rest = ps.drop_first();
        assert forall|j: int| 0 <= j < i - 1 && plain_candidate(#[trigger] rest[j]) implies part_text(rest[j]) is None by {
            assert(rest[j] == ps[j + 1]);
        }
        assert(rest[i - 1] == ps[i]);
        lemma_first_plain_at(rest, i - 1, t);
        assert(plain_candidate(ps[0]) ==> part_text(ps[0]) is None);
    }
}

/// A `multipart/*` part takes its plain text from the first of its children
/// that is `text/plain` or `multipart/*` (of any subtype, nested to any
/// depth) and yields text; the HTML fallback is not consulted then.
pub proof fn law_text_from_first_plain_child(p: MessagePart, i: int, t: Seq<char>)
    requires
        starts_with(mime_of(p), "multipart/"@),
        p.parts matches Some(v) && 0 <= i < v@.len() && plain_candidate(v@[i]) && part_text(v@[i]) == Some(t)
            && forall|j: int| 0 <= j < i && plain_candidate(#[trigger] v@[j]) ==> part_text(v@[j]) is None,
    ensures
        part_text(p) == Some(t),
{
    reveal_strlit("text/plain");
    reveal_strlit("multipart/");
    let v = p.parts.unwrap();
    lemma_first_plain_at(v@, i, t);
    if mime_of(p) == "text/plain"@ {
        assert(mime_of(p)[0] == 't');
        assert(mime_of(p).subrange(0, 10)[0] == 'm');
    }
}

/// The headers of a message's top-level part (none when absent).
pub open spec fn msg_headers(m: Message) -> Seq<Header> {
    match m.payload {
        Some(p) => headers_of(p),
        None => Seq::empty(),
    }
}

/// `k` is the first header of `hs` whose name is `name`, ignoring ASCII case.
pub open spec fn first_named(hs: Seq<Header>, name: Seq<char>, k: int) -> bool {
    &&& 0 <= k < hs.len()
    &&& eq_ignore_ascii_case(hs[k].name@, name)
    &&& forall|j: int| 0 <= j < k ==> !eq_ignore_ascii_case(#[trigger] hs[j].name@, name)
}

/// No header of `hs` is named `name`, ignoring ASCII case.
pub open spec fn none_named(hs: Seq<Header>, name: Seq<char>) -> bool {
    forall|j: int| 0 <= j < hs.len() ==> !eq_ignore_ascii_case(#[trigger] hs[j].name@, name)
}

proof fn lemma_header_index_first(hs: Seq<Header>, name: Seq<char>, j: int, k: int)
    requires
        0 <= j <= k,
        first_named(hs, name, k),
    ensures
        header_index(hs, name, j) == k,
    decreases k - j,
{
    if j < k {
        lemma_header_index_first(hs, name, j + 1, k);
    }
}

proof fn lemma_header_index_none(hs: Seq<Header>, name: Seq<char>, j: int)
    requires
        0 <= j <= hs.len(),
        none_named(hs, name),
    ensures
        header_index(hs, name, j) == hs.len(),
    decreases hs.len() - j,
{
    if j < hs.len() {
        lemma_header_index_none(hs, name, j + 1);
    }
}

/// A header lookup gives the value of the first header with that name
/// (ignoring ASCII case), and nothing when no header has it.
pub proof fn law_header_lookup(m: Message, name: Seq<char>)
    ensures
        forall|k: int| first_named(msg_headers(m), name, k) ==> header_value(m, name) == Some(
            #[trigger] msg_headers(m)[k].value@,
        ),
        none_named(msg_headers(m), name) ==> header_value(m, name) is None,
{
    let hs = msg_headers(m);
    assert forall|k: int| first_named(hs, name, k) implies header_value(m, name) == Some(#[trigger] hs[k].value@) by {
        lemma_header_index_first(hs, name, 0, k);
    }
    if none_named(hs, name) {
        lemma_header_index_none(hs, name, 0);
    }
}

proof fn lemma_sanitized_field(m: Message, name: Seq<char>, field: Seq<char>)
    requires
        field == text_or_empty(header_value(m, name)),
    ensures
        forall|k: int| first_named(msg_headers(m), name, k) ==> field == (#[trigger] msg_headers(m)[k]).value@,
        none_named(msg_headers(m), name) ==> field.len() == 0,
{
    law_header_lookup(m, name);
}

/// The sanitized message shows the message's own `From`, `To`, `Subject` and
/// `Date` headers (the first of each name, ignoring ASCII case; empty when
/// the message has none), the body it was given, and whether the message
/// holds an attachment anywhere in its MIME tree.
pub proof fn law_sanitized_fields(r: SanitizedMessage, m: Message, body: Seq<char>)
    requires
        sanitized_from(r, m, body),
    ensures
        forall|k: int| first_named(msg_headers(m), "From"@, k) ==> r.from@ == (#[trigger] msg_headers(m)[k]).value@,
        forall|k: int| first_named(msg_headers(m), "To"@, k) ==> r.to@ == (#[trigger] msg_headers(m)[k]).value@,
        forall|k: int|
            first_named(msg_headers(m), "Subject"@, k) ==> r.subject@ == (#[trigger] msg_headers(m)[k]).value@,
        forall|k: int| first_named(msg_headers(m), "Date"@, k) ==> r.date@ == (#[trigger] msg_headers(m)[k]).value@,
        none_named(msg_headers(m), "From"@) ==> r.from@.len() == 0,
        none_named(msg_headers(m), "To"@) ==> r.to@.len() == 0,
        none_named(msg_headers(m), "Subject"@) ==> r.subject@.len() == 0,
        none_named(msg_headers(m), "Date"@) ==> r.date@.len() == 0,
        r.body_text@ == body,
        m.payload matches Some(p) ==> (r.has_attachments <==> part_attaches(p)),
        m.payload is None ==> !r.has_attachments,
{
    lemma_sanitized_field(m, "From"@, r.from@);
    lemma_sanitized_field(m, "To"@, r.to@);
    lemma_sanitized_field(m, "Subject"@, r.subject@);
    lemma_sanitized_field(m, "Date"@, r.date@);
}

} // verus!
