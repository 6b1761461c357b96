use vstd::prelude::*;
use vstd::string::*;

verus! {

/// The error `serde_json` reports for text that is not JSON.
#[verifier::external_type_specification]
#[verifier::external_body]
pub struct ExJsonError(serde_json::Error);

/// What `serde_json::from_str::<serde_json::Value>` makes of `text`, looked
/// up at `key`: `None` when the text is not JSON, else the `u64` stored at
/// `key` of an object (`None` inside when there is none, or it is not a
/// non-negative integer that fits a `u64`).
pub uninterp spec fn json_u64_field(text: Seq<char>, key: Seq<char>) -> Option<Option<u64>>;

/// The `Display` text of the error `serde_json::from_str::<serde_json::Value>`
/// reports for `text` (empty when the text is JSON).
pub uninterp spec fn json_error_message(text: Seq<char>) -> Seq<char>;

/// What `serde_json::to_string_pretty` renders for the object holding the
/// one field `key` with the number `value`.
pub uninterp spec fn json_u64_object_pretty(key: Seq<char>, value: u64) -> Seq<char>;

/// `serde_json::from_str::<serde_json::Value>(text)`, then `Value::get(key)`
/// and `Value::as_u64` on what is found.
#[verifier::external_body]
fn json_u64_field_of(text: &str, key: &str) -> (r: Result<Option<u64>, serde_json::Error>)
    ensures
        r matches Ok(h) ==> json_u64_field(text@, key@) == Some(h),
        r is Err ==> json_u64_field(text@, key@) is None,
{
    match serde_json::from_str::<serde_json::Value>(text) {
        Ok(v) => Ok(
            match v.get(key) {
                Some(x) => x.as_u64(),
                None => None,
            },
        ),
        Err(e) => Err(e),
    }
}

/// The `Display` text of the error that `serde_json::from_str` gives for
/// `text` as a `serde_json::Value`.
#[verifier::external_body]
fn json_error_text(text: &str) -> (r: String)
    ensures
        r@ == json_error_message(text@),
{
    match serde_json::from_str::<serde_json::Value>(text) {
        Ok(_) => String::new(),
        Err(e) => e.to_string(),
    }
}

/// `serde_json::to_string_pretty` of the object `{key: value}` (built as a
/// `serde_json::Map` holding `Value::from(value)`). Serializing a map with
/// string keys cannot fail, and parsing the text back as a
/// `serde_json::Value` gives the same object, so `value` is found at `key`.
#[verifier::external_body]
fn render_u64_object(key: &str, value: u64) -> (s: String)
    ensures
        s@ == json_u64_object_pretty(key@, value),
        json_u64_field(s@, key@) == Some(Some(value)),
{
    let mut map = serde_json::Map::new();
    map.insert(key.to_string(), serde_json::Value::from(value));
    match serde_json::to_string_pretty(&serde_json::Value::Object(map)) {
        Ok(s) => s,
        Err(_) => String::new(),
    }
}

/// The field of the state file that holds the last history id processed.
pub const STATE_KEY: &'static str = "last_history_id";

/// A state file that is not JSON: what failed and the JSON parser's
/// description of the fault.
#[derive(Debug)]
pub struct StateError {
    pub message: String,
    pub cause: String,
}

/// The last history id recorded in the text of a state file: `None` when
/// the file holds no `u64` under `last_history_id`, an error when it is not
/// JSON.
pub fn read_state(text: &str) -> (r: Result<Option<u64>, StateError>)
    ensures
        match json_u64_field(text@, "last_history_id"@) {
            None => r matches Err(e) && e.message@ == "failed to parse state file"@ && e.cause@
                == json_error_message(text@),
            Some(h) => r matches Ok(v) && v == h,
        },
{
    match json_u64_field_of(text, STATE_KEY) {
        Ok(h) => Ok(h),
        Err(_) => Err(
            StateError { message: String::from_str("failed to parse state file"), cause: json_error_text(text) },
        ),
    }
}

/// The text of a state file recording `history_id`; `read_state` reads it
/// back as `Some(history_id)`.
pub fn state_text(history_id: u64) -> (s: String)
    ensures
        s@ == json_u64_object_pretty("last_history_id"@, history_id),
        json_u64_field(s@, "last_history_id"@) == Some(Some(history_id)),
{
    render_u64_object(STATE_KEY, history_id)
}

} // verus!
