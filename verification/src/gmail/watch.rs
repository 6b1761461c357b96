use vstd::prelude::*;

use crate::text::str_chars;

use crate::gmail::types::WatchResponse;
use crate::proxy::routes::WatchStatus;

verus! {

/// The character is an ASCII decimal digit.
pub open spec fn is_digit(c: char) -> bool {
    '0' <= c && c <= '9'
}

/// The number that a string of decimal digits denotes.
pub open spec fn digits_value(d: Seq<char>) -> int
    decreases d.len(),
{
    if d.len() == 0 {
        0
    } else {
        10 * digits_value(d.drop_last()) + (d.last() as int - '0' as int)
    }
}

/// The text after an optional leading `+`.
pub open spec fn unsigned_digits(s: Seq<char>) -> Seq<char> {
    if s.len() > 0 && s[0] == '+' {
        s.drop_first()
    } else {
        s
    }
}

/// Every character is an ASCII digit.
pub open spec fn all_digits(d: Seq<char>) -> bool {
    forall|k: int| 0 <= k < d.len() ==> is_digit(#[trigger] d[k])
}

/// What `str::parse::<u64>` yields, as its documentation states: the text
/// is an optional `+` followed by at least one ASCII digit and nothing
/// else, and the number fits in a `u64`; otherwise it fails (`None`).
pub open spec fn parsed_u64(s: Seq<char>) -> Option<u64> {
    let d = unsigned_digits(s);
    if d.len() > 0 && all_digits(d) && digits_value(d) <= u64::MAX {
        Some(digits_value(d) as u64)
    } else {
        None
    }
}

proof fn lemma_digits_value_grows(d: Seq<char>, i: int, j: int)
    requires
        0 <= i <= j <= d.len(),
        forall|k: int| 0 <= k < d.len() ==> is_digit(#[trigger] d[k]),
    ensures
        0 <= digits_value(d.take(i)) <= digits_value(d.take(j)),
    decreases j - i,
{
    if i < j {
        lemma_digits_value_grows(d, i, j - 1);
        assert(d.take(j).drop_last() =~= d.take(j - 1));
    } else {
        lemma_digits_value_nonneg(d.take(i));
    }
}

proof fn lemma_digits_value_nonneg(d: Seq<char>)
    requires
        forall|k: int| 0 <= k < d.len() ==> is_digit(#[trigger] d[k]),
    ensures
        0 <= digits_value(d),
    decreases d.len(),
{
    if d.len() > 0 {
        lemma_digits_value_nonneg(d.drop_last());
    }
}

/// A decimal number as `str::parse::<u64>` reads it (an optional `+`,
/// then ASCII digits, in range), or `None`.
pub fn parse_u64(s: &str) -> (r: Option<u64>)
    ensures
        r == parsed_u64(s@),
{
    let chars = str_chars(s);
    let start: usize = if chars.len() > 0 && chars[0] == '+' {
        1
    } else {
        0
    };
    let ghost d = unsigned_digits(s@);
    assert(d =~= s@.subrange(start as int, s@.len() as int));
    if start >= chars.len() {
        return None;
    }
    let mut value: u64 = 0;
    let mut i: usize = start;
    while i < chars.len()
        invariant
            chars@ == s@,
            d == s@.subrange(start as int, s@.len() as int),
            d == unsigned_digits(s@),
            d.len() > 0,
            start <= i <= chars@.len(),
            forall|k: int| 0 <= k < i - start ==> is_digit(#[trigger] d[k]),
            value == digits_value(d.take(i - start)),
        decreases chars@.len() - i,
    {
        let c = chars[i];
        assert(c == d[i - start]);
        if !('0' <= c && c <= '9') {
            assert(!is_digit(d[i - start]));
            assert(!all_digits(d));
            return None;
        }
        let digit = (c as u32 - '0' as u32) as u64;
        assert(d.take(i - start + 1).drop_last() =~= d.take(i - start));
        assert(d.take(i - start + 1).last() == c);
        if value > (u64::MAX - digit) / 10 {
            proof {
                let n = (i - start + 1) as int;
                assert(digit == c as int - '0' as int);
                assert(digits_value(d.take(n)) == 10 * digits_value(d.take(n).drop_last()) + (
                d.take(n).last() as int - '0' as int));
                assert(digits_value(d.take(n)) > u64::MAX) by (nonlinear_arith)
                    requires
                        digits_value(d.take(n)) == 10 * value + digit,
                        value > (u64::MAX - digit) / 10,
                        digit <= 9,
                ;
                if all_digits(d) {
                    lemma_digits_value_grows(d, n, d.len() as int);
                    assert(d.take(d.len() as int) =~= d);
                }
            }
            return None;
        }
        proof {
            let n = (i - start + 1) as int;
            assert(digit == c as int - '0' as int);
            assert(digits_value(d.take(n)) == 10 * digits_value(d.take(n).drop_last()) + (
            d.take(n).last() as int - '0' as int));
            assert(10 * value + digit <= u64::MAX) by (nonlinear_arith)
                requires
                    value <= (u64::MAX - digit) / 10,
                    digit <= 9,
            ;
        }
        value = value * 10 + digit;
        i = i + 1;
    }
    assert(d.take(d.len() as int) =~= d);
    Some(value)
}

/// The history id that a watch registration reports, when it is a number.
pub fn watch_history_id(resp: &WatchResponse) -> (r: Option<u64>)
    ensures
        r == parsed_u64(resp.history_id@),
{
    parse_u64(resp.history_id.as_str())
}

impl WatchStatus {
    /// Record a successful registration (or renewal) of the watch.
    pub fn record_registration(&mut self, expiration: String, history_id: u64)
        ensures
            final(self).active,
            final(self).expiration matches Some(e) && e@ == expiration@,
            final(self).last_history_id == Some(history_id),
    {
        self.active = true;
        self.expiration = Some(expiration);
        self.last_history_id = Some(history_id);
    }
}

/// The history id the poller starts from: the saved one, else the one the
/// watch reported, else 0.
pub fn starting_history_id(saved: Option<u64>, from_watch: Option<u64>) -> (r: u64)
    ensures
        r == match saved {
            Some(s) => s,
            None => match from_watch {
                Some(w) => w,
                None => 0,
            },
        },
{
    match saved {
        Some(s) => s,
        None => match from_watch {
            Some(w) => w,
            None => 0,
        },
    }
}

} // verus!
