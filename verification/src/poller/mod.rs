pub mod processor;
pub mod state;

use vstd::prelude::*;

verus! {

/// The longest pause between two failed pulls, in seconds.
pub const MAX_BACKOFF_SECS: u64 = 60;

/// Twice `b`, at most `MAX_BACKOFF_SECS`.
pub open spec fn doubled_backoff(b: u64) -> int {
    if 2 * b < MAX_BACKOFF_SECS {
        2 * b
    } else {
        MAX_BACKOFF_SECS as int
    }
}

/// The pause before the next pull after a failed one: double the last
/// pause, at most a minute.
pub fn backoff_after_error(backoff_secs: u64) -> (r: u64)
    requires
        backoff_secs <= u64::MAX / 2,
    ensures
        r == doubled_backoff(backoff_secs),
{
    let doubled = backoff_secs * 2;
    if doubled < MAX_BACKOFF_SECS {
        doubled
    } else {
        MAX_BACKOFF_SECS
    }
}

/// The pause after a successful pull (with or without messages).
pub fn backoff_after_success() -> (r: u64)
    ensures
        r == 1,
{
    1
}

/// Starting from one second, the pause stays between one second and a
/// minute whatever the pulls return.
pub proof fn law_backoff_bounded(backoff_secs: u64)
    requires
        1 <= backoff_secs <= MAX_BACKOFF_SECS,
    ensures
        1 <= doubled_backoff(backoff_secs) <= MAX_BACKOFF_SECS,
        backoff_secs < MAX_BACKOFF_SECS ==> backoff_secs < doubled_backoff(backoff_secs),
{
}

} // verus!
