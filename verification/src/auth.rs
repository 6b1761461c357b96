use vstd::prelude::*;
use vstd::string::*;

use crate::gmail::types::TokenResponse;

verus! {

/// Tokens are refreshed this many seconds before they actually expire.
pub const SAFETY_MARGIN_SECS: u64 = 300;

/// How long a token that the server grants for `expires_in` seconds is
/// reused: until the safety margin before its expiry, or not at all when
/// it expires sooner than the margin.
pub open spec fn reuse_secs(expires_in: u64) -> u64 {
    if expires_in > SAFETY_MARGIN_SECS {
        (expires_in - SAFETY_MARGIN_SECS) as u64
    } else {
        0
    }
}

pub fn token_lifetime(expires_in: u64) -> (r: u64)
    ensures
        r == reuse_secs(expires_in),
{
    if expires_in > SAFETY_MARGIN_SECS {
        expires_in - SAFETY_MARGIN_SECS
    } else {
        0
    }
}

/// An access token with the instant (in seconds on a monotonic clock) from
/// which it is no longer reused.
pub struct CachedToken {
    pub access_token: String,
    pub expires_at: u64,
}

impl CachedToken {
    /// Cache a token granted at `now` for `expires_in` seconds.
    pub fn issued(access_token: String, expires_in: u64, now: u64) -> (c: Self)
        requires
            now + reuse_secs(expires_in) <= u64::MAX,
        ensures
            c.access_token@ == access_token@,
            c.expires_at == now + reuse_secs(expires_in),
    {
        CachedToken { access_token, expires_at: now + token_lifetime(expires_in) }
    }

    /// The token may still be used at `now`.
    pub fn is_fresh(&self, now: u64) -> (b: bool)
        ensures
            b == (now < self.expires_at),
    {
        now < self.expires_at
    }

    /// Whole seconds left before the token stops being reused.
    pub fn remaining_secs(&self, now: u64) -> (r: u64)
        ensures
            r == (if self.expires_at > now {
                self.expires_at - now
            } else {
                0
            }),
    {
        if self.expires_at > now {
            self.expires_at - now
        } else {
            0
        }
    }
}

/// The cache entry for a token granted at `now`: `None` only when its
/// reuse time would not fit the clock's range.
pub fn refreshed_cache(resp: TokenResponse, now: u64) -> (r: Option<CachedToken>)
    ensures
        r is Some <==> now + reuse_secs(resp.expires_in) <= u64::MAX,
        r matches Some(c) ==> c.access_token@ == resp.access_token@ && c.expires_at == now + reuse_secs(
            resp.expires_in,
        ),
{
    let lifetime = token_lifetime(resp.expires_in);
    if lifetime > u64::MAX - now {
        None
    } else {
        Some(CachedToken::issued(resp.access_token, resp.expires_in, now))
    }
}

/// The text of the token the cache serves at `now`: the cached one while
/// it is fresh, else none (and a refresh is due).
pub open spec fn cached_token_at(cache: Option<CachedToken>, now: u64) -> Option<Seq<char>> {
    match cache {
        Some(c) => if now < c.expires_at {
            Some(c.access_token@)
        } else {
            None
        },
        None => None,
    }
}

/// The cached token when one is present and still fresh at `now`.
pub fn cached_access_token(cache: &Option<CachedToken>, now: u64) -> (r: Option<String>)
    ensures
        match r {
            Some(t) => cached_token_at(*cache, now) == Some(t@),
            None => cached_token_at(*cache, now) is None,
        },
        match cache {
            Some(c) => if now < c.expires_at {
                r matches Some(t) && t@ == c.access_token@
            } else {
                r is None
            },
            None => r is None,
        },
{
    match cache {
        Some(c) => {
            if c.is_fresh(now) {
                Some(c.access_token.clone())
            } else {
                None
            }
        },
        None => None,
    }
}

/// Whether a fresh token is cached.
pub fn token_is_valid(cache: &Option<CachedToken>, now: u64) -> (b: bool)
    ensures
        b == (cache matches Some(c) && now < c.expires_at),
{
    match cache {
        Some(c) => c.is_fresh(now),
        None => false,
    }
}

/// Seconds until the cached token stops being reused, if one is cached.
pub fn token_expires_in_secs(cache: &Option<CachedToken>, now: u64) -> (r: Option<u64>)
    ensures
        match cache {
            Some(c) => r == Some(if c.expires_at > now {
                (c.expires_at - now) as u64
            } else {
                0u64
            }),
            None => r is None,
        },
{
    match cache {
        Some(c) => Some(c.remaining_secs(now)),
        None => None,
    }
}

/// The form body of a refresh-token grant.
pub fn token_request_body(client_id: &str, client_secret: &str, refresh_token: &str) -> (r: String)
    ensures
        r@ == "grant_type=refresh_token&client_id="@ + client_id@ + "&client_secret="@ + client_secret@
            + "&refresh_token="@ + refresh_token@,
{
    let mut r = String::from_str("grant_type=refresh_token&client_id=");
    r.append(client_id);
    r.append("&client_secret=");
    r.append(client_secret);
    r.append("&refresh_token=");
    r.append(refresh_token);
    r
}

/// A token is only ever reused while more than the safety margin remains
/// before the expiry the server granted; a token granted for no more than
/// the margin is never reused.
pub proof fn law_token_reused_only_before_margin(issued_at: u64, expires_in: u64, now: u64)
    requires
        issued_at <= now,
        issued_at + reuse_secs(expires_in) <= u64::MAX,
    ensures
        now < issued_at + reuse_secs(expires_in) ==> now + SAFETY_MARGIN_SECS < issued_at + expires_in,
        expires_in <= SAFETY_MARGIN_SECS ==> !(now < issued_at + reuse_secs(expires_in)),
{
}

/// Nothing is served before the first refresh; a token refreshed at
/// `issued_at` for `expires_in` seconds is then served from the cache
/// exactly while `now` is more than the safety margin before its expiry,
/// and one granted for no more than the margin is never served again.
pub proof fn law_token_cached_until_margin(c: CachedToken, expires_in: u64, issued_at: u64, now: u64)
    requires
        issued_at <= now,
        c.expires_at == issued_at + reuse_secs(expires_in),
    ensures
        cached_token_at(None, now) is None,
        cached_token_at(Some(c), now) == (if expires_in > SAFETY_MARGIN_SECS && now + SAFETY_MARGIN_SECS
            < issued_at + expires_in {
            Some(c.access_token@)
        } else {
            None::<Seq<char>>
        }),
{
}

} // verus!
