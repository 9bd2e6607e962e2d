//! The FAA NOTAM Management Service client's own decisions: when a
//! cached bearer token may still be used, how long a fresh one is kept,
//! how the token endpoint's `expires_in` reads, and which request a
//! location makes. The HTTP exchanges themselves are left to the caller.
//!
//! Times are milliseconds on the caller's monotonic clock.
use crate::text::{opt_view, parse_u64, parse_u64_spec, push_lit, string_from, to_chars};
use vstd::prelude::*;

verus! {

/// A token is dropped this long before the service says it expires.
pub const TOKEN_REFRESH_MARGIN_SECS: u64 = 60;

/// How long a token that the service says lasts `expires_in_secs` is
/// kept, in milliseconds.
pub open spec fn lifetime_ms(expires_in_secs: u64) -> int {
    (if expires_in_secs > TOKEN_REFRESH_MARGIN_SECS {
        expires_in_secs - TOKEN_REFRESH_MARGIN_SECS
    } else {
        0
    }) * 1000
}

pub struct CachedToken {
    pub access_token: String,
    pub expires_at_ms: u64,
}

/// The bearer token last fetched, if any.
pub struct TokenCache {
    pub cached: Option<CachedToken>,
}

/// The token the cache may hand out at `now_ms`: one that has not yet
/// reached its expiry.
pub open spec fn usable(cached: Option<CachedToken>, now_ms: u64) -> Option<Seq<char>> {
    match cached {
        Some(t) => if t.expires_at_ms > now_ms {
            Some(t.access_token@)
        } else {
            None
        },
        None => None,
    }
}

impl TokenCache {
    pub fn new() -> (r: TokenCache)
        ensures
            r.cached is None,
    {
        TokenCache { cached: None }
    }

    /// The cached token, when it is still usable at `now_ms`; otherwise a
    /// fresh one has to be fetched.
    pub fn current(&self, now_ms: u64) -> (r: Option<String>)
        ensures
            opt_view(r) == usable(self.cached, now_ms),
    {
        match &self.cached {
            Some(t) => if t.expires_at_ms > now_ms {
                Some(string_from(&to_chars(t.access_token.as_str())))
            } else {
                None
            },
            None => None,
        }
    }

    /// Keeps a token fetched at `now_ms` that the service says lasts
    /// `expires_in_secs`, until the refresh margin before that.
    pub fn store(&mut self, access_token: String, expires_in_secs: u64, now_ms: u64)
        requires
            now_ms + lifetime_ms(expires_in_secs) <= u64::MAX,
        ensures
            final(self).cached == Some(
                CachedToken {
                    access_token,
                    expires_at_ms: (now_ms + lifetime_ms(expires_in_secs)) as u64,
                },
            ),
    {
        let secs: u64 = if expires_in_secs > TOKEN_REFRESH_MARGIN_SECS {
            expires_in_secs - TOKEN_REFRESH_MARGIN_SECS
        } else {
            0
        };
        assert(secs * 1000 <= u64::MAX);
        let expires_at_ms = now_ms + secs * 1000;
        self.cached = Some(CachedToken { access_token, expires_at_ms });
    }
}

/// A token stored at `now_ms` is handed out until its lifetime (the
/// service's `expires_in` less the refresh margin) has passed, and not
/// from then on.
pub proof fn lemma_stored_token_served_until_expiry(
    token: String,
    expires_in_secs: u64,
    now_ms: u64,
    later_ms: u64,
)
    requires
        now_ms + lifetime_ms(expires_in_secs) <= u64::MAX,
        now_ms <= later_ms,
    ensures
        ({
            let c = Some(
                CachedToken {
                    access_token: token,
                    expires_at_ms: (now_ms + lifetime_ms(expires_in_secs)) as u64,
                },
            );
            &&& later_ms < now_ms + lifetime_ms(expires_in_secs) ==> usable(c, later_ms) == Some(token@)
            &&& later_ms >= now_ms + lifetime_ms(expires_in_secs) ==> usable(c, later_ms) is None
        }),
{
}

/// The token endpoint's `expires_in` when it arrives as text (some
/// gateways quote the number): `u64::from_str`.
pub fn expires_in_from_text(s: &str) -> (r: Option<u64>)
    ensures
        r == parse_u64_spec(s@),
{
    parse_u64(&to_chars(s))
}

/// The NOTAM query URL for `icao_location` under `api_base_url`; `None`
/// for an empty location, which is refused before any request is made.
pub fn notams_url(api_base_url: &str, icao_location: &str) -> (r: Option<String>)
    ensures
        icao_location@.len() == 0 ==> r is None,
        icao_location@.len() > 0 ==> opt_view(r) == Some(api_base_url@ + "/v1/notams"@),
{
    if to_chars(icao_location).len() == 0 {
        return None;
    }
    let mut url = to_chars(api_base_url);
    push_lit(&mut url, "/v1/notams");
    Some(string_from(&url))
}

} // verus!
