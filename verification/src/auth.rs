use crate::text::{chars_of, string_from_chars, trim, trim_chars};
use vstd::prelude::*;

verus! {

/// Where the browser comes back to after a login.
pub const REDIRECT_URI: &'static str = "http://127.0.0.1:8898/login";

/// An access token kept between runs, with the client it was issued to and the
/// second (since the Unix epoch) at which it expires.
#[derive(Debug, Clone)]
pub struct CachedToken {
    pub client_id: String,
    pub access_token: String,
    pub refresh_token: String,
    pub expires_at: u64,
}

/// What a token endpoint granted: the tokens, and how long the access token lives.
#[derive(Debug, Clone)]
pub struct Grant {
    pub access_token: String,
    pub refresh_token: String,
    pub expires_in_secs: u64,
    pub expires_in_nanos: u32,
}

/// The time since the Unix epoch, in whole seconds and the nanoseconds past them.
pub struct UnixTime {
    pub secs: u64,
    pub nanos: u32,
}

/// `SystemTime::now().duration_since(UNIX_EPOCH)`, zero for a clock before the epoch.
#[verifier::external_body]
fn unix_now() -> (r: UnixTime)
    ensures
        r.nanos < 1_000_000_000,
{
    let since = std::time::SystemTime::now().duration_since(std::time::UNIX_EPOCH).unwrap_or_default();
    UnixTime { secs: since.as_secs(), nanos: since.subsec_nanos() }
}

/// `Duration::saturating_add` of two durations, in whole seconds.
pub open spec fn saturating_secs(a_secs: u64, a_nanos: u32, b_secs: u64, b_nanos: u32) -> u64 {
    let carry: int = if a_nanos + b_nanos >= 1_000_000_000 {
        1
    } else {
        0
    };
    if a_secs + b_secs + carry > u64::MAX {
        u64::MAX
    } else {
        (a_secs + b_secs + carry) as u64
    }
}

/// The second at which a token expires that lives `b` from the instant `a`.
pub fn expiry(a_secs: u64, a_nanos: u32, b_secs: u64, b_nanos: u32) -> (r: u64)
    requires
        a_nanos < 1_000_000_000,
        b_nanos < 1_000_000_000,
    ensures
        r == saturating_secs(a_secs, a_nanos, b_secs, b_nanos),
{
    let carry: u64 = if a_nanos as u64 + b_nanos as u64 >= 1_000_000_000 {
        1
    } else {
        0
    };
    match a_secs.checked_add(b_secs) {
        Some(sum) => match sum.checked_add(carry) {
            Some(total) => total,
            None => u64::MAX,
        },
        None => u64::MAX,
    }
}

impl CachedToken {
    /// Whether the token expires within a minute of `now`.
    pub open spec fn spec_expires_soon(&self, now: u64) -> bool {
        self.expires_at <= if now + 60 > u64::MAX {
            u64::MAX
        } else {
            (now + 60) as u64
        }
    }

    /// Whether the token expires within a minute of the second `now`.
    pub fn expires_soon_at(&self, now: u64) -> (r: bool)
        ensures
            r == self.spec_expires_soon(now),
    {
        self.expires_at <= now.saturating_add(60)
    }

    /// Whether the token expires within a minute of the present.
    pub fn expires_soon(&self) -> (r: bool)
        ensures
            self.expires_at <= 60 ==> r,
    {
        let now = unix_now();
        self.expires_soon_at(now.secs)
    }

    /// The token to keep for a grant issued to `client_id` at the instant `now`: a
    /// grant without a refresh token keeps the one from before.
    pub open spec fn spec_from_grant(
        grant: Grant,
        previous: Option<CachedToken>,
        client_id: Seq<char>,
        now: UnixTime,
    ) -> (Seq<char>, Seq<char>, Seq<char>, u64) {
        (
            client_id,
            grant.access_token@,
            if grant.refresh_token@.len() == 0 {
                match previous {
                    Some(p) => p.refresh_token@,
                    None => Seq::empty(),
                }
            } else {
                grant.refresh_token@
            },
            saturating_secs(now.secs, now.nanos, grant.expires_in_secs, grant.expires_in_nanos),
        )
    }

    pub open spec fn parts(self) -> (Seq<char>, Seq<char>, Seq<char>, u64) {
        (self.client_id@, self.access_token@, self.refresh_token@, self.expires_at)
    }

    /// The token to keep for a grant, issued at the instant `now`.
    pub fn from_grant_at(grant: Grant, previous: Option<&CachedToken>, client_id: &str, now: UnixTime) -> (r: CachedToken)
        requires
            now.nanos < 1_000_000_000,
            grant.expires_in_nanos < 1_000_000_000,
        ensures
            r.parts() == Self::spec_from_grant(
                grant,
                match previous {
                    Some(p) => Some(*p),
                    None => None,
                },
                client_id@,
                now,
            ),
    {
        let refresh_token = if grant.refresh_token.as_str().is_empty() {
            match previous {
                Some(p) => p.refresh_token.clone(),
                None => String::new(),
            }
        } else {
            grant.refresh_token
        };
        let expires_at = expiry(now.secs, now.nanos, grant.expires_in_secs, grant.expires_in_nanos);
        CachedToken {
            client_id: client_id.to_string(),
            access_token: grant.access_token,
            refresh_token,
            expires_at,
        }
    }

    /// The token to keep for a grant issued now.
    pub fn from_grant(grant: Grant, previous: Option<&CachedToken>, client_id: &str) -> (r: CachedToken)
        requires
            grant.expires_in_nanos < 1_000_000_000,
        ensures
            r.client_id@ == client_id@,
            r.access_token@ == grant.access_token@,
            r.refresh_token@ == (if grant.refresh_token@.len() == 0 {
                match previous {
                    Some(p) => p.refresh_token@,
                    None => Seq::empty(),
                }
            } else {
                grant.refresh_token@
            }),
            r.expires_at >= grant.expires_in_secs,
    {
        let now = unix_now();
        Self::from_grant_at(grant, previous, client_id, now)
    }
}

/// A client id the user configured, trimmed; none where it is blank.
pub open spec fn spec_configured_client_id(raw: Option<Seq<char>>) -> Option<Seq<char>> {
    match raw {
        Some(text) => if trim(text).len() > 0 {
            Some(trim(text))
        } else {
            None
        },
        None => None,
    }
}

/// The client id the user configured, from the raw text of the setting.
pub fn configured_client_id(raw: Option<String>) -> (r: Option<String>)
    ensures
        match r {
            Some(id) => spec_configured_client_id(match raw {
                Some(t) => Some(t@),
                None => None,
            }) == Some(id@),
            None => spec_configured_client_id(match raw {
                Some(t) => Some(t@),
                None => None,
            }) is None,
        },
{
    match raw {
        Some(text) => {
            let chars = chars_of(text.as_str());
            let trimmed = trim_chars(chars.as_slice());
            if trimmed.len() > 0 {
                Some(string_from_chars(trimmed.as_slice()))
            } else {
                None
            }
        },
        None => None,
    }
}

/// The name under which a web token is cached: its own for a client the user
/// configured, else that of the session's login.
pub fn token_cache_name(custom_client: bool) -> (r: &'static str)
    ensures
        r@ == (if custom_client {
            "web-auth"@
        } else {
            "session-auth"@
        }),
{
    if custom_client {
        "web-auth"
    } else {
        "session-auth"
    }
}

/// What to do for a web access token.
#[derive(Debug, Clone, PartialEq, Eq)]
pub enum TokenStep {
    /// The cached token serves: its access token.
    UseCached(String),
    /// Refresh with this refresh token.
    Refresh(String),
    /// Log in anew.
    Authorize,
}

/// The step for a web access token, given the cached token (if any), the client it
/// must have been issued to, and the present second: a cached token of that client
/// that does not expire within a minute serves; else its refresh token, where it has
/// one; else a new login.
pub open spec fn spec_token_step(cached: Option<CachedToken>, client_id: Seq<char>, now: u64) -> TokenStep {
    match cached {
        Some(t) => if t.client_id@ != client_id {
            TokenStep::Authorize
        } else if !t.spec_expires_soon(now) {
            TokenStep::UseCached(t.access_token)
        } else if t.refresh_token@.len() > 0 {
            TokenStep::Refresh(t.refresh_token)
        } else {
            TokenStep::Authorize
        },
        None => TokenStep::Authorize,
    }
}

pub open spec fn step_view(s: TokenStep) -> (int, Seq<char>) {
    match s {
        TokenStep::UseCached(a) => (0, a@),
        TokenStep::Refresh(r) => (1, r@),
        TokenStep::Authorize => (2, Seq::empty()),
    }
}

/// The step for a web access token at the second `now`.
pub fn token_step(cached: Option<&CachedToken>, client_id: &str, now: u64) -> (r: TokenStep)
    ensures
        step_view(r) == step_view(
            spec_token_step(
                match cached {
                    Some(t) => Some(*t),
                    None => None,
                },
                client_id@,
                now,
            ),
        ),
{
    match cached {
        Some(t) => {
            let wanted = client_id.to_string();
            if t.client_id != wanted {
                TokenStep::Authorize
            } else if !t.expires_soon_at(now) {
                TokenStep::UseCached(t.access_token.clone())
            } else if !t.refresh_token.as_str().is_empty() {
                TokenStep::Refresh(t.refresh_token.clone())
            } else {
                TokenStep::Authorize
            }
        },
        None => TokenStep::Authorize,
    }
}


/// A token that expires soon at some moment still does so at every later moment.
pub proof fn law_expiry_is_monotone(token: CachedToken, now: u64, later: u64)
    requires
        now <= later,
    ensures
        token.spec_expires_soon(now) ==> token.spec_expires_soon(later),
{
}

/// A cached token serves only the client it was issued to, and only while it does not
/// expire within a minute.
pub proof fn law_cached_token_serves_its_client(token: CachedToken, client_id: Seq<char>, now: u64)
    ensures
        spec_token_step(Some(token), client_id, now) is UseCached ==> token.client_id@ == client_id
            && !token.spec_expires_soon(now),
        token.client_id@ != client_id ==> spec_token_step(Some(token), client_id, now) is Authorize,
{
}

} // verus!
