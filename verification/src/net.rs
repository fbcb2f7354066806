use crate::numbers::{parse_u64, spec_parse_u64};
use crate::text::chars_of;
use vstd::prelude::*;

verus! {

/// How often a request that failed for a passing reason is tried again.
pub const RETRIES: u32 = 3;

/// Errors that tell whether trying again may help.
pub trait Recoverable {
    /// Whether the failure may pass (a timeout, a refused connection, a service that is
    /// briefly unavailable).
    fn recoverable(&self) -> bool;
}

pub open spec fn pow4(n: nat) -> nat
    decreases n,
{
    if n == 0 {
        1
    } else {
        4 * pow4((n - 1) as nat)
    }
}

/// The wait before try `attempt` again (counting the retries from 1), in
/// milliseconds: half a second, growing fourfold each time.
pub open spec fn spec_backoff_ms(attempt: nat) -> nat {
    500 * pow4((attempt - 1) as nat)
}

/// The wait before the `attempt`-th retry, in milliseconds.
pub fn backoff_ms(attempt: u32) -> (r: u64)
    requires
        1 <= attempt <= RETRIES,
    ensures
        r == spec_backoff_ms(attempt as nat),
{
    let mut wait: u64 = 500;
    let mut k: u32 = 1;
    while k < attempt
        invariant
            1 <= k <= attempt <= RETRIES,
            wait == 500 * pow4((k - 1) as nat),
        decreases attempt - k,
    {
        proof {
            reveal_with_fuel(pow4, 3);
            assert(pow4(k as nat) == 4 * pow4((k - 1) as nat));
        }
        wait = wait * 4;
        k += 1;
    }
    wait
}

/// After a failed try, `attempt` retries in, whether to try again: the number of the
/// retry and the wait before it, in milliseconds.
pub open spec fn spec_retry(attempt: u32, recoverable: bool) -> Option<(u32, u64)> {
    if attempt < RETRIES && recoverable {
        Some(((attempt + 1) as u32, spec_backoff_ms((attempt + 1) as nat) as u64))
    } else {
        None
    }
}

/// Whether to try a failed request again, after `attempt` retries.
pub fn retry(attempt: u32, recoverable: bool) -> (r: Option<(u32, u64)>)
    ensures
        r == spec_retry(attempt, recoverable),
{
    if attempt < RETRIES && recoverable {
        Some((attempt + 1, backoff_ms(attempt + 1)))
    } else {
        None
    }
}

/// Whether to try again after `error`, after `attempt` retries. Only the error's own
/// `recoverable` decides which errors may pass.
pub fn retry_after_error<E: Recoverable>(attempt: u32, error: &E) -> (r: Option<(u32, u64)>)
    ensures
        attempt >= RETRIES ==> r is None,
        r matches Some((next, wait)) ==> next == attempt + 1 && wait == spec_backoff_ms(next as nat),
{
    let recoverable = error.recoverable();
    proof {
        reveal_with_fuel(pow4, 4);
    }
    retry(attempt, recoverable)
}

/// HTTP status of a request that was refused for its rate.
pub const TOO_MANY_REQUESTS: u16 = 429;

/// HTTP status of a resource that does not exist.
pub const NOT_FOUND: u16 = 404;

/// The wait a rate-limited reply asks for, in seconds: its `Retry-After` header where
/// that is a number, else `fallback`; never under a second.
pub open spec fn spec_retry_after(header: Option<Seq<char>>, fallback: u64) -> u64 {
    let asked = match header {
        Some(h) => match spec_parse_u64(h) {
            Some(v) => v,
            None => fallback,
        },
        None => fallback,
    };
    if asked < 1 {
        1
    } else {
        asked
    }
}

/// The wait a rate-limited reply asks for, in seconds.
pub fn retry_after(header: Option<&str>, fallback: u64) -> (r: u64)
    ensures
        r == spec_retry_after(
            match header {
                Some(h) => Some(h@),
                None => None,
            },
            fallback,
        ),
{
    let asked = match header {
        Some(h) => {
            let chars = chars_of(h);
            match parse_u64(chars.as_slice()) {
                Some(v) => v,
                None => fallback,
            }
        },
        None => fallback,
    };
    if asked < 1 {
        1
    } else {
        asked
    }
}

/// What to do with the reply to a try of a web request.
#[derive(Debug, Clone, Copy, PartialEq, Eq, Structural)]
pub enum ReplyStep {
    /// The resource does not exist.
    Missing,
    /// Wait this many seconds and try again.
    Retry(u64),
    /// Take the reply as it is (an error status is reported as an error).
    Finish,
}

/// The step after the reply of try `attempt` (from 0) of a request to the Web API: a
/// rate-limited reply is tried again, after the wait it asks for (30 s where it names
/// none), while retries are left.
pub open spec fn spec_web_api_step(attempt: u32, status: u16, header: Option<Seq<char>>) -> ReplyStep {
    if status == TOO_MANY_REQUESTS && attempt < RETRIES {
        ReplyStep::Retry(spec_retry_after(header, 30))
    } else {
        ReplyStep::Finish
    }
}

/// The step after a reply of the Web API.
pub fn web_api_step(attempt: u32, status: u16, retry_after_header: Option<&str>) -> (r: ReplyStep)
    ensures
        r == spec_web_api_step(
            attempt,
            status,
            match retry_after_header {
                Some(h) => Some(h@),
                None => None,
            },
        ),
{
    if status == TOO_MANY_REQUESTS && attempt < RETRIES {
        ReplyStep::Retry(retry_after(retry_after_header, 30))
    } else {
        ReplyStep::Finish
    }
}

/// The step after the reply of try `attempt` of a request to a public API: a missing
/// resource is no error; a rate-limited reply is tried again, after the wait it asks
/// for (2 s where it names none), while retries are left.
pub open spec fn spec_public_api_step(attempt: u32, status: u16, header: Option<Seq<char>>) -> ReplyStep {
    if status == NOT_FOUND {
        ReplyStep::Missing
    } else if status == TOO_MANY_REQUESTS && attempt < RETRIES {
        ReplyStep::Retry(spec_retry_after(header, 2))
    } else {
        ReplyStep::Finish
    }
}

/// The step after a reply of a public API.
pub fn public_api_step(attempt: u32, status: u16, retry_after_header: Option<&str>) -> (r: ReplyStep)
    ensures
        r == spec_public_api_step(
            attempt,
            status,
            match retry_after_header {
                Some(h) => Some(h@),
                None => None,
            },
        ),
{
    if status == NOT_FOUND {
        ReplyStep::Missing
    } else if status == TOO_MANY_REQUESTS && attempt < RETRIES {
        ReplyStep::Retry(retry_after(retry_after_header, 2))
    } else {
        ReplyStep::Finish
    }
}


/// Each retry waits four times as long as the one before it.
pub proof fn law_backoff_grows(attempt: nat)
    requires
        attempt >= 1,
    ensures
        spec_backoff_ms(attempt + 1) == 4 * spec_backoff_ms(attempt),
{
    assert(pow4(attempt) == 4 * pow4((attempt - 1) as nat));
}

/// A request is tried at most `RETRIES` times more: after that many retries no
/// further one is granted, whatever the error.
pub proof fn law_retries_bounded(attempt: u32, recoverable: bool)
    ensures
        attempt >= RETRIES ==> spec_retry(attempt, recoverable) is None,
        !recoverable ==> spec_retry(attempt, recoverable) is None,
{
}


/// The longest wait between two attempts to restore a lost session, in seconds.
pub const RECONNECT_CAP_SECS: u64 = 30;

/// The wait before the next attempt to restore a lost session, after waiting
/// `previous` seconds: twice as long, at most `RECONNECT_CAP_SECS`.
pub fn reconnect_delay(previous: u64) -> (r: u64)
    requires
        previous <= u64::MAX / 2,
    ensures
        r == if 2 * previous < RECONNECT_CAP_SECS {
            2 * previous
        } else {
            RECONNECT_CAP_SECS as int
        },
{
    let doubled = previous * 2;
    if doubled < RECONNECT_CAP_SECS {
        doubled
    } else {
        RECONNECT_CAP_SECS
    }
}

} // verus!
