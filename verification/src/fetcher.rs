//! The retry policy of the network fetcher.
//!
//! The fetch itself is network I/O and lives outside the library.  The
//! driver performs one blocking attempt at a time and consults this state
//! machine, which owns the policy: three attempts in all, a one-second
//! pause after each failure, and a single surfaced error carrying the
//! last attempt's cause.  A non-success HTTP status and a transport error
//! are recorded alike: either consumes one attempt.

use vstd::prelude::*;
use vstd::pervasive::unreached;
use vstd::string::StringExecFns;

verus! {

/// The terminal failure of a fetch: every attempt failed, and the last
/// attempt's cause is kept.  Always recoverable by the caller.
#[derive(Debug, Clone)]
pub struct FetchError {
    pub message: String,
}

/// Timeout of a single attempt, in seconds.
pub fn timeout_secs() -> (n: u64)
    ensures
        n == 30,
{
    30
}

/// Pause after a failed attempt, in seconds.
pub fn retry_delay_secs() -> (n: u64)
    ensures
        n == 1,
{
    1
}

/// The identifying client label sent with every request.
pub fn user_agent() -> (s: String)
    ensures
        s@ == "TextfilesBrowser/1.0"@,
{
    String::from_str("TextfilesBrowser/1.0")
}

/// The retry state of one fetch: how many attempts remain and the last
/// failure seen.  No state survives the fetch it belongs to.
pub struct FetchPlan {
    pub attempts_left: u8,
    pub last_error: Option<String>,
}

impl FetchPlan {
    /// A fresh fetch: three attempts, no failure yet.
    pub fn new() -> (p: FetchPlan)
        ensures
            p.attempts_left == 3,
            p.last_error is None,
    {
        FetchPlan { attempts_left: 3, last_error: None }
    }

    /// Whether another attempt is made: true until the budget is spent.
    pub fn should_attempt(&self) -> (b: bool)
        ensures
            b == (self.attempts_left > 0),
    {
        self.attempts_left > 0
    }

    /// Record a failed attempt: one attempt fewer, and this attempt's
    /// cause replaces the remembered one.
    pub fn record_failure(&mut self, cause: String)
        requires
            old(self).attempts_left > 0,
        ensures
            final(self).attempts_left == old(self).attempts_left - 1,
            final(self).last_error == Some(cause),
    {
        self.attempts_left = self.attempts_left - 1;
        self.last_error = Some(cause);
    }

    /// The single error surfaced once every attempt has failed: it
    /// carries the last attempt's cause, not one error per attempt.
    pub fn into_error(self) -> (e: FetchError)
        requires
            self.attempts_left == 0,
            self.last_error is Some,
        ensures
            Some(e.message) == self.last_error,
    {
        match self.last_error {
            Some(m) => FetchError { message: m },
            None => unreached(),
        }
    }
}

} // verus!
