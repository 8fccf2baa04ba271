//! How the first connection to the backend is tried: the retry policy, and
//! what counts as a live backend.

use crate::text::text_eq;
use vstd::prelude::*;

verus! {

/// The command that probes the backend.
pub const PROBE_COMMAND: &'static str = "PING";

/// The reply of a live backend to the probe.
pub const PROBE_REPLY: &'static str = "PONG";

/// What is reported of a backend that answers the probe with anything else.
pub const PROBE_FAILURE: &'static str = "Ping failed";

/// The address of the backend where none is given.
pub const DEFAULT_BACKEND_URL: &'static str = "redis://localhost:6379";

/// After how many seconds connecting is given up where no limit is given:
/// eight hours.
pub const DEFAULT_MAX_TIMEOUT_SECS: u64 = 28800;

/// The first wait between two attempts, in milliseconds.
pub const INITIAL_INTERVAL_MILLIS: u64 = 500;

/// The longest wait between two attempts, in seconds: a quarter of an hour.
pub const MAX_INTERVAL_SECS: u64 = 900;

/// How long one attempt may take, in seconds: five minutes.
pub const ATTEMPT_TIMEOUT_SECS: u64 = 300;

/// How connecting is retried: the wait starts at `initial_interval_millis`,
/// grows after each attempt by `multiplier_numerator / multiplier_denominator`
/// up to `max_interval_secs`, and no attempt is started once
/// `max_elapsed_secs` have passed.
#[derive(Clone, Copy, Debug, PartialEq, Eq, Structural)]
pub struct RetryPolicy {
    pub initial_interval_millis: u64,
    pub max_interval_secs: u64,
    pub multiplier_numerator: u32,
    pub multiplier_denominator: u32,
    pub max_elapsed_secs: u64,
    pub attempt_timeout_secs: u64,
}

/// The policy for the first connection: waits from half a second, each one and
/// a half times the last, up to a quarter of an hour, until the given number of
/// seconds have passed.
pub open spec fn policy_for(max_timeout_secs: u64) -> RetryPolicy {
    RetryPolicy {
        initial_interval_millis: INITIAL_INTERVAL_MILLIS,
        max_interval_secs: MAX_INTERVAL_SECS,
        multiplier_numerator: 3,
        multiplier_denominator: 2,
        max_elapsed_secs: max_timeout_secs,
        attempt_timeout_secs: ATTEMPT_TIMEOUT_SECS,
    }
}

/// The policy for the first connection.
pub fn connect_policy(max_timeout_secs: u64) -> (policy: RetryPolicy)
    ensures
        policy == policy_for(max_timeout_secs),
{
    RetryPolicy {
        initial_interval_millis: INITIAL_INTERVAL_MILLIS,
        max_interval_secs: MAX_INTERVAL_SECS,
        multiplier_numerator: 3,
        multiplier_denominator: 2,
        max_elapsed_secs: max_timeout_secs,
        attempt_timeout_secs: ATTEMPT_TIMEOUT_SECS,
    }
}

/// Whether a reply to the probe shows a live backend. Any other reply is a
/// failure that is retried like a failure to connect.
pub fn is_alive(reply: &str) -> (alive: bool)
    ensures
        alive == (reply@ == PROBE_REPLY@),
{
    text_eq(reply, PROBE_REPLY)
}

} // verus!
