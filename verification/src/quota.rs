//! The quota gate: reading the rate limit and deciding whether to hibernate.

use vstd::prelude::*;

verus! {

/// The remaining call allowance and the time at which it is reset, in seconds
/// since the Unix epoch, as the remote service reports them.
#[derive(Debug, Clone, Copy, PartialEq, Eq)]
pub struct RateLimitCore {
    pub remaining: i32,
    pub reset: i64,
}

/// Hibernation is called for exactly when the remaining quota is below the
/// threshold.
pub open spec fn hibernation_due(remaining: int, threshold: int) -> bool {
    remaining < threshold
}

/// The seconds left until `reset`, seen from `now`: zero once the reset time
/// has passed.
pub open spec fn wait_seconds(reset: int, now: int) -> int {
    if reset <= now {
        0
    } else {
        reset - now
    }
}

/// Whether the remaining quota is low enough to hibernate. At the threshold
/// itself the answer is no.
pub fn should_hibernate(remaining: i32, threshold: i32) -> (hibernate: bool)
    ensures
        hibernate == hibernation_due(remaining as int, threshold as int),
{
    remaining < threshold
}

/// The wait in seconds from `current_time` until `reset_timestamp`, never
/// negative. The difference has to fit the result type.
pub fn calculate_wait_seconds(reset_timestamp: i64, current_time: i64) -> (wait: i64)
    requires
        reset_timestamp - current_time <= i64::MAX,
    ensures
        wait == wait_seconds(reset_timestamp as int, current_time as int),
        0 <= wait,
{
    if reset_timestamp <= current_time {
        0
    } else {
        reset_timestamp - current_time
    }
}

} // verus!
