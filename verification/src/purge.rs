//! The purge loop as a state machine: from the state the loop is in and what
//! has just happened, to the state it is in next and the wait before it.
//!
//! The caller carries out what a state stands for (probing the quota,
//! sleeping, fetching the runs, deleting them) and reports how it went as an
//! event. The loop ends in `Done`, which is reached from nowhere but a fetch
//! that found nothing.

use vstd::prelude::*;
use crate::quota::{hibernation_due, should_hibernate, wait_seconds, RateLimitCore};

verus! {

/// The numbers of the purging policy.
#[derive(Debug, Clone, Copy, PartialEq, Eq)]
pub struct Policy {
    /// Hibernation starts when fewer calls than this remain.
    pub hibernate_threshold: i32,
    /// Seconds to wait after a failed read of the quota.
    pub probe_retry_seconds: u64,
    /// Seconds slept beyond the reset time when hibernating, against clocks
    /// that disagree.
    pub hibernate_grace_seconds: u64,
    /// Seconds to wait after a failed fetch.
    pub fetch_retry_seconds: u64,
    /// Seconds to back off after secondary throttling.
    pub backoff_seconds: u64,
    /// Seconds to rest after a batch that went through.
    pub breather_seconds: u64,
    /// Deletions that may be under way at once.
    pub delete_concurrency: usize,
    /// Runs asked for in one listing.
    pub page_size: u32,
}

/// The policy the purge is run with unless told otherwise.
pub open spec fn reference_policy() -> Policy {
    Policy {
        hibernate_threshold: 50,
        probe_retry_seconds: 30,
        hibernate_grace_seconds: 10,
        fetch_retry_seconds: 5,
        backoff_seconds: 60,
        breather_seconds: 2,
        delete_concurrency: 15,
        page_size: 300,
    }
}

impl Policy {
    /// The policy the purge is run with unless told otherwise.
    pub fn reference() -> (policy: Policy)
        ensures
            policy == reference_policy(),
    {
        Policy {
            hibernate_threshold: 50,
            probe_retry_seconds: 30,
            hibernate_grace_seconds: 10,
            fetch_retry_seconds: 5,
            backoff_seconds: 60,
            breather_seconds: 2,
            delete_concurrency: 15,
            page_size: 300,
        }
    }
}

/// What the loop is doing.
#[derive(Debug, Clone, PartialEq, Eq)]
pub enum PurgeState {
    /// Reading the remaining quota.
    ProbingQuota,
    /// Sleeping until the quota is reset.
    Hibernating { seconds: u64 },
    /// Fetching the runs that match the filter.
    Fetching,
    /// Deleting the runs that were fetched.
    Deleting { ids: Vec<i64> },
    /// Sleeping after secondary throttling.
    Backoff { seconds: u64 },
    /// Resting after a batch that went through.
    Continue { seconds: u64 },
    /// Nothing is left to purge.
    Done,
}

/// What has just happened.
#[derive(Debug, Clone, PartialEq, Eq)]
pub enum PurgeEvent {
    /// The quota could not be read.
    ProbeFailed,
    /// The quota was read, at the time `now` in seconds since the Unix epoch.
    QuotaRead { quota: RateLimitCore, now: i64 },
    /// The sleep is over.
    Woke,
    /// The fetch failed.
    QueryFailed,
    /// The fetch found these runs.
    RunsFetched { ids: Vec<i64> },
    /// The batch of deletions is through.
    BatchDeleted { secondary_limit_hit: bool },
}

/// The state the loop is in next, and the seconds to wait before taking up
/// what that state stands for.
#[derive(Debug, Clone, PartialEq, Eq)]
pub struct Transition {
    pub next: PurgeState,
    pub wait_seconds: u64,
}

/// The seconds to hibernate: those until the reset and the grace on top, or
/// the longest sleep there is where the sum is beyond it.
pub open spec fn hibernation_seconds(reset: int, now: int, grace: int) -> int {
    let seconds = wait_seconds(reset, now) + grace;
    if seconds <= u64::MAX {
        seconds
    } else {
        u64::MAX as int
    }
}

/// What follows from `event` in `state` under `policy`; `None` where the
/// event is none that the state waits for.
pub open spec fn transition(state: PurgeState, event: PurgeEvent, policy: Policy) -> Option<
    Transition,
> {
    match (state, event) {
        (PurgeState::ProbingQuota, PurgeEvent::ProbeFailed) => Some(
            Transition { next: PurgeState::ProbingQuota, wait_seconds: policy.probe_retry_seconds },
        ),
        (PurgeState::ProbingQuota, PurgeEvent::QuotaRead { quota, now }) => {
            if hibernation_due(quota.remaining as int, policy.hibernate_threshold as int) {
                Some(
                    Transition {
                        next: PurgeState::Hibernating {
                            seconds: hibernation_seconds(
                                quota.reset as int,
                                now as int,
                                policy.hibernate_grace_seconds as int,
                            ) as u64,
                        },
                        wait_seconds: 0,
                    },
                )
            } else {
                Some(Transition { next: PurgeState::Fetching, wait_seconds: 0 })
            }
        },
        (PurgeState::Hibernating { .. }, PurgeEvent::Woke) => Some(
            Transition { next: PurgeState::ProbingQuota, wait_seconds: 0 },
        ),
        (PurgeState::Fetching, PurgeEvent::QueryFailed) => Some(
            Transition { next: PurgeState::ProbingQuota, wait_seconds: policy.fetch_retry_seconds },
        ),
        (PurgeState::Fetching, PurgeEvent::RunsFetched { ids }) => {
            if ids@.len() == 0 {
                Some(Transition { next: PurgeState::Done, wait_seconds: 0 })
            } else {
                Some(Transition { next: PurgeState::Deleting { ids }, wait_seconds: 0 })
            }
        },
        (PurgeState::Deleting { .. }, PurgeEvent::BatchDeleted { secondary_limit_hit }) => {
            if secondary_limit_hit {
                Some(
                    Transition {
                        next: PurgeState::Backoff { seconds: policy.backoff_seconds },
                        wait_seconds: 0,
                    },
                )
            } else {
                Some(
                    Transition {
                        next: PurgeState::Continue { seconds: policy.breather_seconds },
                        wait_seconds: 0,
                    },
                )
            }
        },
        (PurgeState::Backoff { .. }, PurgeEvent::Woke) => Some(
            Transition { next: PurgeState::ProbingQuota, wait_seconds: 0 },
        ),
        (PurgeState::Continue { .. }, PurgeEvent::Woke) => Some(
            Transition { next: PurgeState::ProbingQuota, wait_seconds: 0 },
        ),
        _ => None,
    }
}

/// The seconds to hibernate from `now` until `reset` and `grace` seconds
/// more.
pub fn hibernation_length(reset: i64, now: i64, grace: u64) -> (seconds: u64)
    ensures
        seconds == hibernation_seconds(reset as int, now as int, grace as int),
{
    let gap: i128 = reset as i128 - now as i128;
    let wait: u64 = if gap <= 0 { 0 } else { gap as u64 };
    match wait.checked_add(grace) {
        Some(seconds) => seconds,
        None => u64::MAX,
    }
}

impl PurgeState {
    /// The state in which every purge starts.
    pub fn start() -> (state: PurgeState)
        ensures
            state == PurgeState::ProbingQuota,
    {
        PurgeState::ProbingQuota
    }

    /// Whether the loop has ended.
    pub fn is_done(&self) -> (done: bool)
        ensures
            done == (*self is Done),
    {
        match self {
            PurgeState::Done => true,
            _ => false,
        }
    }
}

impl PurgeEvent {
    /// The event of a quota that has just been read: the reading, and the
    /// time at which it was taken, in seconds since the Unix epoch. The time
    /// is the caller's to give, so the loop is the same under every clock.
    pub fn quota_read(quota: RateLimitCore, now: i64) -> (event: PurgeEvent)
        ensures
            event == (PurgeEvent::QuotaRead { quota, now }),
    {
        PurgeEvent::QuotaRead { quota, now }
    }
}

/// Takes the loop one step on: from the state it is in and the event that
/// the state's work ended with, to the state it is in next and the wait
/// before it. `None` where the event is none that the state waits for; in
/// `Done` that is every event.
pub fn advance(state: &PurgeState, event: PurgeEvent, policy: &Policy) -> (step: Option<Transition>)
    ensures
        step == transition(*state, event, *policy),
{
    match state {
        PurgeState::ProbingQuota => match event {
            PurgeEvent::ProbeFailed => Some(
                Transition {
                    next: PurgeState::ProbingQuota,
                    wait_seconds: policy.probe_retry_seconds,
                },
            ),
            PurgeEvent::QuotaRead { quota, now } => {
                if should_hibernate(quota.remaining, policy.hibernate_threshold) {
                    let seconds = hibernation_length(
                        quota.reset,
                        now,
                        policy.hibernate_grace_seconds,
                    );
                    Some(Transition { next: PurgeState::Hibernating { seconds }, wait_seconds: 0 })
                } else {
                    Some(Transition { next: PurgeState::Fetching, wait_seconds: 0 })
                }
            },
            _ => None,
        },
        PurgeState::Fetching => match event {
            PurgeEvent::QueryFailed => Some(
                Transition {
                    next: PurgeState::ProbingQuota,
                    wait_seconds: policy.fetch_retry_seconds,
                },
            ),
            PurgeEvent::RunsFetched { ids } => {
                if ids.len() == 0 {
                    Some(Transition { next: PurgeState::Done, wait_seconds: 0 })
                } else {
                    Some(Transition { next: PurgeState::Deleting { ids }, wait_seconds: 0 })
                }
            },
            _ => None,
        },
        PurgeState::Deleting { .. } => match event {
            PurgeEvent::BatchDeleted { secondary_limit_hit } => {
                if secondary_limit_hit {
                    Some(
                        Transition {
                            next: PurgeState::Backoff { seconds: policy.backoff_seconds },
                            wait_seconds: 0,
                        },
                    )
                } else {
                    Some(
                        Transition {
                            next: PurgeState::Continue { seconds: policy.breather_seconds },
                            wait_seconds: 0,
                        },
                    )
                }
            },
            _ => None,
        },
        PurgeState::Hibernating { .. } | PurgeState::Backoff { .. } | PurgeState::Continue { .. } => match event {
            PurgeEvent::Woke => Some(Transition { next: PurgeState::ProbingQuota, wait_seconds: 0 }),
            _ => None,
        },
        PurgeState::Done => None,
    }
}

/// The loop ends only when a fetch has found nothing: `Done` follows from
/// `Fetching` alone, on an empty set of runs, and so with no deletion.
pub proof fn law_done_only_after_empty_fetch(state: PurgeState, event: PurgeEvent, policy: Policy)
    requires
        transition(state, event, policy) matches Some(step) && step.next is Done,
    ensures
        state is Fetching,
        event matches PurgeEvent::RunsFetched { ids } && ids@.len() == 0,
{
}

/// A deletion always follows a fetch, and deletes what the fetch found: the
/// loop comes to `Deleting` from `Fetching` alone, with the runs of the event
/// and at least one of them.
pub proof fn law_deletion_follows_fetch(state: PurgeState, event: PurgeEvent, policy: Policy)
    requires
        transition(state, event, policy) matches Some(step) && step.next is Deleting,
    ensures
        state is Fetching,
        event matches PurgeEvent::RunsFetched { ids } && ids@.len() > 0 && transition(
            state,
            event,
            policy,
        )->0.next == (PurgeState::Deleting { ids }),
{
}

/// A fetch always follows a reading of the quota that called for no
/// hibernation.
pub proof fn law_fetch_follows_healthy_probe(state: PurgeState, event: PurgeEvent, policy: Policy)
    requires
        transition(state, event, policy) matches Some(step) && step.next is Fetching,
    ensures
        state is ProbingQuota,
        event matches PurgeEvent::QuotaRead { quota, .. } && !hibernation_due(
            quota.remaining as int,
            policy.hibernate_threshold as int,
        ),
{
}

/// No failure ends the loop: a failed probe, a failed fetch and the end of
/// any sleep all lead back to probing the quota, and a batch of deletions
/// leads to a sleep, whatever came of it.
pub proof fn law_failures_lead_back_to_probing(state: PurgeState, policy: Policy)
    ensures
        transition(PurgeState::ProbingQuota, PurgeEvent::ProbeFailed, policy) == Some(
            Transition { next: PurgeState::ProbingQuota, wait_seconds: policy.probe_retry_seconds },
        ),
        transition(PurgeState::Fetching, PurgeEvent::QueryFailed, policy) == Some(
            Transition { next: PurgeState::ProbingQuota, wait_seconds: policy.fetch_retry_seconds },
        ),
        state is Hibernating || state is Backoff || state is Continue ==> transition(
            state,
            PurgeEvent::Woke,
            policy,
        ) == Some(Transition { next: PurgeState::ProbingQuota, wait_seconds: 0 }),
        state is Deleting ==> forall|hit: bool|
            (#[trigger] transition(
                state,
                PurgeEvent::BatchDeleted { secondary_limit_hit: hit },
                policy,
            )) matches Some(step) && (step.next is Backoff || step.next is Continue),
{
}

/// `Done` is final: no event leads out of it.
pub proof fn law_done_is_final(event: PurgeEvent, policy: Policy)
    ensures
        transition(PurgeState::Done, event, policy) is None,
{
}

} // verus!
