//! Quota-aware purging of remote workflow runs.
//!
//! The crate holds the decisions of a purge loop: which statuses a filter
//! names, when the remaining API quota calls for hibernation, which run ids a
//! listing holds, whether a batch of deletions ran into secondary throttling,
//! and what the loop does next. Talking to the remote service is left to the
//! caller.

pub mod deletion;
pub mod error;
pub mod purge;
pub mod quota;
pub mod runs;
pub mod status;
pub mod text;

pub use deletion::{
    batch_hit_secondary_limit, check_for_secondary_rate_limit, mentions_secondary_rate_limit,
    tells_of_secondary_rate_limit, DeletionOutcome,
};
pub use error::PurgeError;
pub use runs::{
    fetch_completed_runs, fetch_runs_with_statuses, next_query, parse_run_ids, QueryReply,
    StatusQuery,
};
pub use purge::{advance, hibernation_length, Policy, PurgeEvent, PurgeState, Transition};
pub use quota::{calculate_wait_seconds, should_hibernate, RateLimitCore};
pub use status::{is_valid_status, normalize_status, parse_and_validate_statuses};
