//! The batch deleter's answer: whether the failures of a batch of deletions
//! tell of secondary throttling.

use vstd::prelude::*;
use crate::text::{chars_of, contains_infix, has_infix};

verus! {

/// How the deletion of one run ended.
#[derive(Debug, Clone, PartialEq, Eq)]
pub enum DeletionOutcome {
    /// The run is gone.
    Deleted,
    /// The run could not be deleted, for the cause given.
    Failed { cause: String },
}

/// The lowercase form of a text, as `str::to_lowercase` gives it.
pub uninterp spec fn lowercase(text: Seq<char>) -> Seq<char>;

/// The words by which the remote service tells of secondary throttling.
pub open spec fn secondary_limit_phrase() -> Seq<char> {
    "secondary rate limit"@
}

/// Whether a text, whatever the case of its letters, tells of secondary
/// throttling.
pub open spec fn tells_of_secondary_limit(text: Seq<char>) -> bool {
    has_infix(lowercase(text), secondary_limit_phrase())
}

/// Whether one of the outcomes is a failure whose cause tells of secondary
/// throttling.
pub open spec fn batch_throttled(outcomes: Seq<DeletionOutcome>) -> bool {
    exists|i: int|
        0 <= i < outcomes.len() && outcome_tells_of_secondary_limit(#[trigger] outcomes[i])
}

/// Whether an outcome is a failure whose cause tells of secondary throttling.
pub open spec fn outcome_tells_of_secondary_limit(outcome: DeletionOutcome) -> bool {
    match outcome {
        DeletionOutcome::Deleted => false,
        DeletionOutcome::Failed { cause } => tells_of_secondary_limit(cause@),
    }
}

/// Calls `str::to_lowercase`, which returns the lowercase equivalent of the
/// text as a new string. The result is a matter of Unicode's case tables and
/// of the text alone; the contract gives it the name `lowercase`.
#[verifier::external_body]
fn to_lowercase(text: &str) -> (lowered: String)
    ensures
        lowered@ == lowercase(text@),
{
    text.to_lowercase()
}

/// Whether a text that is in lowercase already holds the words that tell of
/// secondary throttling.
pub fn mentions_secondary_rate_limit(lowered: &str) -> (found: bool)
    ensures
        found == has_infix(lowered@, secondary_limit_phrase()),
{
    let text = chars_of(lowered);
    let phrase = chars_of("secondary rate limit");
    contains_infix(text.as_slice(), phrase.as_slice())
}

/// Whether a text, whatever the case of its letters, tells of secondary
/// throttling: its lowercase form is taken, and searched for the words.
pub fn tells_of_secondary_rate_limit(text: &str) -> (found: bool)
    ensures
        found == tells_of_secondary_limit(text@),
{
    let lowered = to_lowercase(text);
    mentions_secondary_rate_limit(lowered.as_str())
}

/// Whether any of the failure messages of a batch tells of secondary
/// throttling, whatever the case of its letters.
pub fn check_for_secondary_rate_limit(errors: &[String]) -> (hit: bool)
    ensures
        hit == exists|i: int|
            0 <= i < errors.len() && tells_of_secondary_limit(#[trigger] errors@[i]@),
{
    let mut i: usize = 0;
    while i < errors.len()
        invariant
            i <= errors.len(),
            forall|j: int| 0 <= j < i ==> !tells_of_secondary_limit(#[trigger] errors@[j]@),
        decreases errors.len() - i,
    {
        if tells_of_secondary_rate_limit(errors[i].as_str()) {
            return true;
        }
        i += 1;
    }
    false
}

/// Whether a batch of deletions ran into secondary throttling: whether the
/// cause of any failure among the outcomes tells of it. Every outcome is
/// looked at, and no failure is reported beyond this answer.
pub fn batch_hit_secondary_limit(outcomes: &[DeletionOutcome]) -> (hit: bool)
    ensures
        hit == batch_throttled(outcomes@),
{
    let mut i: usize = 0;
    while i < outcomes.len()
        invariant
            i <= outcomes.len(),
            forall|j: int| 0 <= j < i ==> !outcome_tells_of_secondary_limit(#[trigger] outcomes@[j]),
        decreases outcomes.len() - i,
    {
        match &outcomes[i] {
            DeletionOutcome::Deleted => {},
            DeletionOutcome::Failed { cause } => {
                if tells_of_secondary_rate_limit(cause.as_str()) {
                    assert(outcome_tells_of_secondary_limit(outcomes@[i as int]));
                    return true;
                }
            },
        }
        i += 1;
    }
    false
}

} // verus!
