//! What can go wrong while purging, and how each failure reads.

use vstd::prelude::*;
use crate::status::{conclusion_statuses, conclusion_vocabulary, runtime_statuses, runtime_vocabulary};
use crate::text::{has_infix, join, join_words, occurs_at};

verus! {

/// A failure of one of the purge's steps.
#[derive(Debug, Clone, PartialEq, Eq)]
pub enum PurgeError {
    /// The status filter names a token outside the vocabulary.
    InvalidStatus { token: String },
    /// The rate limit could not be read.
    ProbeUnavailable { cause: String },
    /// The listing of the runs with one status failed.
    QueryFailed { status: String, cause: String },
}

/// The text that reports `token` as no status, with every status a filter
/// may name.
pub open spec fn invalid_status_text(token: Seq<char>) -> Seq<char> {
    "Invalid status '"@ + token + "'. Valid statuses are:\nRuntime: "@ + join(
        runtime_vocabulary(),
        ", "@,
    ) + "\nConclusion: "@ + join(conclusion_vocabulary(), ", "@) + "\nCatch-all: completed"@
}

/// The text that reports a failed read of the rate limit.
pub open spec fn probe_unavailable_text(cause: Seq<char>) -> Seq<char> {
    "Rate limit probe failed: "@ + cause
}

/// The text that reports a failed listing for `status`.
pub open spec fn query_failed_text(status: Seq<char>, cause: Seq<char>) -> Seq<char> {
    "gh run list failed for status '"@ + status + "': "@ + cause
}

impl PurgeError {
    /// The text of the report, by the kind of failure.
    pub open spec fn text(self) -> Seq<char> {
        match self {
            PurgeError::InvalidStatus { token } => invalid_status_text(token@),
            PurgeError::ProbeUnavailable { cause } => probe_unavailable_text(cause@),
            PurgeError::QueryFailed { status, cause } => query_failed_text(status@, cause@),
        }
    }

    /// A report of the failure for a reader. For an invalid status it names
    /// the offending token.
    pub fn message(&self) -> (report: String)
        ensures
            report@ == self.text(),
            self matches PurgeError::InvalidStatus { token } ==> has_infix(report@, token@),
    {
        let mut report = String::new();
        match self {
            PurgeError::InvalidStatus { token } => {
                let runtime = join_words(runtime_statuses().as_slice(), ", ");
                let conclusion = join_words(conclusion_statuses().as_slice(), ", ");
                report.append("Invalid status '");
                let ghost at = report@.len() as int;
                report.append(token.as_str());
                let ghost named = report@;
                report.append("'. Valid statuses are:\nRuntime: ");
                report.append(runtime.as_str());
                report.append("\nConclusion: ");
                report.append(conclusion.as_str());
                report.append("\nCatch-all: completed");
                proof {
                    assert(report@ =~= self.text());
                    assert(report@.subrange(at, at + token@.len()) =~= token@);
                    assert(occurs_at(report@, token@, at));
                }
            },
            PurgeError::ProbeUnavailable { cause } => {
                report.append("Rate limit probe failed: ");
                report.append(cause.as_str());
                assert(report@ =~= self.text());
            },
            PurgeError::QueryFailed { status, cause } => {
                report.append("gh run list failed for status '");
                report.append(status.as_str());
                report.append("': ");
                report.append(cause.as_str());
                assert(report@ =~= self.text());
            },
        }
        report
    }
}

} // verus!
