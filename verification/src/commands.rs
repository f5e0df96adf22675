//! What one diagnostic round hands to the user interface.

use vstd::prelude::*;

use crate::normalizer::{string_of, Metric};
use crate::score::{report_matches, score_fits_i32, ScoreEngine, ScoreReport};

verus! {

/// The full report of one diagnostic round.
pub struct DiagnosticReport {
    /// When the round ran: seconds since the Unix epoch (UTC).
    pub timestamp_secs: i64,
    /// Nanoseconds within that second.
    pub timestamp_nanos: u32,
    /// The operating system family (`"linux"`, `"windows"`, ...).
    pub os: String,
    pub metrics: Vec<Metric>,
    pub score: ScoreReport,
}

impl DiagnosticReport {
    /// Scores the collected metrics and packs them into a report.
    pub fn assemble(timestamp_secs: i64, timestamp_nanos: u32, os: &str, metrics: Vec<Metric>) -> (r:
        DiagnosticReport)
        requires
            score_fits_i32(metrics@),
        ensures
            r.timestamp_secs == timestamp_secs,
            r.timestamp_nanos == timestamp_nanos,
            r.os@ == os@,
            r.metrics@ == metrics@,
            report_matches(r.score, metrics@),
    {
        let score = ScoreEngine::compute(metrics.as_slice());
        DiagnosticReport { timestamp_secs, timestamp_nanos, os: string_of(os), metrics, score }
    }
}

} // verus!
