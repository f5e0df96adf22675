//! The health score: a number from 0 to 100 and an overall status.
//!
//! Rules: `Unavailable` metrics do not penalise, each `Attention` metric
//! takes 5 points, each `Critical` metric takes 15, the result is clamped
//! to `[0, 100]`; any `Critical` metric makes the overall status
//! `Critical`, otherwise 80 and above is `Healthy`, 50 and above is
//! `Attention`, below 50 is `Critical`.

use vstd::prelude::*;

use crate::normalizer::{Metric, MetricStatus};

verus! {

/// Number of metrics in `ms` whose status is `st`.
pub open spec fn count_status(ms: Seq<Metric>, st: MetricStatus) -> nat
    decreases ms.len(),
{
    if ms.len() == 0 {
        0
    } else {
        count_status(ms.drop_last(), st) + if ms.last().status == st {
            1nat
        } else {
            0nat
        }
    }
}

/// Points taken from 100 by the metrics in `ms`.
pub open spec fn penalty(ms: Seq<Metric>) -> int {
    (5 * count_status(ms, MetricStatus::Attention) + 15 * count_status(ms, MetricStatus::Critical)) as int
}

/// The score before clamping.
pub open spec fn raw_score(ms: Seq<Metric>) -> int {
    100 - penalty(ms)
}

/// The health score of `ms`: the raw score clamped to `[0, 100]`.
pub open spec fn spec_score(ms: Seq<Metric>) -> int {
    if raw_score(ms) < 0 {
        0
    } else if raw_score(ms) > 100 {
        100
    } else {
        raw_score(ms)
    }
}

/// The overall status of `ms`.
pub open spec fn spec_overall_status(ms: Seq<Metric>) -> MetricStatus {
    if count_status(ms, MetricStatus::Critical) > 0 {
        MetricStatus::Critical
    } else if spec_score(ms) >= 80 {
        MetricStatus::Healthy
    } else if spec_score(ms) >= 50 {
        MetricStatus::Attention
    } else {
        MetricStatus::Critical
    }
}

/// The score before clamping fits in an `i32`. The engine keeps the
/// running score in an `i32`; it only decreases, so this bound keeps every
/// step in range. It needs over a hundred million problem metrics to fail.
pub open spec fn score_fits_i32(ms: Seq<Metric>) -> bool {
    raw_score(ms) >= i32::MIN
}

/// How many metrics fall in each status.
#[derive(Debug, Clone)]
pub struct ScoreCounts {
    pub total: usize,
    pub healthy: usize,
    pub attention: usize,
    pub critical: usize,
    pub unavailable: usize,
}

impl Default for ScoreCounts {
    fn default() -> (c: ScoreCounts)
        ensures
            c.total == 0,
            c.healthy == 0,
            c.attention == 0,
            c.critical == 0,
            c.unavailable == 0,
    {
        ScoreCounts { total: 0, healthy: 0, attention: 0, critical: 0, unavailable: 0 }
    }
}

/// The result of scoring a set of metrics.
#[derive(Debug, Clone)]
pub struct ScoreReport {
    pub score: u8,
    pub status: MetricStatus,
    pub counts: ScoreCounts,
}

/// The report that `ScoreEngine::compute` gives for `ms`.
pub open spec fn report_matches(r: ScoreReport, ms: Seq<Metric>) -> bool {
    &&& r.score as int == spec_score(ms)
    &&& r.status == spec_overall_status(ms)
    &&& r.counts.total == ms.len()
    &&& r.counts.healthy == count_status(ms, MetricStatus::Healthy)
    &&& r.counts.attention == count_status(ms, MetricStatus::Attention)
    &&& r.counts.critical == count_status(ms, MetricStatus::Critical)
    &&& r.counts.unavailable == count_status(ms, MetricStatus::Unavailable)
}

/// The score engine.
pub struct ScoreEngine;

/// A count never exceeds the length of the sequence.
pub proof fn lemma_count_le_len(ms: Seq<Metric>, st: MetricStatus)
    ensures
        count_status(ms, st) <= ms.len(),
    decreases ms.len(),
{
    if ms.len() > 0 {
        lemma_count_le_len(ms.drop_last(), st);
    }
}

/// Counting over a concatenation adds the counts.
pub proof fn lemma_count_concat(a: Seq<Metric>, b: Seq<Metric>, st: MetricStatus)
    ensures
        count_status(a + b, st) == count_status(a, st) + count_status(b, st),
    decreases b.len(),
{
    if b.len() == 0 {
        assert(a + b =~= a);
    } else {
        lemma_count_concat(a, b.drop_last(), st);
        assert((a + b).drop_last() =~= a + b.drop_last());
    }
}

/// The penalty only grows along the prefixes of a sequence.
proof fn lemma_penalty_prefix(ms: Seq<Metric>, i: int, j: int)
    requires
        0 <= i <= j <= ms.len(),
    ensures
        penalty(ms.take(i)) <= penalty(ms.take(j)),
{
    let a = ms.take(i);
    let b = ms.subrange(i, j);
    assert(ms.take(j) =~= a + b);
    lemma_count_concat(a, b, MetricStatus::Attention);
    lemma_count_concat(a, b, MetricStatus::Critical);
}

impl ScoreEngine {
    /// Whether `compute` can score `metrics`: the running score must stay
    /// within `i32`, which needs over a hundred million problem metrics to
    /// break.
    pub fn fits(metrics: &[Metric]) -> (b: bool)
        ensures
            b == score_fits_i32(metrics@),
    {
        let n = metrics.len();
        let mut raw: i128 = 100;
        let mut i: usize = 0;
        while i < n
            invariant
                n == metrics@.len(),
                0 <= i <= n,
                raw as int == raw_score(metrics@.take(i as int)),
                raw >= -15 * (i as int),
                raw <= 100,
            decreases n - i,
        {
            proof {
                assert(metrics@.take(i + 1).drop_last() =~= metrics@.take(i as int));
            }
            match metrics[i].status {
                MetricStatus::Attention => {
                    raw = raw - 5;
                },
                MetricStatus::Critical => {
                    raw = raw - 15;
                },
                _ => {},
            }
            i = i + 1;
        }
        proof {
            assert(metrics@.take(n as int) =~= metrics@);
        }
        raw >= -2147483648
    }

    /// Scores `metrics`.
    pub fn compute(metrics: &[Metric]) -> (r: ScoreReport)
        requires
            score_fits_i32(metrics@),
        ensures
            report_matches(r, metrics@),
            r.score <= 100,
    {
        let n = metrics.len();
        let mut healthy: usize = 0;
        let mut attention: usize = 0;
        let mut critical: usize = 0;
        let mut unavailable: usize = 0;
        let mut score: i32 = 100;
        let mut i: usize = 0;
        while i < n
            invariant
                n == metrics@.len(),
                0 <= i <= n,
                score_fits_i32(metrics@),
                healthy == count_status(metrics@.take(i as int), MetricStatus::Healthy),
                attention == count_status(metrics@.take(i as int), MetricStatus::Attention),
                critical == count_status(metrics@.take(i as int), MetricStatus::Critical),
                unavailable == count_status(metrics@.take(i as int), MetricStatus::Unavailable),
                score as int == raw_score(metrics@.take(i as int)),
            decreases n - i,
        {
            proof {
                let next = metrics@.take(i + 1);
                assert(next.drop_last() =~= metrics@.take(i as int));
                lemma_count_le_len(metrics@.take(i as int), MetricStatus::Healthy);
                lemma_count_le_len(metrics@.take(i as int), MetricStatus::Attention);
                lemma_count_le_len(metrics@.take(i as int), MetricStatus::Critical);
                lemma_count_le_len(metrics@.take(i as int), MetricStatus::Unavailable);
                lemma_penalty_prefix(metrics@, i + 1, n as int);
                assert(metrics@.take(n as int) =~= metrics@);
            }
            match metrics[i].status {
                MetricStatus::Healthy => {
                    healthy = healthy + 1;
                },
                MetricStatus::Attention => {
                    attention = attention + 1;
                    score = score - 5;
                },
                MetricStatus::Critical => {
                    critical = critical + 1;
                    score = score - 15;
                },
                MetricStatus::Unavailable => {
                    unavailable = unavailable + 1;
                },
            }
            i = i + 1;
        }
        proof {
            assert(metrics@.take(n as int) =~= metrics@);
        }
        let clamped: u8 = if score < 0 {
            0
        } else if score > 100 {
            100
        } else {
            score as u8
        };
        let status = if critical > 0 {
            MetricStatus::Critical
        } else if clamped >= 80 {
            MetricStatus::Healthy
        } else if clamped >= 50 {
            MetricStatus::Attention
        } else {
            MetricStatus::Critical
        };
        ScoreReport {
            score: clamped,
            status,
            counts: ScoreCounts { total: n, healthy, attention, critical, unavailable },
        }
    }
}

/// Every metric falls in exactly one status: the four counts add up to the
/// total.
pub proof fn law_counts_partition(ms: Seq<Metric>)
    ensures
        count_status(ms, MetricStatus::Healthy) + count_status(ms, MetricStatus::Attention)
            + count_status(ms, MetricStatus::Critical) + count_status(
            ms,
            MetricStatus::Unavailable,
        ) == ms.len(),
    decreases ms.len(),
{
    if ms.len() > 0 {
        law_counts_partition(ms.drop_last());
    }
}

/// The score always lies in `[0, 100]`.
pub proof fn law_score_in_range(ms: Seq<Metric>)
    ensures
        0 <= spec_score(ms) <= 100,
{
}

/// Metrics that could not be collected do not penalise: adding one changes
/// neither the score nor the overall status.
pub proof fn law_unavailable_does_not_penalize(ms: Seq<Metric>, m: Metric)
    requires
        m.status == MetricStatus::Unavailable,
    ensures
        spec_score(ms.push(m)) == spec_score(ms),
        spec_overall_status(ms.push(m)) == spec_overall_status(ms),
{
    assert(ms.push(m).drop_last() =~= ms);
}

/// Healthy metrics do not penalise either.
pub proof fn law_healthy_does_not_penalize(ms: Seq<Metric>, m: Metric)
    requires
        m.status == MetricStatus::Healthy,
    ensures
        spec_score(ms.push(m)) == spec_score(ms),
        spec_overall_status(ms.push(m)) == spec_overall_status(ms),
{
    assert(ms.push(m).drop_last() =~= ms);
}

/// An `Attention` metric takes exactly 5 points, down to 0.
pub proof fn law_attention_costs_five(ms: Seq<Metric>, m: Metric)
    requires
        m.status == MetricStatus::Attention,
    ensures
        spec_score(ms.push(m)) == if spec_score(ms) >= 5 {
            spec_score(ms) - 5
        } else {
            0
        },
{
    assert(ms.push(m).drop_last() =~= ms);
}

/// A `Critical` metric takes exactly 15 points, down to 0, and makes the
/// overall status `Critical`.
pub proof fn law_critical_costs_fifteen(ms: Seq<Metric>, m: Metric)
    requires
        m.status == MetricStatus::Critical,
    ensures
        spec_score(ms.push(m)) == if spec_score(ms) >= 15 {
            spec_score(ms) - 15
        } else {
            0
        },
        spec_overall_status(ms.push(m)) == MetricStatus::Critical,
{
    assert(ms.push(m).drop_last() =~= ms);
}

/// A single `Critical` metric makes the overall status `Critical`, whatever
/// the score.
pub proof fn law_critical_dominates(ms: Seq<Metric>)
    requires
        count_status(ms, MetricStatus::Critical) > 0,
    ensures
        spec_overall_status(ms) == MetricStatus::Critical,
{
}

/// With no `Attention` and no `Critical` metric the score is 100 and the
/// status `Healthy`.
pub proof fn law_no_problem_full_score(ms: Seq<Metric>)
    requires
        count_status(ms, MetricStatus::Attention) == 0,
        count_status(ms, MetricStatus::Critical) == 0,
    ensures
        spec_score(ms) == 100,
        spec_overall_status(ms) == MetricStatus::Healthy,
{
}

/// Adding a metric never raises the score.
pub proof fn law_score_never_rises(ms: Seq<Metric>, m: Metric)
    ensures
        spec_score(ms.push(m)) <= spec_score(ms),
{
    assert(ms.push(m).drop_last() =~= ms);
}

/// The order of the metrics does not matter: two groups scored together
/// give the same report in either order.
pub proof fn law_order_independent(a: Seq<Metric>, b: Seq<Metric>)
    ensures
        spec_score(a + b) == spec_score(b + a),
        spec_overall_status(a + b) == spec_overall_status(b + a),
        forall|st: MetricStatus| count_status(a + b, st) == count_status(b + a, st),
{
    assert forall|st: MetricStatus| count_status(a + b, st) == count_status(b + a, st) by {
        lemma_count_concat(a, b, st);
        lemma_count_concat(b, a, st);
    }
    lemma_count_concat(a, b, MetricStatus::Attention);
    lemma_count_concat(b, a, MetricStatus::Attention);
    lemma_count_concat(a, b, MetricStatus::Critical);
    lemma_count_concat(b, a, MetricStatus::Critical);
}

/// The overall status reflects the thresholds: `Healthy` means a score of
/// at least 80 with no critical metric, `Attention` a score in `[50, 80)`
/// with no critical metric.
pub proof fn law_status_thresholds(ms: Seq<Metric>)
    ensures
        spec_overall_status(ms) == MetricStatus::Healthy <==> (count_status(
            ms,
            MetricStatus::Critical,
        ) == 0 && spec_score(ms) >= 80),
        spec_overall_status(ms) == MetricStatus::Attention <==> (count_status(
            ms,
            MetricStatus::Critical,
        ) == 0 && 50 <= spec_score(ms) < 80),
        spec_overall_status(ms) != MetricStatus::Unavailable,
{
}

/// The statuses of a sequence of metrics, in order.
pub open spec fn statuses(ms: Seq<Metric>) -> Seq<MetricStatus> {
    ms.map_values(|m: Metric| m.status)
}

/// A count is the multiplicity of the status among the statuses.
pub proof fn lemma_count_is_multiplicity(ms: Seq<Metric>, st: MetricStatus)
    ensures
        count_status(ms, st) == statuses(ms).to_multiset().count(st),
    decreases ms.len(),
{
    broadcast use vstd::seq_lib::group_to_multiset_ensures;
    broadcast use vstd::multiset::group_multiset_axioms;

    if ms.len() == 0 {
        assert(statuses(ms) =~= Seq::<MetricStatus>::empty());
    } else {
        lemma_count_is_multiplicity(ms.drop_last(), st);
        assert(statuses(ms) =~= statuses(ms.drop_last()).push(ms.last().status));
    }
}

/// Scoring depends on the statuses alone, not on their order nor on the
/// rest of the metrics: two sequences with the same statuses, counted with
/// multiplicity, get the same counts, score, status and i32 bound.
pub proof fn law_same_statuses_same_report(a: Seq<Metric>, b: Seq<Metric>)
    requires
        statuses(a).to_multiset() == statuses(b).to_multiset(),
    ensures
        forall|st: MetricStatus| count_status(a, st) == count_status(b, st),
        a.len() == b.len(),
        spec_score(a) == spec_score(b),
        spec_overall_status(a) == spec_overall_status(b),
        score_fits_i32(a) == score_fits_i32(b),
{
    broadcast use vstd::seq_lib::group_to_multiset_ensures;

    assert forall|st: MetricStatus| count_status(a, st) == count_status(b, st) by {
        lemma_count_is_multiplicity(a, st);
        lemma_count_is_multiplicity(b, st);
    }
    assert(statuses(a).len() == statuses(a).to_multiset().len());
    assert(statuses(b).len() == statuses(b).to_multiset().len());
    assert(count_status(a, MetricStatus::Attention) == count_status(b, MetricStatus::Attention));
    assert(count_status(a, MetricStatus::Critical) == count_status(b, MetricStatus::Critical));
}

/// Adding an unavailable metric adds one to the total and to the
/// unavailable count, and leaves every other count, the score, the status
/// and the i32 bound as they were.
pub proof fn law_unavailable_only_counted(ms: Seq<Metric>, u: Metric)
    requires
        u.status == MetricStatus::Unavailable,
    ensures
        ms.push(u).len() == ms.len() + 1,
        count_status(ms.push(u), MetricStatus::Unavailable) == count_status(ms, MetricStatus::Unavailable) + 1,
        count_status(ms.push(u), MetricStatus::Healthy) == count_status(ms, MetricStatus::Healthy),
        count_status(ms.push(u), MetricStatus::Attention) == count_status(ms, MetricStatus::Attention),
        count_status(ms.push(u), MetricStatus::Critical) == count_status(ms, MetricStatus::Critical),
        spec_score(ms.push(u)) == spec_score(ms),
        spec_overall_status(ms.push(u)) == spec_overall_status(ms),
        score_fits_i32(ms.push(u)) == score_fits_i32(ms),
{
    assert(ms.push(u).drop_last() =~= ms);
}

} // verus!
