use pbhealth::normalizer::{Category, Metric, MetricStatus, MetricValue};
use pbhealth::score::ScoreEngine;

fn metric_with(status: MetricStatus) -> Metric {
    Metric::healthy(Category::Cpu, "x", 0i64, None, "sysinfo").with_status(status)
}

#[test]
fn all_healthy_gives_full_score() {
    let m = vec![Metric::healthy(
        Category::Cpu,
        "load_pct",
        MetricValue::Number(10.0f64.to_bits()),
        Some("%"),
        "sysinfo",
    )];
    let r = ScoreEngine::compute(&m);
    assert_eq!(r.score, 100);
    assert_eq!(r.status, MetricStatus::Healthy);
}

#[test]
fn critical_dominates_attention() {
    let mut metrics = Vec::new();
    for _ in 0..5 {
        metrics.push(Metric::healthy(Category::Cpu, "x", 0i64, None, "sysinfo"));
    }
    metrics.push(Metric::healthy(Category::Cpu, "y", 0i64, None, "sysinfo").with_status(MetricStatus::Critical));
    let r = ScoreEngine::compute(&metrics);
    assert!(r.score < 100);
    assert_eq!(r.status, MetricStatus::Critical);
    assert_eq!(r.counts.critical, 1);
}

#[test]
fn unavailable_does_not_penalize() {
    let metrics = vec![
        Metric::healthy(Category::Cpu, "x", 0i64, None, "sysinfo"),
        Metric::unavailable(Category::Cpu, "temp", "wmi", "no admin", true),
    ];
    let r = ScoreEngine::compute(&metrics);
    assert_eq!(r.score, 100);
    assert_eq!(r.counts.unavailable, 1);
}

#[test]
fn empty_set_scores_full() {
    let r = ScoreEngine::compute(&[]);
    assert_eq!(r.score, 100);
    assert_eq!(r.status, MetricStatus::Healthy);
    assert_eq!(r.counts.total, 0);
}

#[test]
fn attention_costs_five_and_thresholds() {
    let four: Vec<Metric> = (0..4).map(|_| metric_with(MetricStatus::Attention)).collect();
    let r = ScoreEngine::compute(&four);
    assert_eq!(r.score, 80);
    assert_eq!(r.status, MetricStatus::Healthy);
    let five: Vec<Metric> = (0..5).map(|_| metric_with(MetricStatus::Attention)).collect();
    let r = ScoreEngine::compute(&five);
    assert_eq!(r.score, 75);
    assert_eq!(r.status, MetricStatus::Attention);
    let ten: Vec<Metric> = (0..10).map(|_| metric_with(MetricStatus::Attention)).collect();
    let r = ScoreEngine::compute(&ten);
    assert_eq!(r.score, 50);
    assert_eq!(r.status, MetricStatus::Attention);
    let eleven: Vec<Metric> = (0..11).map(|_| metric_with(MetricStatus::Attention)).collect();
    let r = ScoreEngine::compute(&eleven);
    assert_eq!(r.score, 45);
    assert_eq!(r.status, MetricStatus::Critical);
    assert_eq!(r.counts.attention, 11);
    assert_eq!(r.counts.total, 11);
}

#[test]
fn score_clamps_at_zero() {
    let many: Vec<Metric> = (0..7).map(|_| metric_with(MetricStatus::Critical)).collect();
    let r = ScoreEngine::compute(&many);
    assert_eq!(r.score, 0);
    assert_eq!(r.status, MetricStatus::Critical);
    assert_eq!(r.counts.critical, 7);
}

#[test]
fn critical_costs_fifteen() {
    let one = vec![metric_with(MetricStatus::Critical)];
    let r = ScoreEngine::compute(&one);
    assert_eq!(r.score, 85);
    assert_eq!(r.status, MetricStatus::Critical);
}

#[test]
fn counts_partition_and_order() {
    let a = vec![
        metric_with(MetricStatus::Healthy),
        metric_with(MetricStatus::Attention),
        metric_with(MetricStatus::Unavailable),
        metric_with(MetricStatus::Critical),
        metric_with(MetricStatus::Attention),
    ];
    let mut b = Vec::new();
    for m in a.iter().rev() {
        b.push(m.clone());
    }
    let ra = ScoreEngine::compute(&a);
    let rb = ScoreEngine::compute(&b);
    assert_eq!(ra.score, 75);
    assert_eq!(ra.score, rb.score);
    assert_eq!(ra.status, rb.status);
    let c = &ra.counts;
    assert_eq!(c.healthy + c.attention + c.critical + c.unavailable, c.total);
    assert_eq!((c.healthy, c.attention, c.critical, c.unavailable), (1, 2, 1, 1));
}

#[test]
fn small_sets_fit() {
    let v = vec![metric_with(MetricStatus::Critical); 100];
    assert!(ScoreEngine::fits(&v));
}
