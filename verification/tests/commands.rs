use pbhealth::normalizer::{Category, Metric, MetricStatus};
use pbhealth::DiagnosticReport;

#[test]
fn report_scores_its_metrics() {
    let metrics = vec![
        Metric::healthy(Category::Cpu, "x", 1i64, None, "sysinfo"),
        Metric::healthy(Category::Cpu, "y", 1i64, None, "sysinfo").with_status(MetricStatus::Attention),
    ];
    let r = DiagnosticReport::assemble(1_700_000_000, 5, "linux", metrics);
    assert_eq!(r.os, "linux");
    assert_eq!(r.timestamp_secs, 1_700_000_000);
    assert_eq!(r.timestamp_nanos, 5);
    assert_eq!(r.metrics.len(), 2);
    assert_eq!(r.score.score, 95);
    assert_eq!(r.score.status, MetricStatus::Healthy);
    assert_eq!(r.score.counts.attention, 1);
}
