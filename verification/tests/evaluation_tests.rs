use eos_mpc::evaluation::{
    BenchmarkCase, BenchmarkResult, BenchmarkSuite, CircuitMetrics, CommunicationStats,
    MemoryStats, PerformanceMetrics, PerformanceReport,
};

#[test]
fn metrics_start_empty() {
    let m = PerformanceMetrics::new();
    assert!(m.timings.is_empty());
    assert_eq!(m.memory_stats.peak_usage_bytes, 0);
    assert_eq!(m.communication_stats.rounds, 0);
    assert_eq!(m.circuit_metrics.constraint_count, 0);
    assert_eq!(m.total_time(), 0);
}

#[test]
fn record_timing_keeps_one_entry_per_phase() {
    let mut m = PerformanceMetrics::new();
    m.record_timing(String::from("setup"), 10);
    m.record_timing(String::from("prove"), 20);
    assert_eq!(m.timings.len(), 2);
    assert_eq!(m.total_time(), 30);
    // Recording the same phase again replaces, not appends.
    m.record_timing(String::from("setup"), 5);
    assert_eq!(m.timings.len(), 2);
    assert_eq!(m.total_time(), 25);
}

#[test]
fn timer_reports_its_phase() {
    let mut m = PerformanceMetrics::new();
    let t = m.start_timer("keygen");
    let (phase, elapsed) = t.stop();
    assert_eq!(phase, "keygen");
    // Wall-clock readings are opaque, but they are finite and usable.
    m.record_timing(phase, elapsed);
    assert_eq!(m.timings.len(), 1);
}

#[test]
fn generate_report_uses_estimates_for_unmeasured_runs() {
    let mut m = PerformanceMetrics::new();
    m.record_timing(String::from("setup"), 10);
    m.record_timing(String::from("prove"), 30);
    let report = m.generate_report();
    assert_eq!(report.total_time, 40);
    assert_eq!(report.phase_breakdown.len(), 2);
    // Unmeasured memory and circuit data fall back to declared estimates.
    assert_eq!(report.memory_peak, 1048576);
    assert_eq!(report.communication_overhead, 2 * 512);
    assert_eq!(report.circuit_size, 100 + 2 * 10);
}

#[test]
fn generate_report_prefers_measured_values() {
    let mut m = PerformanceMetrics::new();
    m.record_timing(String::from("prove"), 30);
    m.memory_stats.update(4096);
    m.communication_stats.add_round(500, 3);
    m.circuit_metrics.constraint_count = 77;
    let report = m.generate_report();
    assert_eq!(report.memory_peak, 4096);
    assert_eq!(report.communication_overhead, 500);
    assert_eq!(report.circuit_size, 77);
}

#[test]
fn memory_stats_track_peak() {
    let mut m = MemoryStats::new();
    m.update(100);
    m.update(300);
    m.update(200);
    assert_eq!(m.current_usage_bytes, 200);
    assert_eq!(m.peak_usage_bytes, 300);
    assert_eq!(m.allocation_count, 3);
}

#[test]
fn communication_stats_totals() {
    let mut c = CommunicationStats::new();
    c.add_round(1000, 10);
    c.add_round(24, 5);
    assert_eq!(c.rounds, 2);
    assert_eq!(c.total_bytes(), 1024);
    assert_eq!(c.total_latency(), 15);
}

#[test]
fn total_time_saturates_instead_of_wrapping() {
    let mut m = PerformanceMetrics::new();
    m.record_timing(String::from("a"), u64::MAX - 1);
    m.record_timing(String::from("b"), 5);
    assert_eq!(m.total_time(), u64::MAX);
}

#[test]
fn circuit_metrics_start_zeroed() {
    let c = CircuitMetrics::new();
    assert_eq!(c.constraint_count, 0);
    assert_eq!(c.variable_count, 0);
    assert_eq!(c.circuit_depth, 0);
    assert_eq!(c.multiplication_gates, 0);
    assert_eq!(c.addition_gates, 0);
}

fn sample_case(name: &str, size: usize) -> BenchmarkCase {
    BenchmarkCase {
        name: String::from(name),
        description: String::from("sample"),
        circuit_size: size,
        num_parties: 3,
        expected_duration_ms: 1,
    }
}

#[test]
fn benchmark_suite_collects_cases_and_baselines() {
    let mut suite = BenchmarkSuite::new();
    suite.add_test_case(sample_case("small", 16));
    suite.add_test_case(sample_case("large", 1024));
    assert_eq!(suite.test_cases.len(), 2);
    suite.add_baseline(String::from("reference"), PerformanceMetrics::new());
    suite.add_baseline(String::from("tuned"), PerformanceMetrics::new());
    assert_eq!(suite.baselines.len(), 2);
    // Same name replaces the entry rather than adding another.
    suite.add_baseline(String::from("reference"), PerformanceMetrics::new());
    assert_eq!(suite.baselines.len(), 2);
}

#[test]
fn benchmark_report_counts_and_average() {
    let suite = BenchmarkSuite::new();
    let mut m1 = PerformanceMetrics::new();
    m1.record_timing(String::from("total"), 10);
    let mut m2 = PerformanceMetrics::new();
    m2.record_timing(String::from("total"), 30);
    let results = [
        BenchmarkResult { test_case: sample_case("a", 1), metrics: m1, passed: true },
        BenchmarkResult { test_case: sample_case("b", 2), metrics: m2, passed: false },
    ];
    let report = suite.generate_report(&results);
    assert_eq!(report.test_count, 2);
    assert_eq!(report.passed_count, 1);
    assert_eq!(report.average_time, 20);
    assert_eq!(report.results.len(), 2);
    assert_eq!(report.results[0].test_case.name, "a");
    assert!(report.results[0].passed);
}

#[test]
fn report_exports_json() {
    let mut m = PerformanceMetrics::new();
    m.record_timing(String::from("prove"), 1500);
    m.memory_stats.update(2048);
    m.communication_stats.add_round(300, 2);
    m.circuit_metrics.constraint_count = 10;
    let report = m.generate_report();
    assert_eq!(
        report.to_json(),
        "{\"total_time_ms\": 1500, \"memory_peak_bytes\": 2048, \"communication_bytes\": 300, \"circuit_size\": 10}"
    );
}

#[test]
fn report_json_renders_zero_digits() {
    let report = PerformanceReport {
        total_time: 0,
        phase_breakdown: Vec::new(),
        memory_peak: 907,
        communication_overhead: 0,
        circuit_size: 120,
    };
    assert_eq!(
        report.to_json(),
        "{\"total_time_ms\": 0, \"memory_peak_bytes\": 907, \"communication_bytes\": 0, \"circuit_size\": 120}"
    );
}
