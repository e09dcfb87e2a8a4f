use buildkit_agent::model::{BuildError, BuildRecord, DiskRecord, Identity};
use buildkit_agent::reconcile::{group_by_type, scrape_and_record};
use buildkit_agent::registry::MetricsRegistry;

fn disk(size: i64, record_type: &str) -> DiskRecord {
    DiskRecord { size, record_type: record_type.to_string() }
}

fn build(reference: &str, error_code: Option<i32>, cached: u64, total: u64) -> BuildRecord {
    BuildRecord {
        reference: reference.to_string(),
        error: error_code.map(|code| BuildError { code }),
        cached_steps: cached,
        total_steps: total,
    }
}

#[test]
fn disk_usage_scenario() {
    let mut reg = MetricsRegistry::new();
    let records = vec![disk(100, "snapshot"), disk(50, ""), disk(25, "snapshot")];
    scrape_and_record(&mut reg, None, 0, records, Vec::new());
    assert_eq!(reg.cache_records_total, Some(3));
    assert_eq!(reg.cache_size_bytes, Some(175));
    assert_eq!(reg.cache_size_by_type(&"snapshot".to_string()), Some(125));
    assert_eq!(reg.cache_size_by_type(&"unknown".to_string()), Some(50));
    assert_eq!(reg.cache_size_by_type(&"content".to_string()), None);
}

#[test]
fn empty_label_grouped_under_unknown() {
    let groups = group_by_type(&vec![disk(7, ""), disk(3, "unknown"), disk(1, "content")]);
    let mut unknown = None;
    let mut content = None;
    for (label, size) in &groups {
        if label == "unknown" {
            unknown = Some(*size);
        }
        if label == "content" {
            content = Some(*size);
        }
    }
    assert_eq!(unknown, Some(10));
    assert_eq!(content, Some(1));
    assert_eq!(groups.len(), 2);
}

#[test]
fn by_type_gauges_sum_to_total() {
    let records = vec![disk(100, "snapshot"), disk(50, ""), disk(25, "snapshot"), disk(-5, "content")];
    let mut reg = MetricsRegistry::new();
    scrape_and_record(&mut reg, None, 0, records.clone(), Vec::new());
    let total: i64 = reg.by_type_entries().iter().map(|e| e.1).sum();
    assert_eq!(Some(total), reg.cache_size_bytes);
}

#[test]
fn negative_sizes_pass_through() {
    let mut reg = MetricsRegistry::new();
    scrape_and_record(&mut reg, None, 0, vec![disk(-40, "snapshot")], Vec::new());
    assert_eq!(reg.cache_size_bytes, Some(-40));
    assert_eq!(reg.cache_size_by_type(&"snapshot".to_string()), Some(-40));
}

#[test]
fn worker_count_gauge_overwritten() {
    let mut reg = MetricsRegistry::new();
    assert_eq!(reg.workers_total, None);
    scrape_and_record(&mut reg, None, 4, Vec::new(), Vec::new());
    assert_eq!(reg.workers_total, Some(4));
    scrape_and_record(&mut reg, None, 2, Vec::new(), Vec::new());
    assert_eq!(reg.workers_total, Some(2));
}

#[test]
fn error_code_zero_counts_as_succeeded() {
    let mut reg = MetricsRegistry::new();
    scrape_and_record(&mut reg, None, 0, Vec::new(), vec![build("a", Some(0), 1, 2)]);
    assert_eq!(reg.builds_total, 1);
    assert_eq!(reg.builds_succeeded_total, 1);
    assert_eq!(reg.builds_failed_total, 0);
}

#[test]
fn nonzero_error_code_counts_as_failed() {
    let mut reg = MetricsRegistry::new();
    scrape_and_record(&mut reg, None, 0, Vec::new(), vec![build("a", Some(7), 0, 3)]);
    assert_eq!(reg.builds_total, 1);
    assert_eq!(reg.builds_succeeded_total, 0);
    assert_eq!(reg.builds_failed_total, 1);
}

#[test]
fn step_counters_accumulate() {
    let mut reg = MetricsRegistry::new();
    let batch = vec![build("a", None, 2, 5), build("b", Some(1), 1, 4)];
    scrape_and_record(&mut reg, None, 0, Vec::new(), batch);
    assert_eq!(reg.builds_cached_steps_total, 3);
    assert_eq!(reg.builds_total_steps_total, 9);
    scrape_and_record(&mut reg, None, 0, Vec::new(), vec![build("c", None, 10, 10)]);
    assert_eq!(reg.builds_cached_steps_total, 13);
    assert_eq!(reg.builds_total_steps_total, 19);
}

#[test]
fn same_snapshot_twice_doubles_counters_and_repeats_gauges() {
    let mut reg = MetricsRegistry::new();
    let records = vec![disk(100, "snapshot"), disk(50, "")];
    let batch = vec![build("a", None, 2, 5), build("b", Some(3), 0, 4)];
    let identity = Identity { version: "v0.12".to_string(), revision: "abc".to_string() };
    scrape_and_record(&mut reg, Some(identity), 3, records.clone(), batch.clone());
    let after_one = (
        reg.workers_total,
        reg.cache_records_total,
        reg.cache_size_bytes,
        reg.cache_size_by_type(&"snapshot".to_string()),
        reg.cache_size_by_type(&"unknown".to_string()),
    );
    assert_eq!(reg.builds_total, 2);
    assert_eq!(reg.builds_succeeded_total, 1);
    assert_eq!(reg.builds_failed_total, 1);
    let identity = Identity { version: "v0.12".to_string(), revision: "abc".to_string() };
    scrape_and_record(&mut reg, Some(identity), 3, records, batch);
    assert_eq!(reg.builds_total, 4);
    assert_eq!(reg.builds_succeeded_total, 2);
    assert_eq!(reg.builds_failed_total, 2);
    assert_eq!(reg.builds_cached_steps_total, 4);
    assert_eq!(reg.builds_total_steps_total, 18);
    let after_two = (
        reg.workers_total,
        reg.cache_records_total,
        reg.cache_size_bytes,
        reg.cache_size_by_type(&"snapshot".to_string()),
        reg.cache_size_by_type(&"unknown".to_string()),
    );
    assert_eq!(after_one, after_two);
    assert_eq!(reg.info.as_ref().map(|i| i.version.as_str()), Some("v0.12"));
}

#[test]
fn absent_identity_keeps_previous_info() {
    let mut reg = MetricsRegistry::new();
    scrape_and_record(&mut reg, None, 1, Vec::new(), Vec::new());
    assert!(reg.info.is_none());
    let identity = Identity { version: "v1".to_string(), revision: "r1".to_string() };
    scrape_and_record(&mut reg, Some(identity), 1, Vec::new(), Vec::new());
    scrape_and_record(&mut reg, None, 1, Vec::new(), Vec::new());
    assert_eq!(reg.info.as_ref().map(|i| i.version.as_str()), Some("v1"));
    assert_eq!(reg.info.as_ref().map(|i| i.revision.as_str()), Some("r1"));
}

#[test]
fn stale_by_type_labels_keep_last_value() {
    let mut reg = MetricsRegistry::new();
    scrape_and_record(&mut reg, None, 0, vec![disk(9, "content")], Vec::new());
    scrape_and_record(&mut reg, None, 0, vec![disk(4, "snapshot")], Vec::new());
    assert_eq!(reg.cache_size_by_type(&"content".to_string()), Some(9));
    assert_eq!(reg.cache_size_by_type(&"snapshot".to_string()), Some(4));
}

#[test]
fn cache_size_clamps_at_i64_bounds() {
    let mut reg = MetricsRegistry::new();
    let records = vec![disk(i64::MAX, "snapshot"), disk(100, "snapshot")];
    scrape_and_record(&mut reg, None, 0, records, Vec::new());
    assert_eq!(reg.cache_size_bytes, Some(i64::MAX));
    assert_eq!(reg.cache_size_by_type(&"snapshot".to_string()), Some(i64::MAX));
}

#[test]
fn counters_saturate_instead_of_wrapping() {
    let mut reg = MetricsRegistry::new();
    reg.builds_total = u64::MAX - 1;
    reg.builds_total_steps_total = u64::MAX - 1;
    let batch = vec![build("a", None, 0, 1), build("b", None, 0, 1), build("c", None, 0, 1)];
    scrape_and_record(&mut reg, None, 0, Vec::new(), batch);
    assert_eq!(reg.builds_total, u64::MAX);
    assert_eq!(reg.builds_total_steps_total, u64::MAX);
    assert_eq!(reg.builds_succeeded_total, 3);
}
