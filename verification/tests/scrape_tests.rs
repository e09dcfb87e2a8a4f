use buildkit_agent::dedup::SeenSet;
use buildkit_agent::model::{
    BuildError, BuildRecord, HistoryEvent, HistoryEventKind, Identity, ScrapeData,
};
use buildkit_agent::reconcile::{collect_completed, record_scrape};
use buildkit_agent::registry::MetricsRegistry;

fn build(reference: &str, error_code: Option<i32>, cached: u64, total: u64) -> BuildRecord {
    BuildRecord {
        reference: reference.to_string(),
        error: error_code.map(|code| BuildError { code }),
        cached_steps: cached,
        total_steps: total,
    }
}

fn complete(record: BuildRecord) -> HistoryEvent {
    HistoryEvent { kind: HistoryEventKind::Complete, record: Some(record) }
}

#[test]
fn mark_if_new_true_only_once() {
    let mut seen = SeenSet::new();
    assert!(seen.mark_if_new(&"a".to_string()));
    assert!(!seen.mark_if_new(&"a".to_string()));
    assert!(seen.mark_if_new(&"b".to_string()));
    assert!(!seen.mark_if_new(&"a".to_string()));
    assert!(!seen.mark_if_new(&"b".to_string()));
}

#[test]
fn overlapping_windows_counted_once() {
    let mut seen = SeenSet::new();
    let first = seen.filter_new(vec![build("a", None, 0, 0), build("b", None, 0, 0)]);
    assert_eq!(first.len(), 2);
    let second = seen.filter_new(vec![
        build("a", None, 0, 0),
        build("b", None, 0, 0),
        build("c", Some(1), 0, 0),
    ]);
    assert_eq!(second.len(), 1);
    assert_eq!(second[0].reference, "c");
}

#[test]
fn duplicate_reference_within_batch_kept_once() {
    let mut seen = SeenSet::new();
    let kept = seen.filter_new(vec![
        build("a", None, 1, 1),
        build("a", Some(2), 9, 9),
        build("b", None, 0, 0),
    ]);
    assert_eq!(kept.len(), 2);
    assert_eq!(kept[0].reference, "a");
    assert_eq!(kept[0].cached_steps, 1);
    assert_eq!(kept[1].reference, "b");
}

#[test]
fn collect_completed_keeps_only_complete_events_with_records() {
    let events = vec![
        HistoryEvent { kind: HistoryEventKind::Started, record: Some(build("a", None, 0, 0)) },
        complete(build("b", None, 0, 0)),
        HistoryEvent { kind: HistoryEventKind::Complete, record: None },
        HistoryEvent { kind: HistoryEventKind::Deleted, record: Some(build("c", None, 0, 0)) },
        complete(build("d", None, 0, 0)),
    ];
    let completed = collect_completed(events);
    let refs: Vec<&str> = completed.iter().map(|r| r.reference.as_str()).collect();
    assert_eq!(refs, vec!["b", "d"]);
}

#[test]
fn two_scrapes_with_overlapping_history() {
    let mut seen = SeenSet::new();
    let mut reg = MetricsRegistry::new();
    let first = ScrapeData {
        identity: None,
        worker_count: 1,
        disk: Vec::new(),
        events: vec![complete(build("a", None, 0, 1)), complete(build("b", Some(0), 0, 1))],
    };
    record_scrape(&mut seen, &mut reg, Some(first));
    assert_eq!(reg.builds_total, 2);
    assert_eq!(reg.builds_succeeded_total, 2);
    assert_eq!(reg.builds_failed_total, 0);
    let second = ScrapeData {
        identity: None,
        worker_count: 1,
        disk: Vec::new(),
        events: vec![
            complete(build("a", None, 0, 1)),
            complete(build("b", Some(0), 0, 1)),
            complete(build("c", Some(5), 0, 1)),
        ],
    };
    record_scrape(&mut seen, &mut reg, Some(second));
    assert_eq!(reg.builds_total, 3);
    assert_eq!(reg.builds_succeeded_total, 2);
    assert_eq!(reg.builds_failed_total, 1);
}

#[test]
fn failed_scrape_leaves_metrics_untouched() {
    let mut seen = SeenSet::new();
    let mut reg = MetricsRegistry::new();
    let data = ScrapeData {
        identity: Some(Identity { version: "v1".to_string(), revision: "r".to_string() }),
        worker_count: 2,
        disk: vec![buildkit_agent::model::DiskRecord { size: 10, record_type: "snapshot".to_string() }],
        events: vec![complete(build("a", None, 1, 2))],
    };
    record_scrape(&mut seen, &mut reg, Some(data));
    let before = (
        reg.info.as_ref().map(|i| (i.version.clone(), i.revision.clone())),
        reg.workers_total,
        reg.cache_records_total,
        reg.cache_size_bytes,
        reg.cache_size_by_type(&"snapshot".to_string()),
        reg.builds_total,
        reg.builds_succeeded_total,
        reg.builds_failed_total,
        reg.builds_cached_steps_total,
        reg.builds_total_steps_total,
    );
    record_scrape(&mut seen, &mut reg, None);
    let after = (
        reg.info.as_ref().map(|i| (i.version.clone(), i.revision.clone())),
        reg.workers_total,
        reg.cache_records_total,
        reg.cache_size_bytes,
        reg.cache_size_by_type(&"snapshot".to_string()),
        reg.builds_total,
        reg.builds_succeeded_total,
        reg.builds_failed_total,
        reg.builds_cached_steps_total,
        reg.builds_total_steps_total,
    );
    assert_eq!(before, after);
    assert!(!seen.mark_if_new(&"a".to_string()));
}
