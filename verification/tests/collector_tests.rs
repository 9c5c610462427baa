use psi_tests::metrics::{build_metric_set, map_audits, LHResult, Strategy};

fn record(base: i64) -> LHResult {
    LHResult {
        cumulative_layout_shift: base,
        first_contentful_paint: base + 1,
        js_execution_time: base + 2,
        largest_contentful_paint: base + 3,
        speed_index: base + 4,
        time_to_interactive: base + 5,
        total_blocking_time: base + 6,
        score: base + 7,
    }
}

#[test]
fn collector_excludes_sentinel_runs() {
    // Five requested runs, two of which came back as the all-zero sentinel:
    // the resulting metric set has sequences of length three.
    let records = vec![
        record(10),
        LHResult::sentinel(),
        record(20),
        LHResult::sentinel(),
        record(30),
    ];
    let set = build_metric_set(&records);
    assert_eq!(set.cumulative_layout_shift.len(), 3);
    assert_eq!(set.first_contentful_paint.len(), 3);
    assert_eq!(set.js_execution_time.len(), 3);
    assert_eq!(set.largest_contentful_paint.len(), 3);
    assert_eq!(set.speed_index.len(), 3);
    assert_eq!(set.time_to_interactive.len(), 3);
    assert_eq!(set.total_blocking_time.len(), 3);
    assert_eq!(set.score.len(), 3);
    assert_eq!(set.score, vec![17, 27, 37]);
}

#[test]
fn collector_keeps_full_batches_whole() {
    let records = vec![record(10), record(20)];
    let set = build_metric_set(&records);
    assert_eq!(set.score.len(), 2);
    assert_eq!(set.speed_index, vec![14, 24]);
}

#[test]
fn map_audits_transposes_records() {
    let records = vec![record(0), record(100)];
    let set = map_audits(&records);
    assert_eq!(set.cumulative_layout_shift, vec![0, 100]);
    assert_eq!(set.first_contentful_paint, vec![1, 101]);
    assert_eq!(set.score, vec![7, 107]);
}

#[test]
fn strategy_labels_match_the_api() {
    assert_eq!(Strategy::MOBILE.label(), "mobile");
    assert_eq!(Strategy::DESKTOP.label(), "desktop");
}
