use grafbabe::series::{group_series, metrics_for_events, SeriesName, ValueRow};

fn name(metric_id: i64, label_id: Option<i64>, name: &str, label: Option<&str>) -> SeriesName {
    SeriesName { metric_id, label_id, name: name.to_string(), label: label.map(|l| l.to_string()) }
}

fn row(event_id: i64, metric_id: i64, label_id: Option<i64>, value: Option<i64>) -> ValueRow {
    ValueRow { event_id, metric_id, label_id, value }
}

#[test]
fn rows_are_grouped_sorted_and_aligned_with_events() {
    let names = vec![
        name(1, Some(7), "requests", Some("code=500")),
        name(1, None, "requests", None),
        name(2, None, "memory", None),
        name(1, Some(6), "requests", Some("code=200")),
    ];
    let rows = vec![
        row(10, 1, Some(7), Some(1)),
        row(10, 2, None, Some(100)),
        row(20, 1, Some(6), Some(2)),
        row(20, 1, None, None),
        row(30, 1, Some(7), Some(3)),
        row(30, 2, None, Some(101)),
    ];
    let events = vec![10, 20, 30];
    let series = group_series(&names, &rows, &events);
    for s in &series {
        assert_eq!(s.values.len(), events.len());
    }
    let view: Vec<(String, Option<String>, Vec<Option<i64>>)> = series
        .into_iter()
        .map(|s| (s.name, s.label, s.values))
        .collect();
    assert_eq!(
        view,
        vec![
            ("memory".to_string(), None, vec![Some(100), None, Some(101)]),
            ("requests".to_string(), None, vec![None, None, None]),
            ("requests".to_string(), Some("code=200".to_string()), vec![None, Some(2), None]),
            ("requests".to_string(), Some("code=500".to_string()), vec![Some(1), None, Some(3)]),
        ]
    );
}

#[test]
fn later_names_replace_earlier_ones_and_equal_names_merge() {
    let names = vec![
        name(1, None, "old", None),
        name(1, None, "up", None),
        name(2, None, "up", None),
    ];
    let rows = vec![row(1, 1, None, Some(1)), row(2, 2, None, Some(2))];
    let series = group_series(&names, &rows, &vec![1, 2]);
    assert_eq!(series.len(), 1);
    assert_eq!(series[0].name, "up");
    assert_eq!(series[0].values, vec![Some(1), Some(2)]);
}

#[test]
fn the_last_row_at_an_event_wins() {
    let names = vec![name(1, None, "up", None)];
    let rows = vec![row(5, 1, None, Some(1)), row(5, 1, None, Some(2))];
    let series = group_series(&names, &rows, &vec![4, 5]);
    assert_eq!(series[0].values, vec![None, Some(2)]);
}

#[test]
fn no_events_no_metrics() {
    let m = metrics_for_events(&vec![], vec![5], &vec![], &vec![]);
    assert!(m.timestamps.is_empty());
    assert!(m.series.is_empty());
    let names = vec![name(1, None, "up", None)];
    let m = metrics_for_events(&vec![3, 4], vec![5, 6], &names, &vec![row(4, 1, None, Some(9))]);
    assert_eq!(m.timestamps, vec![5, 6]);
    assert_eq!(m.series.len(), 1);
    assert_eq!(m.series[0].values, vec![None, Some(9)]);
}
