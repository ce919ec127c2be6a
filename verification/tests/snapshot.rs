use grafbabe::snapshot::{
    check_labels_resolved, find_id, label_strings, labels_to_db, metric_type, new_labels, new_metrics, plan_values,
    sql_metric_type, value_support, Family, Label, MetricKind, NamedId, PlannedValue, Sample,
    SampleValue, UnsupportedMetricType,
};

fn label(name: &str, value: &str) -> Label {
    Label { name: name.to_string(), value: value.to_string() }
}

fn sample(labels: Vec<Label>, value: SampleValue) -> Sample {
    Sample { labels, value }
}

fn family(name: &str, kind: MetricKind, samples: Vec<Sample>) -> Family {
    Family { name: name.to_string(), kind, samples }
}

#[test]
fn metric_type_codes() {
    assert_eq!(metric_type(MetricKind::Counter), Ok(0));
    assert_eq!(metric_type(MetricKind::Gauge), Ok(1));
    assert_eq!(metric_type(MetricKind::Summary), Ok(2));
    assert_eq!(metric_type(MetricKind::Untyped), Ok(3));
    assert_eq!(metric_type(MetricKind::Histogram), Err(UnsupportedMetricType::Histogram));
    assert_eq!(metric_type(MetricKind::StateSet), Err(UnsupportedMetricType::StateSet));
    assert_eq!(metric_type(MetricKind::Info), Ok(9));
    assert_eq!(sql_metric_type(MetricKind::GaugeHistogram), 5);
    assert_eq!(sql_metric_type(MetricKind::HybridHistogram), 7);
    assert_eq!(sql_metric_type(MetricKind::Info), 9);
}

#[test]
fn value_kinds_that_are_stored() {
    assert_eq!(value_support(&SampleValue::Counter), Ok(()));
    assert_eq!(value_support(&SampleValue::Info(vec![])), Ok(()));
    assert_eq!(value_support(&SampleValue::Summary), Err(UnsupportedMetricType::Summary));
    assert_eq!(
        value_support(&SampleValue::HybridHistogram),
        Err(UnsupportedMetricType::HybridHistogram)
    );
}

#[test]
fn label_sets_are_sorted_and_joined() {
    assert_eq!(labels_to_db(&vec![]), None);
    assert_eq!(labels_to_db(&vec![label("a", "1")]), Some("a=1".to_string()));
    assert_eq!(
        labels_to_db(&vec![label("method", "get"), label("code", "200"), label("b", "x=y")]),
        Some("b=x=y,code=200,method=get".to_string())
    );
    assert_eq!(
        labels_to_db(&vec![label("code", "200"), label("method", "get")]),
        labels_to_db(&vec![label("method", "get"), label("code", "200")])
    );
    assert_eq!(
        labels_to_db(&vec![label("Z", "1"), label("a", "1"), label("é", "1")]),
        Some("Z=1,a=1,é=1".to_string())
    );
}

fn snapshot() -> Vec<Family> {
    vec![
        family(
            "http_requests",
            MetricKind::Counter,
            vec![
                sample(vec![label("code", "200")], SampleValue::Counter),
                sample(vec![label("code", "500")], SampleValue::Counter),
                sample(vec![], SampleValue::Counter),
            ],
        ),
        family(
            "latency",
            MetricKind::Summary,
            vec![sample(vec![label("q", "0.5")], SampleValue::Summary)],
        ),
        family("buckets", MetricKind::Histogram, vec![sample(vec![], SampleValue::Histogram)]),
        family(
            "build",
            MetricKind::Info,
            vec![sample(vec![], SampleValue::Info(vec![label("version", "1")]))],
        ),
        family(
            "http_requests",
            MetricKind::Counter,
            vec![sample(vec![label("code", "200")], SampleValue::Counter)],
        ),
    ]
}

#[test]
fn label_sets_of_a_snapshot() {
    assert_eq!(
        label_strings(&snapshot()),
        vec!["code=200", "code=500", "q=0.5", "version=1", "code=200"]
    );
}

#[test]
fn label_sets_to_add() {
    let strings = label_strings(&snapshot());
    let known = vec!["code=500".to_string()];
    assert_eq!(new_labels(&strings, &known), vec!["code=200", "q=0.5", "version=1"]);
}

#[test]
fn the_label_table_keeps_each_label_set_once() {
    let strings = label_strings(&snapshot());
    let known = vec!["code=500".to_string(), "other=1".to_string()];
    let mut table = known.clone();
    table.extend(new_labels(&strings, &known));
    let mut sorted = table.clone();
    sorted.sort();
    sorted.dedup();
    assert_eq!(sorted.len(), table.len());
    for s in &strings {
        assert!(table.contains(s));
    }
    let rows: Vec<NamedId> = table
        .iter()
        .enumerate()
        .map(|(i, l)| NamedId { name: l.clone(), id: 100 + i as i64 })
        .collect();
    for (i, l) in table.iter().enumerate() {
        assert_eq!(find_id(&rows, l), Some(100 + i as i64));
    }
    assert_eq!(find_id(&rows, "missing=1"), None);
}

#[test]
fn metrics_to_add() {
    let known = vec!["build".to_string()];
    let added = new_metrics(&snapshot(), &known);
    let pairs: Vec<(usize, i64)> = added.iter().map(|m| (m.family, m.kind)).collect();
    assert_eq!(pairs, vec![(0, 0), (1, 2)]);
}

#[test]
fn values_to_store() {
    let fams = snapshot();
    let metrics = vec![
        NamedId { name: "http_requests".into(), id: 1 },
        NamedId { name: "latency".into(), id: 2 },
        NamedId { name: "build".into(), id: 3 },
    ];
    let labels = vec![
        NamedId { name: "code=200".into(), id: 10 },
        NamedId { name: "code=500".into(), id: 11 },
    ];
    let planned = plan_values(&fams, &metrics, &labels);
    assert_eq!(
        planned,
        vec![
            PlannedValue { family: 0, sample: 0, metric_id: 1, label_id: Some(10) },
            PlannedValue { family: 0, sample: 1, metric_id: 1, label_id: Some(11) },
            PlannedValue { family: 0, sample: 2, metric_id: 1, label_id: None },
            PlannedValue { family: 3, sample: 0, metric_id: 3, label_id: None },
            PlannedValue { family: 4, sample: 0, metric_id: 1, label_id: Some(10) },
        ]
    );
}

#[test]
fn added_label_sets_resolve() {
    let fams = snapshot();
    let strings = label_strings(&fams);
    let known = vec!["code=500".to_string()];
    let added = new_labels(&strings, &known);
    let mut labels = vec![NamedId { name: "code=500".into(), id: 11 }];
    for (i, l) in added.iter().enumerate() {
        labels.push(NamedId { name: l.clone(), id: 20 + i as i64 });
    }
    let metrics = vec![
        NamedId { name: "http_requests".into(), id: 1 },
        NamedId { name: "build".into(), id: 3 },
    ];
    assert!(check_labels_resolved(&fams, &metrics, &labels));
}

#[test]
fn info_labels_that_differ_from_the_sample_labels_do_not_resolve() {
    let fams = vec![family(
        "build",
        MetricKind::Info,
        vec![sample(vec![label("host", "a")], SampleValue::Info(vec![label("version", "1")]))],
    )];
    let strings = label_strings(&fams);
    let added = new_labels(&strings, &vec![]);
    assert_eq!(added, vec!["version=1"]);
    let labels = vec![NamedId { name: "version=1".into(), id: 1 }];
    let metrics = vec![NamedId { name: "build".into(), id: 3 }];
    assert!(!check_labels_resolved(&fams, &metrics, &labels));
}
