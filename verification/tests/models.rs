use grafbabe::models::{Metrics, Series, Window};

#[test]
fn series_collects_values_in_order() {
    let mut s = Series::new("up".to_string(), None, 3);
    s.push(Some(1));
    s.push(None);
    assert_eq!(s.name, "up");
    assert_eq!(s.values, vec![Some(1), None]);
}

#[test]
fn windows_hold_one_sample_per_minute() {
    assert_eq!(Window::QuarterHour.total_samples(), 15);
    assert_eq!(Window::HalfHour.total_samples(), 30);
    assert_eq!(Window::Hour.total_samples(), 60);
    assert_eq!(Window::Hour4.total_samples(), 240);
    assert_eq!(Window::Hour12.total_samples(), 720);
    assert_eq!(Window::Day.total_samples(), 1440);
    assert_eq!(Window::Week.total_samples(), 10080);
    assert_eq!(Window::Month.total_samples(), 43200);
    assert_eq!(Window::Hour.as_ms(), 3_600_000);
}

#[test]
fn empty_metrics() {
    let m = Metrics::empty();
    assert!(m.timestamps.is_empty());
    assert!(m.series.is_empty());
}
