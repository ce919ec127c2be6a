use grafbabe::models::Window;
use grafbabe::sampling::{search_start, select_event_ids, tween_ids};

#[test]
fn tween_ids_returns_range_including_min_and_max() {
    let min_id = 5i64;
    let max_id = 10i64;
    let num_samples = 5usize;

    let result = tween_ids(min_id, max_id, num_samples);

    assert_eq!(num_samples, result.len());
    assert_eq!(min_id, result[0], "expected first element to be the min_id");
    assert_eq!(max_id, result[4], "expected last element to be the max_id");

    for window in result.windows(2) {
        let l = window[0];
        let r = window[1];
        assert!(
            l < r,
            "expected returned ids to be in ascending order\n {:?}",
            result
        );
    }
}

#[test]
fn tween_ids_rounds_to_nearest() {
    assert_eq!(tween_ids(1, 101, 3), vec![1, 51, 101]);
    assert_eq!(tween_ids(1, 10, 4), vec![1, 4, 7, 10]);
    assert_eq!(tween_ids(1, 2, 1), vec![1]);
}

#[test]
fn tween_ids_drops_repeats() {
    assert_eq!(tween_ids(1, 2, 5), vec![1, 2]);
}

#[test]
fn few_events_are_all_returned() {
    assert_eq!(select_event_ids(3, 7, 100, Window::Hour), vec![3, 4, 5, 6, 7]);
    assert_eq!(select_event_ids(7, 3, 0, Window::Hour), Vec::<i64>::new());
}

#[test]
fn samples_are_capped_by_the_window() {
    let ids = select_event_ids(1, 1000, 500, Window::QuarterHour);
    assert_eq!(ids.len(), 15);
    assert_eq!(ids[0], 1);
    assert_eq!(ids[14], 1000);
}

#[test]
fn search_window_starts_a_minute_early() {
    let now = 10_000_000_000i64;
    assert_eq!(search_start(now, now, Window::Hour), Some(now - 61 * 60_000));
    assert_eq!(search_start(now, now - 62 * 60_000, Window::Hour), None);
}

#[test]
fn tween_ids_over_fewer_ids_than_samples_keep_each_once() {
    assert_eq!(tween_ids(1, 3, 5), vec![1, 2, 3]);
    assert_eq!(tween_ids(4, 4, 3), vec![4]);
}
