use grafbabe::serve::{
    event_action, listener_token, now_ms, signed_millis, LoopAction, TOKEN_PULL_METRICS,
};

#[test]
fn events_are_dispatched_by_token() {
    assert_eq!(event_action(true, TOKEN_PULL_METRICS, 2, true), LoopAction::PullMetrics);
    assert_eq!(event_action(true, TOKEN_PULL_METRICS, 2, false), LoopAction::Ignore);
    assert_eq!(event_action(true, listener_token(0), 2, true), LoopAction::Accept(0));
    assert_eq!(event_action(true, listener_token(1), 2, false), LoopAction::Accept(1));
    assert_eq!(event_action(true, 3, 2, true), LoopAction::Ignore);
    assert_eq!(event_action(false, 1, 2, true), LoopAction::Ignore);
}

#[test]
fn clock_readings() {
    assert_eq!(signed_millis(Ok(1234)), 1234);
    assert_eq!(signed_millis(Err(1234)), -1234);
    assert_eq!(signed_millis(Err(1u128 << 63)), i64::MIN);
    assert!(now_ms() > 1_600_000_000_000);
}
