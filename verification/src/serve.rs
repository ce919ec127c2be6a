//! The decisions of the server's event loop, and the clock it stamps
//! events with.
use vstd::prelude::*;

verus! {

/// The token of the background poll's wake-ups.
pub const TOKEN_PULL_METRICS: usize = 0;

/// The token of the first listener; the others follow in order.
pub const TOKEN_START_HTTP: usize = 1;

/// The token that listener `i` is registered with.
pub fn listener_token(i: usize) -> (res: usize)
    requires
        i < usize::MAX,
    ensures
        res == i + TOKEN_START_HTTP,
{
    i + TOKEN_START_HTTP
}

/// What the event loop does for an event.
#[derive(Clone, Copy, Debug, PartialEq, Eq, Structural)]
pub enum LoopAction {
    /// Pull the Prometheus endpoint's metrics and store them.
    PullMetrics,
    /// Accept the connections waiting on listener `i`.
    Accept(usize),
    /// Nothing.
    Ignore,
}

/// What the event loop does for an event with `token`, given how many
/// listeners there are and whether the background poll is running: only
/// readable events count; the poll's token pulls the metrics; a listener's
/// token accepts its connections.
pub open spec fn event_action_spec(readable: bool, token: usize, listeners: usize, polls: bool) -> LoopAction {
    if !readable {
        LoopAction::Ignore
    } else if polls && token == TOKEN_PULL_METRICS {
        LoopAction::PullMetrics
    } else if TOKEN_START_HTTP <= token && token - TOKEN_START_HTTP < listeners {
        LoopAction::Accept((token - TOKEN_START_HTTP) as usize)
    } else {
        LoopAction::Ignore
    }
}

/// What the event loop does for an event.
pub fn event_action(readable: bool, token: usize, listeners: usize, polls: bool) -> (res: LoopAction)
    ensures
        res == event_action_spec(readable, token, listeners, polls),
{
    if !readable {
        LoopAction::Ignore
    } else if polls && token == TOKEN_PULL_METRICS {
        LoopAction::PullMetrics
    } else if TOKEN_START_HTTP <= token && token - TOKEN_START_HTTP < listeners {
        LoopAction::Accept(token - TOKEN_START_HTTP)
    } else {
        LoopAction::Ignore
    }
}

/// A readable event on the token that listener `i` is registered with
/// accepts that listener's connections, whether or not the background poll
/// runs; the poll's own token pulls the metrics where it runs.
pub proof fn lemma_tokens_dispatch(i: usize, listeners: usize)
    requires
        i < listeners,
    ensures
        event_action_spec(true, (i + TOKEN_START_HTTP) as usize, listeners, true) == LoopAction::Accept(i),
        event_action_spec(true, (i + TOKEN_START_HTTP) as usize, listeners, false) == LoopAction::Accept(i),
        event_action_spec(true, TOKEN_PULL_METRICS, listeners, true) == LoopAction::PullMetrics,
{
}

/// The time since 1970 as the clock reads it: `Ok` with the milliseconds
/// since, or `Err` with the milliseconds until, where the clock is set
/// before 1970.
#[verifier::external_body]
fn clock_millis() -> (res: Result<u128, u128>) {
    match std::time::SystemTime::now().duration_since(std::time::SystemTime::UNIX_EPOCH) {
        Ok(d) => Ok(d.as_millis()),
        Err(e) => Err(e.duration().as_millis()),
    }
}

/// Milliseconds since 1970 as a signed number: cut to 64 bits, and negated
/// for a time before 1970 (the negation wraps for the one number that has
/// no negative).
pub open spec fn signed_millis_spec(since: Result<u128, u128>) -> i64 {
    match since {
        Ok(ms) => ms as i64,
        Err(ms) => if ms as i64 == i64::MIN {
            i64::MIN
        } else {
            (-(ms as i64)) as i64
        },
    }
}

/// Milliseconds since 1970 as a signed number.
pub fn signed_millis(since: Result<u128, u128>) -> (res: i64)
    ensures
        res == signed_millis_spec(since),
{
    match since {
        Ok(ms) => {
            #[verifier::truncate]
            let v = ms as i64;
            v
        },
        Err(ms) => {
            #[verifier::truncate]
            let v = ms as i64;
            if v == i64::MIN {
                i64::MIN
            } else {
                -v
            }
        },
    }
}

/// The time now, in milliseconds since 1970, as `signed_millis` makes it of
/// the clock's reading; the reading itself is whatever the clock says.
pub fn now_ms() -> i64 {
    let since = clock_millis();
    signed_millis(since)
}

} // verus!
