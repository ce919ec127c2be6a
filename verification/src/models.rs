//! The metrics handed to the dashboard, and the time windows it asks for.
use vstd::prelude::*;

verus! {

/// The values of one metric (with one set of labels) over a run of events.
#[derive(Debug)]
pub struct Series {
    pub name: String,
    pub label: Option<String>,
    /// One value per event; `None` where the metric has no value then.
    pub values: Vec<Option<i64>>,
}

impl Series {
    /// A series with no values yet.
    pub fn new(name: String, label: Option<String>, capacity: usize) -> (res: Series)
        ensures
            res.name == name,
            res.label == label,
            res.values@ == Seq::<Option<i64>>::empty(),
    {
        Series { name, label, values: Vec::with_capacity(capacity) }
    }

    /// Appends a value at the end of the series.
    pub fn push(&mut self, value: Option<i64>)
        ensures
            final(self).name == old(self).name,
            final(self).label == old(self).label,
            final(self).values@ == old(self).values@.push(value),
    {
        self.values.push(value)
    }
}

/// The timestamps of a run of events and the series measured at them.
#[derive(Debug)]
pub struct Metrics {
    pub timestamps: Vec<i64>,
    pub series: Vec<Series>,
}

impl Metrics {
    /// No events and no series.
    pub fn empty() -> (res: Metrics)
        ensures
            res.timestamps@ == Seq::<i64>::empty(),
            res.series@ == Seq::<Series>::empty(),
    {
        Metrics { timestamps: Vec::new(), series: Vec::new() }
    }
}

/// The time between two polls of the Prometheus endpoint, in minutes.
pub const EVENT_DURATION_MINS: usize = 1;

pub const TOTAL_SAMPLES_15M: usize = 15 / EVENT_DURATION_MINS;

pub const TOTAL_SAMPLES_30M: usize = 30 / EVENT_DURATION_MINS;

pub const TOTAL_SAMPLES_1H: usize = 60 / EVENT_DURATION_MINS;

pub const TOTAL_SAMPLES_4H: usize = TOTAL_SAMPLES_1H * 4;

pub const TOTAL_SAMPLES_12H: usize = TOTAL_SAMPLES_1H * 12;

pub const TOTAL_SAMPLES_DAY: usize = TOTAL_SAMPLES_1H * 24;

pub const TOTAL_SAMPLES_WEEK: usize = TOTAL_SAMPLES_DAY * 7;

pub const TOTAL_SAMPLES_MONTH: usize = TOTAL_SAMPLES_DAY * 30;

/// A span of time that ends now.
#[derive(Clone, Copy, Debug, PartialEq, Eq, Structural)]
pub enum Window {
    QuarterHour,
    HalfHour,
    Hour,
    Hour4,
    Hour12,
    Day,
    Week,
    Month,
}

/// The length of a window in minutes.
pub open spec fn window_minutes(w: Window) -> nat {
    match w {
        Window::QuarterHour => 15,
        Window::HalfHour => 30,
        Window::Hour => 60,
        Window::Hour4 => 4 * 60,
        Window::Hour12 => 12 * 60,
        Window::Day => 24 * 60,
        Window::Week => 7 * 24 * 60,
        Window::Month => 30 * 24 * 60,
    }
}

impl Window {
    /// The number of events that a window holds: one per poll.
    pub fn total_samples(self) -> (res: usize)
        ensures
            res == window_minutes(self) / (EVENT_DURATION_MINS as nat),
    {
        match self {
            Window::QuarterHour => TOTAL_SAMPLES_15M,
            Window::HalfHour => TOTAL_SAMPLES_30M,
            Window::Hour => TOTAL_SAMPLES_1H,
            Window::Hour4 => TOTAL_SAMPLES_4H,
            Window::Hour12 => TOTAL_SAMPLES_12H,
            Window::Day => TOTAL_SAMPLES_DAY,
            Window::Week => TOTAL_SAMPLES_WEEK,
            Window::Month => TOTAL_SAMPLES_MONTH,
        }
    }

    /// The length of a window in milliseconds.
    pub fn as_ms(self) -> (res: i64)
        ensures
            res == window_minutes(self) * 60_000,
    {
        match self {
            Window::QuarterHour => 15 * 60_000,
            Window::HalfHour => 30 * 60_000,
            Window::Hour => 60 * 60_000,
            Window::Hour4 => 4 * 60 * 60_000,
            Window::Hour12 => 12 * 60 * 60_000,
            Window::Day => 24 * 60 * 60_000,
            Window::Week => 7 * 24 * 60 * 60_000,
            Window::Month => 30 * 24 * 60 * 60_000,
        }
    }
}

} // verus!
