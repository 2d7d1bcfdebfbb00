//! Points and spans of time, and the clock pulse that keeps a session alive.
use vstd::prelude::*;

verus! {

/// A span of time.
#[derive(Clone, Copy, Debug, PartialEq, Eq, PartialOrd, Ord, Structural)]
pub struct Duration {
    /// Its length in nanoseconds.
    pub nanos: u64,
}

impl Duration {
    /// Whether the span is longer than `other`.
    pub fn exceeds(self, other: Duration) -> (longer: bool)
        ensures
            longer == (self.nanos > other.nanos),
    {
        self.nanos > other.nanos
    }
}

/// A point in time.
#[derive(Clone, Copy, Debug, PartialEq, Eq, PartialOrd, Ord, Structural)]
pub struct Instant {
    /// Nanoseconds since a point that all instants of one session share.
    pub nanos: u64,
}

impl Instant {
    /// How long after `earlier` this point lies.
    pub open spec fn since(self, earlier: Instant) -> int {
        if self.nanos >= earlier.nanos {
            self.nanos - earlier.nanos
        } else {
            0
        }
    }

    /// The span from `earlier` to this point.
    pub fn duration_since(&self, earlier: Instant) -> (span: Duration)
        requires
            earlier.nanos <= self.nanos,
        ensures
            span.nanos == self.since(earlier),
            span.nanos + earlier.nanos == self.nanos,
    {
        Duration { nanos: self.nanos - earlier.nanos }
    }

    /// The span from this point to `now`, none if `now` comes first.
    pub fn elapsed(&self, now: Instant) -> (span: Duration)
        ensures
            span.nanos == now.since(*self),
    {
        if self.nanos <= now.nanos {
            now.duration_since(*self)
        } else {
            Duration { nanos: 0 }
        }
    }
}

/// What a timer reports when it is polled.
#[derive(Clone, Copy, Debug, PartialEq, Eq, Structural)]
pub enum Timer {
    /// The span that the timer was set to is over.
    Fired,
    /// It is not over yet.
    Running,
}

/// What an interval makes of its timer.
#[derive(Clone, Copy, Debug, PartialEq, Eq, Structural)]
pub enum Pulse {
    /// A period is over. The timer is to be set to the span given.
    Beat(Duration),
    /// The period is still running.
    Waiting,
}

/// Beats once in every period, for ever.
#[derive(Clone, Copy, Debug, PartialEq, Eq, Structural)]
pub struct Interval {
    period: Duration,
}

impl Interval {
    /// The span between two beats.
    pub closed spec fn spec_period(self) -> Duration {
        self.period
    }

    /// The interval that beats once in every `period`.
    pub closed spec fn every(period: Duration) -> Interval {
        Interval { period }
    }

    fn new(period: Duration) -> (interval: Interval)
        ensures
            interval == Interval::every(period),
            interval.spec_period() == period,
    {
        Interval { period }
    }

    /// The span between two beats, which the timer is first set to.
    pub fn period(&self) -> (period: Duration)
        ensures
            period == self.spec_period(),
    {
        self.period
    }

    /// A timer that has fired makes the interval beat, and is set to one period again.
    pub fn poll_next(&self, timer: Timer) -> (pulse: Pulse)
        ensures
            pulse == match timer {
                Timer::Fired => Pulse::Beat(self.spec_period()),
                Timer::Running => Pulse::Waiting,
            },
    {
        match timer {
            Timer::Fired => Pulse::Beat(self.period),
            Timer::Running => Pulse::Waiting,
        }
    }
}

/// The interval that beats once in every period has that period.
pub proof fn an_interval_keeps_its_period(period: Duration)
    ensures
        Interval::every(period).spec_period() == period,
{
}

/// The span between two points is the difference of their nanoseconds, and none where the second
/// does not lie behind the first.
pub proof fn spans_are_differences(earlier: Instant, later: Instant)
    ensures
        later.nanos >= earlier.nanos ==> earlier.nanos + later.since(earlier) == later.nanos,
        later.nanos <= earlier.nanos ==> later.since(earlier) == 0,
{
}

/// The interval that beats once in every `period`, which must not be empty.
pub fn interval(period: Duration) -> (interval: Interval)
    requires
        period.nanos > 0,
    ensures
        interval == Interval::every(period),
        interval.spec_period() == period,
{
    Interval::new(period)
}

} // verus!
