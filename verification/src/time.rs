//! Durations and points in time, counted in whole nanoseconds.
//!
//! A point in time is measured from an origin that its owner picked, so that two of
//! them can be compared and a duration can be added to one.

use vstd::prelude::*;

verus! {

/// The number of nanoseconds in a second.
pub const NANOS_PER_SEC: u128 = 1_000_000_000;

/// The number of nanoseconds in a millisecond.
pub const NANOS_PER_MILLI: u128 = 1_000_000;

/// The number of nanoseconds in the longest duration that a clock can report.
pub const MAX_ELAPSED: u128 = 18_446_744_073_709_551_615_999_999_999;

/// A span of time.
#[derive(Clone, Copy, Debug, PartialEq, Eq, Structural)]
pub struct Duration {
    /// The whole seconds of the span.
    pub secs: u64,
    /// What is left beyond the whole seconds, in nanoseconds.
    pub nanos: u32,
}

impl Duration {
    /// The length of the span in nanoseconds.
    pub open spec fn view(&self) -> nat {
        (self.secs * NANOS_PER_SEC + self.nanos) as nat
    }

    /// The span of no length.
    pub fn zero() -> (r: Duration)
        ensures
            r@ == 0,
    {
        Duration { secs: 0, nanos: 0 }
    }

    /// A span of `secs` seconds.
    pub fn from_secs(secs: u64) -> (r: Duration)
        ensures
            r == (Duration { secs: secs, nanos: 0 }),
    {
        Duration { secs, nanos: 0 }
    }

    /// A span of `millis` milliseconds.
    pub fn from_millis(millis: u64) -> (r: Duration)
        ensures
            r@ == millis * NANOS_PER_MILLI,
            r.nanos < NANOS_PER_SEC,
    {
        let rest: u32 = (millis % 1000) as u32;
        Duration { secs: millis / 1000, nanos: rest * 1_000_000 }
    }

    /// The whole seconds of the span.
    pub fn as_secs(&self) -> (r: u64)
        ensures
            r == self.secs,
    {
        self.secs
    }

    /// The length of the span in nanoseconds.
    pub fn as_nanos(&self) -> (r: u128)
        ensures
            r == self@,
    {
        self.secs as u128 * NANOS_PER_SEC + self.nanos as u128
    }
}

/// A point in time, as nanoseconds since some origin.
#[derive(Clone, Copy, Debug, PartialEq, Eq, Structural)]
pub struct Moment {
    /// The nanoseconds that lie between the origin and this point.
    pub nanos: u128,
}

impl Moment {
    /// Whether `span` can be added to this point.
    pub open spec fn can_add(self, span: Duration) -> bool {
        self.nanos + span@ <= u128::MAX
    }

    /// The point that lies `span` after this one.
    pub open spec fn spec_add(self, span: Duration) -> Moment {
        Moment { nanos: (self.nanos + span@) as u128 }
    }

    /// The point that lies `span` after this one.
    pub fn plus(self, span: Duration) -> (r: Moment)
        requires
            self.can_add(span),
        ensures
            r == self.spec_add(span),
    {
        Moment { nanos: self.nanos + span.as_nanos() }
    }

    /// Whether this point is not before `other`.
    pub fn reached(&self, other: &Moment) -> (r: bool)
        ensures
            r == (self.nanos >= other.nanos),
    {
        self.nanos >= other.nanos
    }
}

/// The earlier of two optional points, where a missing point is after every other.
pub open spec fn spec_option_min(a: Option<Moment>, b: Option<Moment>) -> Option<Moment> {
    match (a, b) {
        (Some(x), Some(y)) => Some(
            if x.nanos <= y.nanos {
                x
            } else {
                y
            },
        ),
        (Some(x), None) => Some(x),
        (None, other) => other,
    }
}

/// The earlier of two optional points, where a missing point is after every other.
pub fn option_min(a: Option<Moment>, b: Option<Moment>) -> (r: Option<Moment>)
    ensures
        r == spec_option_min(a, b),
{
    match (a, b) {
        (Some(x), Some(y)) => if x.nanos <= y.nanos {
            Some(x)
        } else {
            Some(y)
        },
        (Some(x), None) => Some(x),
        (None, other) => other,
    }
}

/// The later of two optional points, where a missing point is before every other.
pub open spec fn spec_option_max(a: Option<Moment>, b: Option<Moment>) -> Option<Moment> {
    match (a, b) {
        (Some(x), Some(y)) => Some(
            if x.nanos <= y.nanos {
                y
            } else {
                x
            },
        ),
        (Some(x), None) => Some(x),
        (None, other) => other,
    }
}

/// The later of two optional points, where a missing point is before every other.
pub fn option_max(a: Option<Moment>, b: Option<Moment>) -> (r: Option<Moment>)
    ensures
        r == spec_option_max(a, b),
{
    match (a, b) {
        (Some(x), Some(y)) => if x.nanos <= y.nanos {
            Some(y)
        } else {
            Some(x)
        },
        (Some(x), None) => Some(x),
        (None, other) => other,
    }
}

} // verus!
