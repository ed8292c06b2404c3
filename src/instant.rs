//! Points on the timeline and spans between them, with no calendar attached.

use vstd::prelude::*;

verus! {

/// An exact point on the timeline: seconds since **midnight, 1st January,
/// 1970**, and the milliseconds into that second.
#[derive(Clone, Copy, Debug, PartialEq, Eq, Structural, PartialOrd, Ord, Hash)]
pub struct Instant {
    seconds: i64,
    milliseconds: i16,
}

/// A signed span of whole seconds.
#[derive(Clone, Copy, Debug, PartialEq, Eq, Structural, PartialOrd, Ord, Hash)]
pub struct Duration {
    seconds: i64,
}

impl Instant {
    /// The seconds and milliseconds of this instant.
    pub closed spec fn view(&self) -> (int, int) {
        (self.seconds as int, self.milliseconds as int)
    }

    /// The instant `seconds` after the start of 1970, on a whole second.
    pub fn at(seconds: i64) -> (r: Instant)
        ensures
            r@ == (seconds as int, 0int),
    {
        Instant { seconds: seconds, milliseconds: 0 }
    }

    /// The instant `seconds` and `milliseconds` after the start of 1970.
    pub fn at_ms(seconds: i64, milliseconds: i16) -> (r: Instant)
        ensures
            r@ == (seconds as int, milliseconds as int),
    {
        Instant { seconds: seconds, milliseconds: milliseconds }
    }

    /// The whole seconds since the start of 1970.
    pub fn seconds(&self) -> (r: i64)
        ensures
            r == self@.0,
    {
        self.seconds
    }

    /// The milliseconds into the second.
    pub fn milliseconds(&self) -> (r: i16)
        ensures
            r == self@.1,
    {
        self.milliseconds
    }

    /// The instant that lies `duration` later.
    pub fn plus(&self, duration: Duration) -> (r: Instant)
        requires
            i64::MIN <= self@.0 + duration@ <= i64::MAX,
        ensures
            r@ == (self@.0 + duration@, self@.1),
    {
        Instant { seconds: self.seconds + duration.seconds, milliseconds: self.milliseconds }
    }

    /// The instant that lies `duration` earlier.
    pub fn minus(&self, duration: Duration) -> (r: Instant)
        requires
            i64::MIN <= self@.0 - duration@ <= i64::MAX,
        ensures
            r@ == (self@.0 - duration@, self@.1),
    {
        Instant { seconds: self.seconds - duration.seconds, milliseconds: self.milliseconds }
    }
}

impl Duration {
    /// The number of seconds in this span.
    pub closed spec fn view(&self) -> int {
        self.seconds as int
    }

    /// A span of `seconds` seconds.
    pub fn of(seconds: i64) -> (r: Duration)
        ensures
            r@ == seconds,
    {
        Duration { seconds: seconds }
    }

    /// The number of seconds in this span.
    pub fn seconds(&self) -> (r: i64)
        ensures
            r == self@,
    {
        self.seconds
    }
}

} // verus!
