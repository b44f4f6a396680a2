//! Media time.

use vstd::prelude::*;

verus! {

/// A point in media time or a span of it, in nanoseconds.
#[derive(Debug, Clone, Copy, PartialEq, Eq, Structural)]
pub struct ClockTime(pub u64);

/// Nanoseconds in a millisecond.
pub const MSECOND: u64 = 1_000_000;

/// Whether the sum of the two times can be held.
pub open spec fn sum_fits(a: ClockTime, b: ClockTime) -> bool {
    a.0 + b.0 <= u64::MAX
}

/// The sum of two times.
pub open spec fn sum(a: ClockTime, b: ClockTime) -> ClockTime {
    ClockTime((a.0 + b.0) as u64)
}

/// The span from `b` to `a`.
pub open spec fn span(b: ClockTime, a: ClockTime) -> ClockTime {
    ClockTime((a.0 - b.0) as u64)
}

/// The later of two times.
pub open spec fn later(a: ClockTime, b: ClockTime) -> ClockTime {
    if a.0 >= b.0 {
        a
    } else {
        b
    }
}

/// `ms` milliseconds.
pub open spec fn mseconds(ms: u32) -> ClockTime {
    ClockTime((ms * MSECOND) as u64)
}

/// A duration, or none at all as zero.
pub open spec fn or_zero(duration: Option<ClockTime>) -> ClockTime {
    match duration {
        Some(d) => d,
        None => ClockTime(0),
    }
}

impl ClockTime {
    /// `ms` milliseconds.
    pub fn from_mseconds(ms: u32) -> (r: ClockTime)
        ensures
            r == mseconds(ms),
            r.0 == ms * MSECOND,
            r.0 == ms * 1_000_000,
    {
        ClockTime(ms as u64 * MSECOND)
    }

    /// The sum of two times, unless it is out of range.
    pub fn checked_add(self, rhs: ClockTime) -> (r: Option<ClockTime>)
        ensures
            sum_fits(self, rhs) ==> r == Some(sum(self, rhs)),
            !sum_fits(self, rhs) ==> r is None,
            r is Some <==> self.0 + rhs.0 <= u64::MAX,
            r matches Some(t) ==> t.0 == self.0 + rhs.0,
    {
        match self.0.checked_add(rhs.0) {
            Some(n) => Some(ClockTime(n)),
            None => None,
        }
    }

    /// The sum of two times.
    pub fn plus(self, rhs: ClockTime) -> (r: ClockTime)
        requires
            sum_fits(self, rhs),
        ensures
            r == sum(self, rhs),
            r.0 == self.0 + rhs.0,
    {
        ClockTime(self.0 + rhs.0)
    }

    /// The span from an earlier time to this one.
    pub fn since(self, earlier: ClockTime) -> (r: ClockTime)
        requires
            earlier.0 <= self.0,
        ensures
            r == span(earlier, self),
            earlier.0 + r.0 == self.0,
    {
        ClockTime(self.0 - earlier.0)
    }

    /// The later of two times.
    pub fn max(self, rhs: ClockTime) -> (r: ClockTime)
        ensures
            r == later(self, rhs),
            r.0 >= self.0,
            r.0 >= rhs.0,
            r == self || r == rhs,
    {
        if self.0 >= rhs.0 {
            self
        } else {
            rhs
        }
    }
}

} // verus!
