//! What holds of media time.

use vstd::prelude::*;

use crate::clock::{later, mseconds, or_zero, span, sum, sum_fits, ClockTime};

verus! {

/// Times add up as numbers of nanoseconds do, as far as the clock reaches, and
/// a span added to where it starts gives where it ends.
pub proof fn law_times_add_up(a: ClockTime, b: ClockTime)
    ensures
        sum_fits(a, b) <==> a.0 + b.0 <= u64::MAX,
        a.0 + b.0 <= u64::MAX ==> sum(a, b).0 == a.0 + b.0,
        a.0 <= b.0 ==> a.0 + span(a, b).0 == b.0,
        a.0 <= b.0 ==> sum(a, span(a, b)) == b,
{
}

/// The later of two times is one of them, and neither is later than it.
pub proof fn law_later_time(a: ClockTime, b: ClockTime)
    ensures
        a.0 <= later(a, b).0,
        b.0 <= later(a, b).0,
        later(a, b) == a || later(a, b) == b,
{
}

/// A millisecond has a million nanoseconds, and a missing duration counts as
/// none.
pub proof fn law_lengths(ms: u32, duration: ClockTime)
    ensures
        mseconds(ms).0 == ms * 1_000_000,
        or_zero(Some(duration)) == duration,
        or_zero(None).0 == 0,
{
}

} // verus!
