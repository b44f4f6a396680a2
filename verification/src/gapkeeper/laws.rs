//! What holds of the keepalive filter over any run of observations and ticks.

use vstd::prelude::*;

use super::element::{
    anchor, observed, property_of, stalled, ticked, ticks, tick_fits, with_property, Property,
    Settings, State,
};
use crate::clock::{mseconds, sum, sum_fits, ClockTime, MSECOND};

verus! {

/// A buffer or gap on the sink pad: from when, for how long, seen when.
pub ghost struct Observation {
    pub pts: ClockTime,
    pub duration: ClockTime,
    pub now: u128,
}

/// The state after the observations were made one by one.
pub open spec fn observe_all(s: State, seen: Seq<Observation>) -> State
    decreases seen.len(),
{
    if seen.len() == 0 {
        s
    } else {
        let last = seen.last();
        observed(observe_all(s, seen.drop_last()), last.pts, last.duration, last.now)
    }
}

/// The frontier is the furthest end of all that was observed: every end is
/// covered, and one of them is reached.
pub proof fn law_frontier_is_the_furthest_end(s: State, seen: Seq<Observation>)
    requires
        s.frontier is None,
        seen.len() > 0,
    ensures
        observe_all(s, seen).frontier matches Some(frontier) && {
            &&& forall|i: int|
                0 <= i < seen.len() ==> sum((#[trigger] seen[i]).pts, seen[i].duration).0
                    <= frontier.0
            &&& exists|i: int|
                0 <= i < seen.len() && sum((#[trigger] seen[i]).pts, seen[i].duration) == frontier
        },
    decreases seen.len(),
{
    let front = seen.drop_last();
    let last = seen.last();
    assert(last == seen[seen.len() - 1]);
    if front.len() > 0 {
        law_frontier_is_the_furthest_end(s, front);
        let before = observe_all(s, front).frontier->0;
        let k = choose|i: int|
            0 <= i < front.len() && sum((#[trigger] front[i]).pts, front[i].duration) == before;
        assert(front[k] == seen[k]);
        let frontier = observe_all(s, seen).frontier->0;
        assert forall|i: int| 0 <= i < seen.len() implies sum(
            (#[trigger] seen[i]).pts,
            seen[i].duration,
        ).0 <= frontier.0 by {
            if i < front.len() {
                assert(front[i] == seen[i]);
            }
        }
    }
}

/// Neither an observation nor a tick ever moves the frontier back.
pub proof fn law_frontier_never_moves_back(
    s: State,
    settings: Settings,
    pts: ClockTime,
    duration: ClockTime,
    playing: bool,
    now: u128,
)
    requires
        tick_fits(s, settings, playing, now),
    ensures
        s.frontier matches Some(before) ==> {
            &&& observed(s, pts, duration, now).frontier matches Some(after)
            &&& before.0 <= after.0
        },
        s.frontier matches Some(before) ==> {
            &&& ticked(s, settings, playing, now).0.frontier matches Some(after)
            &&& before.0 <= after.0
        },
{
}

/// A keepalive gap stands at the frontier that holds once the tick is over, or
/// at the start of the segment while nothing was observed.
pub proof fn law_gap_stands_at_the_frontier(
    s: State,
    settings: Settings,
    playing: bool,
    now: u128,
)
    ensures
        ticked(s, settings, playing, now).1 matches Some(at) ==> anchor(
            ticked(s, settings, playing, now).0,
        ) == Some(at),
{
}

/// While upstream is alive, or without a stall time, a tick changes nothing: it
/// repeats the gap at the frontier.
pub proof fn law_tick_without_stall_changes_nothing(
    s: State,
    settings: Settings,
    playing: bool,
    now: u128,
)
    requires
        !stalled(s, settings, now),
    ensures
        ticked(s, settings, playing, now).0 == s,
        ticks(s, settings, playing) ==> ticked(s, settings, playing, now).1 == anchor(s),
{
}

/// Without a keepalive interval, or when not playing, nothing is emitted.
pub proof fn law_off_is_silent(s: State, settings: Settings, playing: bool, now: u128)
    requires
        settings.keepalive_ms == 0 || !playing,
    ensures
        ticked(s, settings, playing, now) == (s, None::<ClockTime>),
{
}

/// An observation ends a stall: the stall time runs anew from it.
pub proof fn law_observation_ends_a_stall(
    s: State,
    settings: Settings,
    pts: ClockTime,
    duration: ClockTime,
    now: u128,
    later: u128,
)
    requires
        later - now < settings.stall_ms * MSECOND,
    ensures
        !stalled(observed(s, pts, duration, now), settings, later),
{
}

/// An upstream that dies right after its segment cannot pin the frontier
/// either: once the stall time has passed since the segment, a tick moves on
/// from the start of the segment by one interval.
pub proof fn law_silence_counts_from_the_segment(
    settings: Settings,
    start: ClockTime,
    arrived: u128,
    now: u128,
)
    requires
        settings.keepalive_ms > 0,
        settings.stall_ms > 0,
        now - arrived >= settings.stall_ms * MSECOND,
        sum_fits(start, mseconds(settings.keepalive_ms)),
    ensures
        ({
            let s = State {
                frontier: None,
                segment_start: Some(start),
                last_upstream_at: Some(arrived),
            };
            let moved = sum(start, mseconds(settings.keepalive_ms));
            &&& ticked(s, settings, true, now).1 == Some(moved)
            &&& ticked(s, settings, true, now).0 == (State { frontier: Some(moved), ..s })
        }),
{
}

/// The state after ticks at the given readings of the wall clock, while
/// playing.
pub open spec fn tick_all(s: State, settings: Settings, at: Seq<u128>) -> State
    decreases at.len(),
{
    if at.len() == 0 {
        s
    } else {
        ticked(tick_all(s, settings, at.drop_last()), settings, true, at.last()).0
    }
}

/// A dead upstream cannot pin the frontier: every tick during a stall moves it
/// on by one interval.
pub proof fn law_stalled_ticks_advance_the_frontier(
    s: State,
    settings: Settings,
    at: Seq<u128>,
)
    requires
        settings.keepalive_ms > 0,
        anchor(s) is Some,
        forall|i: int| 0 <= i < at.len() ==> stalled(s, settings, #[trigger] at[i]),
        (anchor(s)->0).0 + at.len() * mseconds(settings.keepalive_ms).0 <= u64::MAX,
    ensures
        anchor(tick_all(s, settings, at)) == Some(
            ClockTime(
                ((anchor(s)->0).0 + at.len() * mseconds(settings.keepalive_ms).0) as u64,
            ),
        ),
        tick_all(s, settings, at).last_upstream_at == s.last_upstream_at,
        tick_all(s, settings, at).segment_start == s.segment_start,
    decreases at.len(),
{
    let step = mseconds(settings.keepalive_ms).0;
    if at.len() > 0 {
        let front = at.drop_last();
        assert(at.len() * step == front.len() * step + step) by (nonlinear_arith)
            requires
                at.len() == front.len() + 1,
        ;
        assert forall|i: int| 0 <= i < front.len() implies stalled(
            s,
            settings,
            #[trigger] front[i],
        ) by {
            assert(front[i] == at[i]);
        }
        law_stalled_ticks_advance_the_frontier(s, settings, front);
        assert(stalled(s, settings, at[at.len() - 1]));
    } else {
        assert(at.len() * step == 0);
    }
}

/// A property reads back as it was set, and setting it leaves the other as it
/// was.
pub proof fn law_properties_are_independent(
    settings: Settings,
    property: Property,
    value: u32,
    other: Property,
)
    ensures
        property_of(with_property(settings, property, value), property) == value,
        other != property ==> property_of(with_property(settings, property, value), other)
            == property_of(settings, other),
{
}

} // verus!
