//! What each observation, tick, event and property does, told by what goes in
//! and what comes out.

use vstd::prelude::*;

use super::element::{
    default_settings, observed, property_named, property_of, ticked, tick_fits, unobserved,
    with_property, worker_for, Property, Settings, State, Worker,
};
use super::laws::{observe_all, tick_all, Observation};
use crate::clock::ClockTime;

verus! {

/// An observation extends the frontier to its end, if that is further, and
/// starts the count of upstream's silence anew, whatever was observed before.
pub proof fn law_observation(s: State, pts: ClockTime, duration: ClockTime, now: u128)
    requires
        pts.0 + duration.0 <= u64::MAX,
    ensures
        ({
            let after = observed(s, pts, duration, now);
            &&& after.frontier matches Some(frontier)
            &&& frontier.0 >= pts.0 + duration.0
            &&& s.frontier matches Some(f) ==> frontier.0 >= f.0
            &&& frontier.0 == pts.0 + duration.0 || s.frontier == Some(frontier)
            &&& after.last_upstream_at == Some(now)
            &&& after.segment_start == s.segment_start
        }),
{
}

/// A tick while playing, with an interval set, gives a gap as soon as there is
/// a frontier or the start of a segment to put it at. Once upstream has been
/// silent for the stall time, the gap stands one interval further on, and so
/// does the frontier from then on; otherwise it stands at that place, and
/// nothing changes.
pub proof fn law_tick(s: State, settings: Settings, playing: bool, now: u128)
    ensures
        ({
            let (after, at) = ticked(s, settings, playing, now);
            let place = if s.frontier is Some {
                s.frontier
            } else {
                s.segment_start
            };
            let gap = settings.keepalive_ms > 0 && playing && place is Some;
            let stall = settings.stall_ms > 0 && (s.last_upstream_at matches Some(last) && last
                + settings.stall_ms * 1_000_000 <= now);
            &&& gap <==> at is Some
            &&& gap && !stall ==> at == place
            &&& gap && stall && (place->0).0 + settings.keepalive_ms * 1_000_000 <= u64::MAX ==> (
            at->0).0 == (place->0).0 + settings.keepalive_ms * 1_000_000
            &&& gap && stall ==> after.frontier == at
            &&& !(gap && stall) ==> after == s
            &&& after.segment_start == s.segment_start
            &&& after.last_upstream_at == s.last_upstream_at
        }),
{
}

/// After any observation, whatever was observed before, an upstream that stays
/// silent for the stall time does not pin the frontier: a tick from then on
/// gives a gap one interval beyond it, and until then a tick gives a gap right
/// at it.
pub proof fn law_silence_after_an_observation(
    s: State,
    settings: Settings,
    pts: ClockTime,
    duration: ClockTime,
    now: u128,
    at: u128,
)
    requires
        settings.keepalive_ms > 0,
        settings.stall_ms > 0,
        pts.0 + duration.0 + settings.keepalive_ms * 1_000_000 <= u64::MAX,
        s.frontier matches Some(f) ==> f.0 + settings.keepalive_ms * 1_000_000 <= u64::MAX,
    ensures
        ({
            let seen = observed(s, pts, duration, now);
            let frontier = (seen.frontier->0).0;
            let (after, gap) = ticked(seen, settings, true, at);
            &&& frontier >= pts.0 + duration.0
            &&& at - now >= settings.stall_ms * 1_000_000 ==> {
                &&& gap matches Some(place)
                &&& place.0 == frontier + settings.keepalive_ms * 1_000_000
                &&& after.frontier == Some(place)
            }
            &&& at - now < settings.stall_ms * 1_000_000 ==> {
                &&& gap == seen.frontier
                &&& after == seen
            }
        }),
{
    law_observation(s, pts, duration, now);
}

/// Every tick of a silence that has lasted for the stall time since the last
/// observation moves the frontier on by one more interval.
pub proof fn law_every_tick_of_a_stall_moves_on(
    s: State,
    settings: Settings,
    seen: Seq<Observation>,
    at: Seq<u128>,
)
    requires
        settings.keepalive_ms > 0,
        settings.stall_ms > 0,
        seen.len() > 0,
        forall|i: int|
            0 <= i < at.len() ==> #[trigger] at[i] - seen.last().now >= settings.stall_ms
                * 1_000_000,
        observe_all(s, seen).frontier matches Some(f) ==> f.0 + at.len() * (settings.keepalive_ms
            * 1_000_000) <= u64::MAX,
    ensures
        observe_all(s, seen).frontier matches Some(f) && (tick_all(
            observe_all(s, seen),
            settings,
            at,
        ).frontier matches Some(moved) && moved.0 == f.0 + at.len() * (settings.keepalive_ms
            * 1_000_000)),
        tick_all(observe_all(s, seen), settings, at).last_upstream_at == Some(seen.last().now),
    decreases at.len(),
{
    let last = seen.last();
    let start = observe_all(s, seen);
    let step = settings.keepalive_ms * 1_000_000;
    let f = (start.frontier->0).0;
    assert(start == observed(
        observe_all(s, seen.drop_last()),
        last.pts,
        last.duration,
        last.now,
    ));
    if at.len() == 0 {
        assert(at.len() * step == 0);
    } else {
        let front = at.drop_last();
        assert(at.len() * step == front.len() * step + step) by (nonlinear_arith)
            requires
                at.len() == front.len() + 1,
        ;
        assert forall|i: int| 0 <= i < front.len() implies #[trigger] front[i] - seen.last().now
            >= settings.stall_ms * 1_000_000 by {
            assert(front[i] == at[i]);
        }
        law_every_tick_of_a_stall_moves_on(s, settings, seen, front);
        assert(at[at.len() - 1] - seen.last().now >= settings.stall_ms * 1_000_000);
    }
}

/// Without observations there is no frontier, no segment and no count of
/// silence.
pub proof fn law_nothing_observed()
    ensures
        unobserved().frontier is None,
        unobserved().segment_start is None,
        unobserved().last_upstream_at is None,
{
}

/// A tick is within the range of the clock unless it has to move the frontier
/// beyond it.
pub proof fn law_ticks_within_range(s: State, settings: Settings, playing: bool, now: u128)
    ensures
        ({
            let place = if s.frontier is Some {
                s.frontier
            } else {
                s.segment_start
            };
            let moves = settings.keepalive_ms > 0 && playing && place is Some && settings.stall_ms
                > 0 && (s.last_upstream_at matches Some(last) && last + settings.stall_ms
                * 1_000_000 <= now);
            tick_fits(s, settings, playing, now) <==> (moves ==> (place->0).0
                + settings.keepalive_ms * 1_000_000 <= u64::MAX)
        }),
{
}

/// A worker runs exactly when there is an interval, and ticks at it.
pub proof fn law_worker_runs_at_the_interval(keepalive_ms: u32)
    ensures
        keepalive_ms > 0 ==> worker_for(keepalive_ms) == Worker::Arm(keepalive_ms),
        keepalive_ms == 0 ==> worker_for(keepalive_ms) == Worker::Disarm,
{
}

/// Each property is one field, and both start at zero.
pub proof fn law_properties_are_fields(settings: Settings, n: u32)
    ensures
        with_property(settings, Property::KeepaliveMs, n) == (Settings {
            keepalive_ms: n,
            ..settings
        }),
        with_property(settings, Property::StallMs, n) == (Settings { stall_ms: n, ..settings }),
        property_of(settings, Property::KeepaliveMs) == settings.keepalive_ms,
        property_of(settings, Property::StallMs) == settings.stall_ms,
        default_settings().keepalive_ms == 0,
        default_settings().stall_ms == 0,
{
}

/// Each property has one name, and no other name has a property.
pub proof fn law_property_names(name: Seq<char>)
    ensures
        property_named(name) == Some(Property::KeepaliveMs) <==> name == "keepalive-ms"@,
        property_named(name) == Some(Property::StallMs) <==> name == "stall-ms"@,
{
    reveal_strlit("keepalive-ms");
    reveal_strlit("stall-ms");
    assert("keepalive-ms"@.len() == 12);
    assert("stall-ms"@.len() == 8);
}

} // verus!
