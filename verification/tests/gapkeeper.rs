use textrollup::clock::ClockTime;
use textrollup::event::{Event, StateChange};
use textrollup::gapkeeper::element::{Action, Property, Step, Worker};
use textrollup::gapkeeper::GapKeeper;

fn ms(value: u64) -> ClockTime {
    ClockTime(value * 1_000_000)
}

fn wall(ms: u128) -> u128 {
    ms * 1_000_000
}

fn keeper(keepalive: u32, stall: u32) -> GapKeeper {
    let mut keeper = GapKeeper::new();
    keeper.set_property(Property::KeepaliveMs, keepalive);
    keeper.set_property(Property::StallMs, stall);
    keeper
}

#[test]
fn gapkeeper_covers_silence_without_touching_buffers() {
    let mut k = keeper(100, 0);
    assert_eq!(
        k.sink_event(&Event::Segment(Some(ms(0))), wall(0)),
        Action::Default
    );
    assert_eq!(k.keepalive_tick(true, wall(10)), Some(ms(0)));
    k.sink_chain(Some(ms(1000)), Some(ms(300)), wall(20));
    for tick in 1..=8 {
        assert_eq!(k.keepalive_tick(true, wall(20 + 100 * tick)), Some(ms(1300)));
    }
}

#[test]
fn gapkeeper_stall_advances_the_frontier() {
    let mut k = keeper(100, 500);
    k.sink_event(&Event::Segment(Some(ms(0))), wall(0));
    k.sink_chain(Some(ms(1000)), Some(ms(100)), wall(0));
    let mut furthest = ms(0);
    for tick in 1..=22 {
        let at = k.keepalive_tick(true, wall(100 * tick)).expect("a gap");
        if tick < 5 {
            assert_eq!(at, ms(1100));
        }
        furthest = at;
    }
    assert_eq!(furthest, ms(1100 + 18 * 100));
    // A word ends the stall, and the frontier does not fall back.
    k.sink_chain(Some(ms(1200)), Some(ms(100)), wall(2250));
    assert_eq!(k.keepalive_tick(true, wall(2300)), Some(ms(2900)));
}

#[test]
fn silence_counts_from_the_segment() {
    let mut k = keeper(100, 500);
    k.sink_event(&Event::Segment(Some(ms(0))), wall(1000));
    assert_eq!(k.keepalive_tick(true, wall(1499)), Some(ms(0)));
    assert_eq!(k.keepalive_tick(true, wall(1501)), Some(ms(100)));
    assert_eq!(k.keepalive_tick(true, wall(1601)), Some(ms(200)));
    // The first word ends the stall.
    k.sink_chain(Some(ms(50)), Some(ms(400)), wall(1650));
    assert_eq!(k.keepalive_tick(true, wall(1701)), Some(ms(450)));
}

#[test]
fn nothing_is_emitted_while_off_or_not_playing_or_unanchored() {
    let mut k = keeper(0, 500);
    k.sink_chain(Some(ms(1000)), None, wall(0));
    assert_eq!(k.keepalive_tick(true, wall(9000)), None);
    let mut k = keeper(100, 500);
    assert_eq!(k.keepalive_tick(true, wall(9000)), None);
    k.sink_chain(Some(ms(1000)), None, wall(0));
    assert_eq!(k.keepalive_tick(false, wall(9000)), None);
    assert_eq!(k.keepalive_tick(true, wall(400)), Some(ms(1000)));
    assert_eq!(k.keepalive_tick(true, wall(500)), Some(ms(1100)));
}

#[test]
fn a_clock_reading_from_before_is_no_stall() {
    let mut k = keeper(100, 1);
    k.sink_chain(Some(ms(1000)), None, wall(50));
    assert_eq!(k.keepalive_tick(true, wall(10)), Some(ms(1000)));
}

#[test]
fn the_frontier_is_the_furthest_end() {
    let mut k = keeper(100, 0);
    k.observe(ms(1000), ms(300), wall(0));
    k.observe(ms(500), ms(100), wall(1));
    assert_eq!(k.keepalive_tick(true, wall(2)), Some(ms(1300)));
    assert_eq!(
        k.sink_event(&Event::Gap(ms(1300), Some(ms(200))), wall(3)),
        Action::Consume
    );
    assert_eq!(k.keepalive_tick(true, wall(4)), Some(ms(1500)));
    assert_eq!(
        k.sink_event(&Event::Gap(ms(1700), None), wall(5)),
        Action::Consume
    );
    assert_eq!(k.keepalive_tick(true, wall(6)), Some(ms(1700)));
    // A buffer without a timestamp is not observed.
    k.sink_chain(None, Some(ms(9000)), wall(7));
    assert_eq!(k.keepalive_tick(true, wall(8)), Some(ms(1700)));
}

#[test]
fn resets_forget_what_was_observed() {
    for event in [Event::StreamStart, Event::FlushStop, Event::Segment(None)] {
        let mut k = keeper(100, 0);
        k.sink_chain(Some(ms(1000)), None, wall(0));
        assert_eq!(k.sink_event(&event, wall(1)), Action::Default);
        assert_eq!(k.keepalive_tick(true, wall(2)), None);
    }
}

#[test]
fn keeper_custom_events_are_forwarded_by_name() {
    let mut k = keeper(100, 0);
    let named = |name: &str| Event::CustomDownstream(Some(name.into()));
    assert_eq!(
        k.sink_event(&named("rstranscribe/final-transcript"), wall(0)),
        Action::Forward
    );
    assert_eq!(k.sink_event(&named("other"), wall(0)), Action::Default);
    assert_eq!(
        k.sink_event(&Event::CustomDownstream(None), wall(0)),
        Action::Default
    );
    assert_eq!(k.sink_event(&Event::Other, wall(0)), Action::Default);
}

#[test]
fn the_worker_follows_the_interval_and_the_state() {
    let mut k = GapKeeper::new();
    assert_eq!(k.arm_keepalive(), Worker::Disarm);
    assert_eq!(k.set_property(Property::StallMs, 500), Worker::Disarm);
    assert_eq!(k.set_property(Property::KeepaliveMs, 100), Worker::Arm(100));
    assert_eq!(k.set_property(Property::StallMs, 700), Worker::Arm(100));
    assert_eq!(k.change_state(StateChange::ReadyToPaused), Worker::Arm(100));
    k.sink_chain(Some(ms(1000)), None, wall(0));
    assert_eq!(k.change_state(StateChange::Other), Worker::Leave);
    assert_eq!(k.keepalive_tick(true, wall(0)), Some(ms(1000)));
    assert_eq!(k.change_state(StateChange::PausedToReady), Worker::Disarm);
    assert_eq!(k.keepalive_tick(true, wall(0)), None);
    assert_eq!(k.property(Property::StallMs), 700);
}

#[test]
fn the_worker_sleeps_then_ticks_until_it_is_stopped() {
    assert_eq!(GapKeeper::worker_step(false, false, true), Step::Sleep);
    assert_eq!(GapKeeper::worker_step(true, false, true), Step::Tick);
    assert_eq!(GapKeeper::worker_step(true, false, false), Step::Exit);
    assert_eq!(GapKeeper::worker_step(false, true, true), Step::Exit);
    assert_eq!(GapKeeper::worker_step(true, true, true), Step::Exit);
}

#[test]
fn keeper_properties_have_their_defaults() {
    let k = GapKeeper::new();
    for name in ["keepalive-ms", "stall-ms"] {
        let property = Property::from_name(name).expect(name);
        assert_eq!(property.name(), name);
        assert_eq!(property.default_value(), 0);
        assert_eq!(k.property(property), 0);
    }
    assert!(Property::from_name("columns").is_none());
}

#[test]
fn ticks_out_of_range_are_found() {
    let mut k = keeper(100, 500);
    k.observe(ClockTime(u64::MAX), ClockTime(0), wall(0));
    assert!(k.keepalive_tick_fits(true, wall(499)));
    assert!(!k.keepalive_tick_fits(true, wall(500)));
    assert!(k.keepalive_tick_fits(false, wall(500)));
}
