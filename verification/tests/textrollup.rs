use textrollup::clock::ClockTime;
use textrollup::event::{Event, StateChange};
use textrollup::rollup::element::{Action, Fault, Latency, Out, Property, Value};
use textrollup::rollup::TextRollup;

fn ms(value: u64) -> ClockTime {
    ClockTime(value * 1_000_000)
}

fn element(clear_after: u32) -> TextRollup {
    let mut element = TextRollup::new();
    element.set_property(Property::ClearAfter, Value::UInt(clear_after));
    element
}

fn buffer(
    element: &mut TextRollup,
    pts_ms: u64,
    duration_ms: Option<u64>,
    text: &str,
) -> Result<Vec<Out>, Fault> {
    element.sink_chain(Some(ms(pts_ms)), duration_ms.map(ms), text.as_bytes())
}

fn push(element: &mut TextRollup, pts_ms: u64, duration_ms: u64, text: &str) -> Vec<Out> {
    buffer(element, pts_ms, Some(duration_ms), text).expect("caption state")
}

fn push_gap(element: &mut TextRollup, start_ms: u64, duration_ms: u64) -> Vec<Out> {
    gap(element, start_ms, Some(duration_ms))
}

fn gap(element: &mut TextRollup, start_ms: u64, duration_ms: Option<u64>) -> Vec<Out> {
    match element.sink_event(&Event::Gap(ms(start_ms), duration_ms.map(ms))) {
        Action::Flush(out) => out,
        other => panic!("gap answered with {other:?}"),
    }
}

fn cue(pts_ms: u64, duration_ms: u64, text: &str) -> Out {
    Out::Cue(ms(pts_ms), ms(duration_ms), text.into())
}

fn hole(start_ms: u64, duration_ms: u64) -> Out {
    Out::Gap(ms(start_ms), Some(ms(duration_ms)))
}

fn text(out: &Out) -> &str {
    match out {
        Out::Cue(_, _, text) => text,
        Out::Gap(_, _) => panic!("expected a cue, got {out:?}"),
    }
}

#[test]
fn first_word_is_immediate_and_preserves_timing() {
    let mut e = element(3000);
    assert_eq!(push(&mut e, 1000, 83, "Hello"), vec![cue(1000, 83, "Hello")]);
}

#[test]
fn every_committed_buffer_produces_one_complete_state() {
    let mut e = element(0);
    e.set_property(Property::BreakOnSentence, Value::Bool(false));
    assert_eq!(push(&mut e, 1000, 80, "One"), vec![cue(1000, 80, "One")]);
    assert_eq!(
        push(&mut e, 1200, 90, "two words"),
        vec![cue(1200, 90, "One two words")]
    );
}

#[test]
fn requires_duration_and_nonzero_duration() {
    let mut e = element(0);
    assert_eq!(
        buffer(&mut e, 1000, None, "word"),
        Err(Fault::NoDuration)
    );
    assert_eq!(
        buffer(&mut e, 1000, Some(0), "word"),
        Err(Fault::ZeroDuration)
    );
}

#[test]
fn short_silence_preserves_the_window() {
    let mut e = element(3000);
    let first = push(&mut e, 1000, 100, "Hello");
    assert_eq!(push_gap(&mut e, 1100, 2500), vec![hole(1100, 2500)]);
    let second = push(&mut e, 3600, 100, "again");
    assert_eq!(text(&first[0]), "Hello");
    assert_eq!(text(&second[0]), "Hello again");
}

#[test]
fn gap_crossing_deadline_splits_around_one_clear() {
    let mut e = element(3000);
    assert_eq!(text(&push(&mut e, 1000, 100, "Hello")[0]), "Hello");
    assert_eq!(
        push_gap(&mut e, 1100, 4000),
        vec![hole(1100, 3000), cue(4100, 0, ""), hole(4100, 1000)]
    );
    // The clear is emitted only once.
    assert_eq!(push_gap(&mut e, 5100, 4000), vec![hole(5100, 4000)]);
}

#[test]
fn later_word_emits_missed_clear_at_media_deadline() {
    let mut e = element(3000);
    assert_eq!(text(&push(&mut e, 1000, 100, "old")[0]), "old");
    assert_eq!(
        push(&mut e, 5000, 100, "new"),
        vec![cue(4100, 0, ""), cue(5000, 100, "new")]
    );
}

#[test]
fn explicit_empty_input_clears_and_resets() {
    let mut e = element(0);
    assert_eq!(text(&push(&mut e, 1000, 100, "old words")[0]), "old words");
    assert_eq!(
        buffer(&mut e, 1500, None, ""),
        Ok(vec![cue(1500, 0, "")])
    );
    assert_eq!(text(&push(&mut e, 2000, 100, "fresh")[0]), "fresh");
}

#[test]
fn clear_after_zero_never_generates_a_clear() {
    let mut e = element(0);
    assert_eq!(text(&push(&mut e, 1000, 100, "old")[0]), "old");
    assert_eq!(push_gap(&mut e, 1100, 10_000), vec![hole(1100, 10_000)]);
    assert_eq!(
        push(&mut e, 99_000, 100, "still"),
        vec![cue(99_000, 100, "old still")]
    );
}

#[test]
fn sentence_and_width_scrolls_never_emit_blank_state() {
    let mut e = element(0);
    e.set_property(Property::Columns, Value::UInt(12));
    e.set_property(Property::Lines, Value::UInt(2));
    assert_eq!(e.property(Property::BreakOnSentence), Value::Bool(true));
    let mut states = Vec::new();
    for (pts, word) in [
        (0, "Hello"),
        (100, "world."),
        (200, "Next"),
        (300, "longword"),
    ] {
        states.extend(push(&mut e, pts, 50, word));
    }
    assert_eq!(states.len(), 4);
    assert_eq!(text(&states[1]), "Hello world.");
    assert_eq!(text(&states[2]), "Hello world.\nNext");
    assert!(states.iter().all(|state| !text(state).is_empty()));
}

#[test]
fn flush_stop_drops_the_old_window() {
    let mut e = element(0);
    assert_eq!(text(&push(&mut e, 1000, 50, "stale")[0]), "stale");
    assert_eq!(e.sink_event(&Event::FlushStop), Action::Default);
    assert_eq!(text(&push(&mut e, 2000, 50, "fresh")[0]), "fresh");
}

#[test]
fn latency_query_adds_no_formatter_latency() {
    let upstream = Latency {
        live: false,
        min: ClockTime(0),
        max: None,
    };
    let answer = TextRollup::src_query(Some(upstream)).expect("an answer");
    assert_eq!(answer.min, ClockTime(0));
    let upstream = Latency {
        live: true,
        min: ms(20),
        max: Some(ms(40)),
    };
    assert_eq!(TextRollup::src_query(Some(upstream)), Some(upstream));
    assert_eq!(TextRollup::src_query(None), None);
}

#[test]
fn repeated_runs_have_identical_media_time_output() {
    let run = || {
        let mut e = element(3000);
        let mut out = push(&mut e, 1000, 100, "one");
        out.extend(push(&mut e, 1200, 100, "two"));
        out.extend(push_gap(&mut e, 1300, 4000));
        out.retain(|item| matches!(item, Out::Cue(_, _, _)));
        out
    };
    assert_eq!(run(), run());
    assert_eq!(run().last(), Some(&cue(4300, 0, "")));
}

#[test]
fn removed_transport_workaround_properties_are_absent() {
    for name in ["hold", "persist", "clear-timeout", "emit-clear-cue"] {
        assert!(Property::from_name(name).is_none(), "{name} still exists");
    }
}

#[test]
fn buffers_need_a_timestamp_and_valid_utf8() {
    let mut e = element(0);
    assert_eq!(
        e.sink_chain(None, Some(ms(10)), b"word"),
        Err(Fault::Untimed)
    );
    assert_eq!(
        e.sink_chain(Some(ms(0)), Some(ms(10)), &[0xff, 0xfe]),
        Err(Fault::NotUtf8)
    );
    assert_eq!(
        e.sink_chain(Some(ms(0)), Some(ms(10)), &[0xc3]),
        Err(Fault::NotUtf8)
    );
    assert_eq!(
        e.sink_chain(Some(ms(0)), Some(ms(10)), "é 你".as_bytes()),
        Ok(vec![cue(0, 10, "é 你")])
    );
}

#[test]
fn a_refused_buffer_leaves_the_window_alone() {
    let mut e = element(3000);
    push(&mut e, 1000, 100, "kept");
    assert!(buffer(&mut e, 9000, None, "word").is_err());
    assert_eq!(
        push(&mut e, 1200, 100, "on"),
        vec![cue(1200, 100, "kept on")]
    );
}

#[test]
fn a_word_exactly_at_the_deadline_is_late() {
    let mut e = element(3000);
    push(&mut e, 1000, 100, "old");
    assert_eq!(
        push(&mut e, 4100, 100, "new"),
        vec![cue(4100, 0, ""), cue(4100, 100, "new")]
    );
    let mut e = element(3000);
    push(&mut e, 1000, 100, "old");
    assert_eq!(
        push(&mut e, 4099, 100, "new"),
        vec![cue(4099, 100, "old new")]
    );
}

#[test]
fn a_gap_ending_at_the_deadline_has_no_tail() {
    let mut e = element(3000);
    push(&mut e, 1000, 100, "Hello");
    assert_eq!(
        push_gap(&mut e, 1100, 3000),
        vec![hole(1100, 3000), cue(4100, 0, "")]
    );
}

#[test]
fn a_gap_after_the_deadline_follows_the_missed_clear() {
    let mut e = element(3000);
    push(&mut e, 1000, 100, "Hello");
    assert_eq!(
        push_gap(&mut e, 6000, 500),
        vec![cue(4100, 0, ""), hole(6000, 500)]
    );
}

#[test]
fn a_gap_without_duration_is_forwarded_unchanged() {
    for start in [4100, 6000] {
        let mut e = element(3000);
        push(&mut e, 1000, 100, "Hello");
        assert_eq!(
            gap(&mut e, start, None),
            vec![cue(4100, 0, ""), Out::Gap(ms(start), None)]
        );
    }
    let mut e = element(3000);
    push(&mut e, 1000, 100, "Hello");
    assert_eq!(gap(&mut e, 2000, None), vec![Out::Gap(ms(2000), None)]);
    // An empty gap right at the deadline covers nothing.
    assert_eq!(gap(&mut e, 4100, Some(0)), vec![cue(4100, 0, "")]);
}

#[test]
fn a_regressing_gap_is_ignored() {
    let mut e = element(3000);
    assert_eq!(push_gap(&mut e, 1000, 1000), vec![hole(1000, 1000)]);
    assert_eq!(push_gap(&mut e, 500, 1000), vec![]);
    assert_eq!(push_gap(&mut e, 1500, 500), vec![hole(1500, 500)]);
    // A new segment starts a new timeline.
    assert_eq!(e.sink_event(&Event::Segment(None)), Action::Default);
    assert_eq!(push_gap(&mut e, 0, 10), vec![hole(0, 10)]);
}

#[test]
fn announced_and_omitted_gaps_give_the_same_captions() {
    let mut announced = element(3000);
    let mut cues = push(&mut announced, 1000, 100, "old");
    cues.extend(push_gap(&mut announced, 1100, 5000));
    cues.extend(push(&mut announced, 6100, 100, "new words"));
    cues.retain(|item| matches!(item, Out::Cue(_, _, _)));

    let mut omitted = element(3000);
    let mut direct = push(&mut omitted, 1000, 100, "old");
    direct.extend(push(&mut omitted, 6100, 100, "new words"));
    assert_eq!(cues, direct);
}

#[test]
fn words_may_be_spread_over_buffers_in_any_way() {
    let mut whole = element(0);
    let mut single = element(0);
    for e in [&mut whole, &mut single] {
        e.set_property(Property::Columns, Value::UInt(9));
    }
    let all = push(&mut whole, 0, 5, "one two. three four five");
    let mut last = Vec::new();
    for (i, word) in ["one", "two.", "three", "four", "five"].iter().enumerate() {
        last = push(&mut single, i as u64, 5, word);
    }
    assert_eq!(text(&all[0]), "three\nfour five");
    assert_eq!(text(&last[0]), text(&all[0]));
}

#[test]
fn line_breaks_in_a_buffer_only_separate_words() {
    let mut e = element(0);
    assert_eq!(
        push(&mut e, 0, 5, "\none\ntwo\r\nthree\n"),
        vec![cue(0, 5, "one two three")]
    );
}

#[test]
fn a_new_segment_or_stream_drops_the_old_text() {
    for event in [Event::Segment(Some(ms(0))), Event::StreamStart] {
        let mut e = element(3000);
        push(&mut e, 1000, 50, "stale");
        assert_eq!(e.sink_event(&event), Action::Default);
        assert_eq!(push(&mut e, 9000, 50, "fresh"), vec![cue(9000, 50, "fresh")]);
    }
}

#[test]
fn custom_events_are_forwarded_by_name() {
    let mut e = element(0);
    let named = |name: &str| Event::CustomDownstream(Some(name.into()));
    assert_eq!(
        e.sink_event(&named("rstranscribe/final-transcript")),
        Action::Forward
    );
    assert_eq!(e.sink_event(&named("rstranscribe/other")), Action::Default);
    assert_eq!(e.sink_event(&Event::CustomDownstream(None)), Action::Default);
    assert_eq!(e.sink_event(&Event::Other), Action::Default);
}

#[test]
fn leaving_paused_forgets_the_text_but_not_the_properties() {
    let mut e = element(1234);
    push(&mut e, 1000, 50, "stale");
    e.change_state(StateChange::ReadyToPaused);
    e.change_state(StateChange::Other);
    assert_eq!(text(&push(&mut e, 1100, 50, "more")[0]), "stale more");
    e.change_state(StateChange::PausedToReady);
    assert_eq!(text(&push(&mut e, 1200, 50, "fresh")[0]), "fresh");
    assert_eq!(e.property(Property::ClearAfter), Value::UInt(1234));
}

#[test]
fn only_a_refused_cue_ends_a_flush() {
    assert!(TextRollup::flush_continues(&hole(0, 1), false));
    assert!(TextRollup::flush_continues(&hole(0, 1), true));
    assert!(TextRollup::flush_continues(&cue(0, 1, "x"), true));
    assert!(!TextRollup::flush_continues(&cue(0, 1, "x"), false));
}

#[test]
fn properties_have_their_documented_defaults() {
    let e = TextRollup::new();
    for (name, value, minimum) in [
        ("columns", Value::UInt(42), Some(1)),
        ("lines", Value::UInt(2), Some(1)),
        ("clear-after", Value::UInt(3000), Some(0)),
        ("break-on-sentence", Value::Bool(true), None),
    ] {
        let property = Property::from_name(name).expect(name);
        assert_eq!(property.name(), name);
        assert_eq!(property.default_value(), value);
        assert_eq!(property.minimum(), minimum);
        assert_eq!(e.property(property), value);
    }
}

#[test]
fn setting_one_property_keeps_the_others() {
    let mut e = TextRollup::new();
    e.set_property(Property::Lines, Value::UInt(3));
    assert_eq!(e.property(Property::Lines), Value::UInt(3));
    assert_eq!(e.property(Property::Columns), Value::UInt(42));
    e.set_property(Property::Columns, Value::UInt(0));
    assert_eq!(push(&mut e, 0, 1, "a b c d"), vec![cue(0, 1, "b\nc\nd")]);
}

#[test]
fn times_out_of_range_are_found() {
    let mut e = element(3000);
    let end = ClockTime(u64::MAX);
    assert!(!e.sink_chain_fits(Some(end), Some(ClockTime(1)), b"word"));
    assert!(e.sink_chain_fits(Some(end), Some(ClockTime(1)), b"  "));
    assert!(e.sink_chain_fits(Some(end), None, b"word"));
    assert!(e.sink_chain_fits(Some(ClockTime(5)), Some(ClockTime(1)), b"word"));
    assert!(!e.sink_event_fits(&Event::Gap(end, Some(ClockTime(1)))));
    assert!(e.sink_event_fits(&Event::Gap(end, None)));
    assert!(e.sink_event_fits(&Event::FlushStop));
    let late = ClockTime(u64::MAX - 10);
    assert!(e
        .sink_chain(Some(late), Some(ClockTime(5)), b"word")
        .is_ok());
    assert!(!e.sink_event_fits(&Event::Gap(end, None)));
    assert!(!e.sink_chain_fits(Some(ClockTime(5)), Some(ClockTime(1)), b"word"));
}
