//! What each buffer, event and property does, told by what goes in and what
//! comes out.

use vstd::prelude::*;
use vstd::utf8::{decode_utf8, valid_utf8};

use super::element::{
    chained, default_settings, event_fits, feed_fits, fresh, gap_fits, handled, property_named,
    property_of, sent, shaped, with_property, Action, Caption, Fault, Out, Property, Settings,
    TextRollup, Value,
};
use super::screen_laws::{law_placing_a_word, law_pushing_a_word, law_run_pushes_every_word};
use super::window::{display_columns, run, sentence_end, Screen};
use super::window_laws::law_geometry_is_kept;
use crate::clock::ClockTime;
use crate::event::Event;
use crate::text::{blank, joined, white_space, words};
use crate::text::{lemma_trimmed_fixed, lemma_words_are_solid, lemma_words_of_blank};

verus! {

/// Whether there is anything beside white space in `text`.
pub open spec fn has_text(text: Seq<char>) -> bool {
    exists|i: int| 0 <= i < text.len() && !white_space(#[trigger] text[i])
}

/// How far a gap reaches, in nanoseconds.
pub open spec fn gap_end(start: ClockTime, duration: Option<ClockTime>) -> int {
    match duration {
        Some(length) => start.0 + length.0,
        None => start.0 as int,
    }
}

/// Whether nothing is on display any more, in a window of the same geometry.
pub open spec fn emptied(before: Screen, after: Screen) -> bool {
    &&& after.done.len() == 0
    &&& after.current.len() == 0
    &&& after.columns == before.columns
    &&& after.lines == before.lines
    &&& after.break_on_sentence == before.break_on_sentence
}

/// Whether `out` is the blank state at `at` nanoseconds.
pub open spec fn is_clear(out: Out, at: int) -> bool {
    out matches Out::Cue(pts, duration, text) && pts.0 == at && duration.0 == 0 && text@.len() == 0
}

/// Whether `out` is a gap from `from` to `to`, in nanoseconds.
pub open spec fn is_gap(out: Out, from: int, to: int) -> bool {
    out matches Out::Gap(start, Some(length)) && start.0 == from && start.0 + length.0 == to
}

/// A buffer needs a timestamp and valid UTF-8, and one with text a duration
/// that is not zero; what lacks first is what it is refused for. No other
/// buffer is refused, and a refused one changes nothing.
pub proof fn law_what_a_buffer_is_refused_for(
    before: TextRollup,
    pts: Option<ClockTime>,
    duration: Option<ClockTime>,
    data: Seq<u8>,
    after: TextRollup,
    r: Result<Vec<Out>, Fault>,
)
    requires
        chained(before, pts, duration, data, after, r),
    ensures
        ({
            let timed = pts is Some;
            let readable = valid_utf8(data);
            let text = has_text(decode_utf8(data));
            &&& !timed ==> r == Err::<Vec<Out>, Fault>(Fault::Untimed)
            &&& timed && !readable ==> r == Err::<Vec<Out>, Fault>(Fault::NotUtf8)
            &&& timed && readable && text && duration is None ==> r == Err::<Vec<Out>, Fault>(
                Fault::NoDuration,
            )
            &&& timed && readable && text && duration is Some && (duration->0).0 == 0 ==> r
                == Err::<Vec<Out>, Fault>(Fault::ZeroDuration)
            &&& timed && readable && !text ==> r is Ok
            &&& timed && readable && duration is Some && (duration->0).0 > 0 ==> r is Ok
        }),
        r is Err ==> after.state@ == before.state@,
        after.settings == before.settings,
{
    assert(duration is Some && (duration->0).0 == 0 ==> duration == Some(ClockTime(0)));
}

/// A buffer without text is an explicit clear at its timestamp, whatever the
/// properties are and whatever is on display: one blank state goes out, and
/// the window and the deadline are forgotten.
pub proof fn law_blank_buffer_clears_the_display(
    before: TextRollup,
    pts: ClockTime,
    duration: Option<ClockTime>,
    data: Seq<u8>,
    after: TextRollup,
    r: Result<Vec<Out>, Fault>,
)
    requires
        chained(before, Some(pts), duration, data, after, r),
        valid_utf8(data),
        !has_text(decode_utf8(data)),
    ensures
        r matches Ok(out) && out@.len() == 1 && is_clear(out@[0], pts.0 as int),
        emptied(before.state@.screen, after.state@.screen),
        after.state@.last_input_end is None,
        after.state@.frontier == before.state@.frontier,
        after.settings == before.settings,
{
    assert(blank(decode_utf8(data)));
    let out = r->Ok_0;
    assert(sent(out@).len() == out@.len());
    assert(sent(out@)[0] == out@[0]@);
}

/// A buffer with text adds all its words to the window and sends the whole
/// window once, at the timestamp and for the duration of the buffer. If the
/// display was due to be cleared by then, the blank state goes out first, at
/// the time it was due, and the words start a clean window.
pub proof fn law_text_buffer_sends_the_whole_window(
    before: TextRollup,
    pts: ClockTime,
    duration: ClockTime,
    data: Seq<u8>,
    after: TextRollup,
    r: Result<Vec<Out>, Fault>,
)
    requires
        chained(before, Some(pts), Some(duration), data, after, r),
        valid_utf8(data),
        has_text(decode_utf8(data)),
        duration.0 > 0,
        pts.0 + duration.0 <= u64::MAX,
        before.state@.last_input_end matches Some(end) ==> end.0 + before.settings.clear_after_ms
            * 1_000_000 <= u64::MAX,
    ensures
        ({
            let delay = before.settings.clear_after_ms * 1_000_000;
            let due = before.settings.clear_after_ms > 0 && (
            before.state@.last_input_end matches Some(end) && end.0 + delay <= pts.0);
            let screen = before.state@.screen;
            let clean = Screen { done: Seq::empty(), current: Seq::empty(), ..screen };
            let shown = after.state@.screen.rendered();
            &&& r matches Ok(out)
            &&& out@.len() == if due {
                2nat
            } else {
                1nat
            }
            &&& due ==> is_clear(out@[0], (before.state@.last_input_end->0).0 + delay)
            &&& out@.last() matches Out::Cue(at, length, text)
            &&& at == pts && length == duration && text@ == shown
            &&& after.state@.screen == run(
                if due {
                    clean
                } else {
                    screen
                },
                words(decode_utf8(data)),
            )
        }),
        after.state@.last_input_end matches Some(end) && end.0 == pts.0 + duration.0,
        after.state@.frontier == before.state@.frontier,
        after.settings == before.settings,
{
    let out = r->Ok_0;
    let outs = sent(out@);
    assert(outs.len() == out@.len());
    assert(outs[0] == out@[0]@);
    assert(outs.last() == out@.last()@);
}

/// A gap that ends before one seen earlier in the segment changes nothing, and
/// nothing is sent for it.
pub proof fn law_gap_behind_the_frontier_is_ignored(
    before: TextRollup,
    start: ClockTime,
    duration: Option<ClockTime>,
    after: TextRollup,
    r: Action,
)
    requires
        handled(before, Event::Gap(start, duration), after, r),
        gap_end(start, duration) <= u64::MAX,
        before.state@.frontier matches Some(f) && gap_end(start, duration) < f.0,
    ensures
        r matches Action::Flush(out) && out@.len() == 0,
        after.state@ == before.state@,
        after.settings == before.settings,
{
    assert(sent((r->Flush_0)@).len() == (r->Flush_0)@.len());
}

/// Any other gap moves the frontier to its end. Before the display is due to be
/// cleared, or where it never is, the gap goes through as it came, and the
/// window stays.
pub proof fn law_gap_before_the_deadline_goes_through(
    before: TextRollup,
    start: ClockTime,
    duration: Option<ClockTime>,
    after: TextRollup,
    r: Action,
)
    requires
        handled(before, Event::Gap(start, duration), after, r),
        gap_end(start, duration) <= u64::MAX,
        before.state@.frontier matches Some(f) ==> f.0 <= gap_end(start, duration),
        before.settings.clear_after_ms > 0 ==> (before.state@.last_input_end matches Some(end)
            ==> {
            &&& end.0 + before.settings.clear_after_ms * 1_000_000 <= u64::MAX
            &&& gap_end(start, duration) < end.0 + before.settings.clear_after_ms * 1_000_000
        }),
    ensures
        r matches Action::Flush(out) && out@.len() == 1 && out@[0] == Out::Gap(start, duration),
        after.state@.screen == before.state@.screen,
        after.state@.last_input_end == before.state@.last_input_end,
        after.state@.frontier matches Some(f) && f.0 == gap_end(start, duration),
        after.settings == before.settings,
{
    let out = (r->Flush_0)@;
    assert(sent(out).len() == out.len());
    assert(sent(out)[0] == out[0]@);
}

/// A gap that reaches the time at which the display is due to be cleared, the
/// end of the last text and the clear delay behind it, makes exactly one blank
/// state at that time, whatever text is on display. What the gap covers before
/// that time goes out before the blank state, and what it covers from then on
/// behind it. The window and the deadline are forgotten.
pub proof fn law_gap_reaching_the_deadline_clears(
    before: TextRollup,
    start: ClockTime,
    duration: Option<ClockTime>,
    after: TextRollup,
    r: Action,
)
    requires
        handled(before, Event::Gap(start, duration), after, r),
        gap_end(start, duration) <= u64::MAX,
        before.state@.frontier matches Some(f) ==> f.0 <= gap_end(start, duration),
        before.settings.clear_after_ms > 0,
        before.state@.last_input_end matches Some(end) && end.0 + before.settings.clear_after_ms
            * 1_000_000 <= gap_end(start, duration),
    ensures
        ({
            let deadline = (before.state@.last_input_end->0).0 + before.settings.clear_after_ms
                * 1_000_000;
            let end = gap_end(start, duration);
            &&& r matches Action::Flush(out)
            &&& start.0 < deadline ==> {
                &&& out@.len() == if deadline < end {
                    3nat
                } else {
                    2nat
                }
                &&& is_gap(out@[0], start.0 as int, deadline)
                &&& is_clear(out@[1], deadline)
                &&& deadline < end ==> is_gap(out@[2], deadline, end)
            }
            &&& start.0 >= deadline ==> {
                let nothing_left = start.0 == deadline && duration is Some && (duration->0).0 == 0;
                &&& out@.len() == if nothing_left {
                    1nat
                } else {
                    2nat
                }
                &&& is_clear(out@[0], deadline)
                &&& !nothing_left ==> out@[1] == Out::Gap(start, duration)
            }
        }),
        emptied(before.state@.screen, after.state@.screen),
        after.state@.last_input_end is None,
        after.state@.frontier matches Some(f) && f.0 == gap_end(start, duration),
        after.settings == before.settings,
{
    let out = (r->Flush_0)@;
    let outs = sent(out);
    assert(outs.len() == out.len());
    assert(out.len() > 0 ==> outs[0] == out[0]@);
    assert(out.len() > 1 ==> outs[1] == out[1]@);
    assert(out.len() > 2 ==> outs[2] == out[2]@);
    assert(duration is Some && (duration->0).0 == 0 ==> duration == Some(ClockTime(0)));
}

/// Silence that is announced right after a text clears it: the gap is split
/// where the clear delay has passed since the text ended.
pub proof fn law_announced_silence_clears_the_text(
    first: TextRollup,
    pts: ClockTime,
    duration: ClockTime,
    data: Seq<u8>,
    second: TextRollup,
    shown: Result<Vec<Out>, Fault>,
    start: ClockTime,
    silence: ClockTime,
    third: TextRollup,
    r: Action,
)
    requires
        chained(first, Some(pts), Some(duration), data, second, shown),
        handled(second, Event::Gap(start, Some(silence)), third, r),
        valid_utf8(data),
        has_text(decode_utf8(data)),
        duration.0 > 0,
        first.settings.clear_after_ms > 0,
        first.state@.last_input_end matches Some(end) ==> end.0 + first.settings.clear_after_ms
            * 1_000_000 <= u64::MAX,
        first.state@.frontier matches Some(f) ==> f.0 <= start.0,
        start.0 + silence.0 <= u64::MAX,
        start.0 < pts.0 + duration.0 + first.settings.clear_after_ms * 1_000_000 < start.0
            + silence.0,
    ensures
        ({
            let due = pts.0 + duration.0 + first.settings.clear_after_ms * 1_000_000;
            &&& r matches Action::Flush(out)
            &&& out@.len() == 3
            &&& is_gap(out@[0], start.0 as int, due)
            &&& is_clear(out@[1], due)
            &&& is_gap(out@[2], due, start.0 + silence.0)
        }),
        emptied(second.state@.screen, third.state@.screen),
{
    law_text_buffer_sends_the_whole_window(first, pts, duration, data, second, shown);
    law_gap_reaching_the_deadline_clears(second, start, Some(silence), third, r);
}

/// After an explicit clear the next text is read in a clean window: nothing of
/// what was on display before comes back.
pub proof fn law_text_after_a_blank_buffer_stands_alone(
    first: TextRollup,
    at: ClockTime,
    blank_data: Seq<u8>,
    second: TextRollup,
    cleared: Result<Vec<Out>, Fault>,
    pts: ClockTime,
    duration: ClockTime,
    data: Seq<u8>,
    third: TextRollup,
    r: Result<Vec<Out>, Fault>,
)
    requires
        chained(first, Some(at), None, blank_data, second, cleared),
        chained(second, Some(pts), Some(duration), data, third, r),
        valid_utf8(blank_data),
        !has_text(decode_utf8(blank_data)),
        valid_utf8(data),
        has_text(decode_utf8(data)),
        duration.0 > 0,
        pts.0 + duration.0 <= u64::MAX,
    ensures
        ({
            let clean = Screen {
                done: Seq::empty(),
                current: Seq::empty(),
                ..first.state@.screen
            };
            &&& r matches Ok(out)
            &&& out@.len() == 1
            &&& out@[0] matches Out::Cue(when, length, text)
            &&& when == pts && length == duration
            &&& text@ == run(clean, words(decode_utf8(data))).rendered()
        }),
{
    law_blank_buffer_clears_the_display(first, at, None, blank_data, second, cleared);
    law_text_buffer_sends_the_whole_window(second, pts, duration, data, third, r);
    let screen = second.state@.screen;
    let clean = Screen { done: Seq::empty(), current: Seq::empty(), ..first.state@.screen };
    assert(screen.done =~= clean.done);
    assert(screen.current =~= clean.current);
}

/// A new stream, a flush and a new segment leave no text, no deadline and no
/// frontier; the event itself is handled as usual.
pub proof fn law_new_timeline_leaves_nothing(
    before: TextRollup,
    event: Event,
    after: TextRollup,
    r: Action,
)
    requires
        handled(before, event, after, r),
        event is StreamStart || event is FlushStop || event is Segment,
    ensures
        r is Default,
        after.state@.screen.done.len() == 0,
        after.state@.screen.current.len() == 0,
        after.state@.last_input_end is None,
        after.state@.frontier is None,
        after.settings == before.settings,
        before.wf() ==> emptied(before.state@.screen, after.state@.screen),
{
}

/// A final transcript is forwarded, every other event is handled as usual, and
/// none of them touches the state.
pub proof fn law_other_events_pass(before: TextRollup, event: Event, after: TextRollup, r: Action)
    requires
        handled(before, event, after, r),
        event is CustomDownstream || event is Other,
    ensures
        (event matches Event::CustomDownstream(Some(name)) && name@
            == "rstranscribe/final-transcript"@) ==> r is Forward,
        !(event matches Event::CustomDownstream(Some(name)) && name@
            == "rstranscribe/final-transcript"@) ==> r is Default,
        after.state@ == before.state@,
        after.settings == before.settings,
{
}

/// The window of an element has the measures that the properties give, but
/// never less than one, and breaks at sentences exactly when the property says
/// so.
pub proof fn law_window_follows_the_properties(e: TextRollup)
    ensures
        e.wf() <==> {
            let s = e.state@.screen;
            &&& s.wf()
            &&& e.settings.columns >= 1 ==> s.columns == e.settings.columns
            &&& e.settings.columns == 0 ==> s.columns == 1
            &&& e.settings.lines >= 1 ==> s.lines == e.settings.lines
            &&& e.settings.lines == 0 ==> s.lines == 1
            &&& s.break_on_sentence == e.settings.break_on_sentence
        },
{
}

/// Taking the geometry from the properties changes the measures of a window and
/// whether it breaks at sentences, and keeps its text.
pub proof fn law_geometry_follows_the_properties(screen: Screen, settings: Settings)
    ensures
        ({
            let s = shaped(screen, settings);
            &&& settings.columns >= 1 ==> s.columns == settings.columns
            &&& settings.columns == 0 ==> s.columns == 1
            &&& settings.lines >= 1 ==> s.lines == settings.lines
            &&& settings.lines == 0 ==> s.lines == 1
            &&& s.break_on_sentence == settings.break_on_sentence
            &&& s.done == screen.done
            &&& s.current == screen.current
        }),
{
}

/// Whether the last line of a text still grows is up to the property that
/// breaks lines at sentences: without it the line always does, and with it
/// exactly when its last word does not end a sentence.
pub proof fn law_sentences_break_lines_as_the_property_says(
    before: TextRollup,
    pts: ClockTime,
    duration: ClockTime,
    data: Seq<u8>,
    after: TextRollup,
    r: Result<Vec<Out>, Fault>,
)
    requires
        before.wf(),
        chained(before, Some(pts), Some(duration), data, after, r),
        valid_utf8(data),
        has_text(decode_utf8(data)),
        duration.0 > 0,
        pts.0 + duration.0 <= u64::MAX,
        before.state@.last_input_end matches Some(end) ==> end.0 + before.settings.clear_after_ms
            * 1_000_000 <= u64::MAX,
    ensures
        ({
            let last = words(decode_utf8(data)).last();
            let screen = after.state@.screen;
            &&& !before.settings.break_on_sentence ==> screen.current.len() > 0
            &&& before.settings.break_on_sentence ==> (screen.current.len() > 0 <==> !sentence_end(
                last,
            ))
            &&& screen.current.len() > 0 ==> screen.current.last() == last
        }),
{
    law_text_buffer_sends_the_whole_window(before, pts, duration, data, after, r);
    let text = decode_utf8(data);
    let all = words(text);
    lemma_words_are_solid(text);
    lemma_words_of_blank(text);
    let delay = before.settings.clear_after_ms * 1_000_000;
    let due = before.settings.clear_after_ms > 0 && (before.state@.last_input_end matches Some(end)
        && end.0 + delay <= pts.0);
    let screen = before.state@.screen;
    let base = if due {
        Screen { done: Seq::empty(), current: Seq::empty(), ..screen }
    } else {
        screen
    };
    let front = all.drop_last();
    let last = all.last();
    assert(front.push(last) =~= all);
    law_run_pushes_every_word(base, front, last);
    law_geometry_is_kept(base, front);
    let s = run(base, front);
    assert(!white_space(all[all.len() - 1][0]));
    assert(!white_space(all[all.len() - 1][last.len() - 1]));
    lemma_trimmed_fixed(last);
    law_pushing_a_word(s, last);
    law_placing_a_word(s, last, 0);
    if s.current.len() > 0 {
        law_placing_a_word(s, last, display_columns(joined(s.current.push(last), ' ')) as nat);
    }
}

/// A state without input has no text, no deadline and no frontier, and the
/// geometry that the properties give.
pub proof fn law_fresh_state(settings: Settings)
    ensures
        ({
            let c = fresh(settings);
            &&& c.screen.done.len() == 0
            &&& c.screen.current.len() == 0
            &&& c.last_input_end is None
            &&& c.frontier is None
            &&& settings.columns >= 1 ==> c.screen.columns == settings.columns
            &&& settings.columns == 0 ==> c.screen.columns == 1
            &&& settings.lines >= 1 ==> c.screen.lines == settings.lines
            &&& settings.lines == 0 ==> c.screen.lines == 1
            &&& c.screen.break_on_sentence == settings.break_on_sentence
        }),
{
}

/// The properties that an element starts with.
pub proof fn law_default_properties()
    ensures
        default_settings().columns == 42,
        default_settings().lines == 2,
        default_settings().clear_after_ms == 3000,
        default_settings().break_on_sentence,
{
}

/// Each property is one field: setting it changes that field to the value and
/// no other, and reading it gives that field.
pub proof fn law_properties_are_fields(settings: Settings, n: u32, b: bool)
    ensures
        with_property(settings, Property::Columns, Value::UInt(n)) == (Settings {
            columns: n,
            ..settings
        }),
        with_property(settings, Property::Lines, Value::UInt(n)) == (Settings {
            lines: n,
            ..settings
        }),
        with_property(settings, Property::ClearAfter, Value::UInt(n)) == (Settings {
            clear_after_ms: n,
            ..settings
        }),
        with_property(settings, Property::BreakOnSentence, Value::Bool(b)) == (Settings {
            break_on_sentence: b,
            ..settings
        }),
        property_of(settings, Property::Columns) == Value::UInt(settings.columns),
        property_of(settings, Property::Lines) == Value::UInt(settings.lines),
        property_of(settings, Property::ClearAfter) == Value::UInt(settings.clear_after_ms),
        property_of(settings, Property::BreakOnSentence) == Value::Bool(settings.break_on_sentence),
        Property::Columns.takes(Value::UInt(n)) && !Property::Columns.takes(Value::Bool(b)),
        Property::Lines.takes(Value::UInt(n)) && !Property::Lines.takes(Value::Bool(b)),
        Property::ClearAfter.takes(Value::UInt(n)) && !Property::ClearAfter.takes(Value::Bool(b)),
        Property::BreakOnSentence.takes(Value::Bool(b)) && !Property::BreakOnSentence.takes(
            Value::UInt(n),
        ),
{
}

/// Each property has one name, and no other name has a property.
pub proof fn law_property_names(name: Seq<char>)
    ensures
        property_named(name) == Some(Property::Columns) <==> name == "columns"@,
        property_named(name) == Some(Property::Lines) <==> name == "lines"@,
        property_named(name) == Some(Property::ClearAfter) <==> name == "clear-after"@,
        property_named(name) == Some(Property::BreakOnSentence) <==> name == "break-on-sentence"@,
{
    reveal_strlit("columns");
    reveal_strlit("lines");
    reveal_strlit("clear-after");
    reveal_strlit("break-on-sentence");
    assert("columns"@.len() == 7);
    assert("lines"@.len() == 5);
    assert("clear-after"@.len() == 11);
    assert("break-on-sentence"@.len() == 17);
}

/// A buffer with text is within the range of the clock if its end is, and the
/// time at which the display is due to be cleared; any other buffer always is.
pub proof fn law_buffers_within_range(
    c: Caption,
    settings: Settings,
    pts: Option<ClockTime>,
    duration: Option<ClockTime>,
    data: Seq<u8>,
)
    ensures
        feed_fits(c, settings, pts, duration, data) <==> {
            pts is Some && valid_utf8(data) && has_text(decode_utf8(data)) && duration is Some && (
            duration->0).0 > 0 ==> {
                &&& (pts->0).0 + (duration->0).0 <= u64::MAX
                &&& settings.clear_after_ms > 0 && c.last_input_end is Some ==> (
                c.last_input_end->0).0 + settings.clear_after_ms * 1_000_000 <= u64::MAX
            }
        },
{
    assert(duration is Some && (duration->0).0 == 0 ==> duration == Some(ClockTime(0)));
}

/// A gap is within the range of the clock if its end is and, unless it is
/// ignored, the time at which the display is due to be cleared. All other
/// events always are.
pub proof fn law_events_within_range(
    c: Caption,
    settings: Settings,
    event: Event,
    start: ClockTime,
    duration: Option<ClockTime>,
)
    ensures
        gap_fits(c, settings, start, duration) <==> {
            &&& gap_end(start, duration) <= u64::MAX
            &&& (c.frontier matches Some(f) && gap_end(start, duration) < f.0) || (
            settings.clear_after_ms > 0 && c.last_input_end is Some ==> (c.last_input_end->0).0
                + settings.clear_after_ms * 1_000_000 <= u64::MAX)
        },
        event is Gap ==> event_fits(c, settings, event) == gap_fits(
            c,
            settings,
            event->Gap_0,
            event->Gap_1,
        ),
        !(event is Gap) ==> event_fits(c, settings, event),
{
}

} // verus!
