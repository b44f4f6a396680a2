//! The element's state machine: what each buffer, gap and event does to the
//! window, and what is sent downstream for it.
//!
//! All timing is media time. Nothing here reads a clock.

use vstd::prelude::*;
use vstd::utf8::{decode_utf8, valid_utf8};

use super::window::{at_least_one, run, Push, Screen, Window};
use super::window_laws::{law_geometry_is_kept, law_no_blank_state};
use crate::clock::{later, mseconds, or_zero, span, sum, sum_fits, ClockTime};
use crate::event::{final_transcript, is_final_transcript, Event, StateChange};
use crate::text::{blank, split_words, trim, views, white_space, words};
use crate::text::{lemma_trimmed_empty, lemma_words_are_solid, lemma_words_of_blank};

verus! {

pub const DEFAULT_COLUMNS: u32 = 42;

pub const DEFAULT_LINES: u32 = 2;

pub const DEFAULT_CLEAR_AFTER_MS: u32 = 3000;

pub const DEFAULT_BREAK_ON_SENTENCE: bool = true;

/// The element's properties.
#[derive(Debug, Clone, Copy, PartialEq, Eq, Structural)]
pub struct Settings {
    /// Maximum display width per line.
    pub columns: u32,
    /// Number of lines in the roll-up window.
    pub lines: u32,
    /// Media-time silence after the last input end before an explicit clear,
    /// in milliseconds; 0 never clears.
    pub clear_after_ms: u32,
    /// Finish the current line at sentence-final punctuation.
    pub break_on_sentence: bool,
}

/// The properties of a new element.
pub open spec fn default_settings() -> Settings {
    Settings {
        columns: DEFAULT_COLUMNS,
        lines: DEFAULT_LINES,
        clear_after_ms: DEFAULT_CLEAR_AFTER_MS,
        break_on_sentence: DEFAULT_BREAK_ON_SENTENCE,
    }
}

impl Default for Settings {
    fn default() -> (r: Self)
        ensures
            r == default_settings(),
            r.columns == 42,
            r.lines == 2,
            r.clear_after_ms == 3000,
            r.break_on_sentence,
    {
        Settings {
            columns: DEFAULT_COLUMNS,
            lines: DEFAULT_LINES,
            clear_after_ms: DEFAULT_CLEAR_AFTER_MS,
            break_on_sentence: DEFAULT_BREAK_ON_SENTENCE,
        }
    }
}

/// What a [`State`] holds.
pub ghost struct Caption {
    pub screen: Screen,
    pub last_input_end: Option<ClockTime>,
    pub frontier: Option<ClockTime>,
}

/// The text of `screen` in the geometry that `settings` ask for.
pub open spec fn shaped(screen: Screen, settings: Settings) -> Screen {
    Screen {
        columns: at_least_one(settings.columns as nat),
        lines: at_least_one(settings.lines as nat),
        break_on_sentence: settings.break_on_sentence,
        ..screen
    }
}

/// A window without text in the geometry that `settings` ask for.
pub open spec fn fresh_screen(settings: Settings) -> Screen {
    Screen::empty(
        at_least_one(settings.columns as nat),
        at_least_one(settings.lines as nat),
        settings.break_on_sentence,
    )
}

/// The state before any input.
pub open spec fn fresh(settings: Settings) -> Caption {
    Caption { screen: fresh_screen(settings), last_input_end: None, frontier: None }
}

impl Caption {
    /// Nothing on display any more; the timeline goes on.
    pub open spec fn display_reset(self) -> Caption {
        Caption { screen: self.screen.cleared(), last_input_end: None, ..self }
    }

    /// Nothing on display any more, and a new timeline.
    pub open spec fn timeline_reset(self) -> Caption {
        Caption { screen: self.screen.cleared(), last_input_end: None, frontier: None }
    }

    /// When the display is due to be cleared.
    pub open spec fn deadline(self, settings: Settings) -> Option<ClockTime> {
        match self.last_input_end {
            Some(end) if settings.clear_after_ms > 0 => Some(
                sum(end, mseconds(settings.clear_after_ms)),
            ),
            _ => None,
        }
    }

    /// Whether the clear deadline is within the range of the clock.
    pub open spec fn deadline_fits(self, settings: Settings) -> bool {
        self.last_input_end matches Some(end) ==> settings.clear_after_ms > 0 ==> sum_fits(
            end,
            mseconds(settings.clear_after_ms),
        )
    }
}

/// The window, and the media time that its clearing is derived from.
#[derive(Debug)]
pub struct State {
    pub window: Window,
    /// End of the most recent non-empty input buffer. Clear timing is derived
    /// from this media timestamp, never from buffer arrival or wall-clock time.
    pub last_input_end: Option<ClockTime>,
    /// Furthest gap frontier seen in this segment, used to reject regressions.
    pub frontier: Option<ClockTime>,
}

impl View for State {
    type V = Caption;

    open spec fn view(&self) -> Caption {
        Caption {
            screen: self.window@,
            last_input_end: self.last_input_end,
            frontier: self.frontier,
        }
    }
}

impl Default for State {
    fn default() -> (r: Self)
        ensures
            r@ == fresh(default_settings()),
            r@.screen.wf(),
    {
        State {
            window: Window::new(
                DEFAULT_COLUMNS as usize,
                DEFAULT_LINES as usize,
                DEFAULT_BREAK_ON_SENTENCE,
            ),
            last_input_end: None,
            frontier: None,
        }
    }
}

/// `n`, or one in place of zero.
fn positive(n: u32) -> (r: usize)
    ensures
        r == at_least_one(n as nat),
{
    if n == 0 {
        1
    } else {
        n as usize
    }
}

impl State {
    /// Forgets everything and takes the geometry from `settings`.
    pub fn reset_all(&mut self, settings: &Settings)
        ensures
            final(self)@ == fresh(*settings),
            final(self)@.screen.wf(),
            final(self)@.screen.done.len() == 0,
            final(self)@.screen.current.len() == 0,
            final(self)@.screen.columns == (if settings.columns == 0 {
                1
            } else {
                settings.columns as int
            }),
            final(self)@.screen.lines == (if settings.lines == 0 {
                1
            } else {
                settings.lines as int
            }),
            final(self)@.screen.break_on_sentence == settings.break_on_sentence,
            final(self).last_input_end is None,
            final(self).frontier is None,
    {
        *self =
        State {
            window: Window::new(
                positive(settings.columns),
                positive(settings.lines),
                settings.break_on_sentence,
            ),
            last_input_end: None,
            frontier: None,
        };
    }

    /// A new segment is a discontinuity. Carrying the old window across it
    /// would stamp stale text onto an unrelated timeline.
    pub fn reset_timeline(&mut self)
        ensures
            final(self)@ == old(self)@.timeline_reset(),
            final(self)@.screen.done.len() == 0,
            final(self)@.screen.current.len() == 0,
            final(self).last_input_end is None,
            final(self).frontier is None,
            old(self)@.screen.wf() ==> final(self)@.screen.wf(),
    {
        self.window.clear();
        self.last_input_end = None;
        self.frontier = None;
    }

    /// Forgets the text and when it was last extended.
    pub fn reset_display(&mut self)
        ensures
            final(self)@ == old(self)@.display_reset(),
            final(self)@.screen.done.len() == 0,
            final(self)@.screen.current.len() == 0,
            final(self).last_input_end is None,
            final(self).frontier == old(self).frontier,
            old(self)@.screen.wf() ==> final(self)@.screen.wf(),
    {
        self.window.clear();
        self.last_input_end = None;
    }

    /// Takes the geometry from `settings` for future wrapping; lines that are
    /// already frozen stay as they are.
    pub fn apply_settings(&mut self, settings: &Settings)
        ensures
            final(self)@ == (Caption {
                screen: shaped(old(self)@.screen, *settings),
                ..old(self)@
            }),
            final(self)@.screen.columns == (if settings.columns == 0 {
                1
            } else {
                settings.columns as int
            }),
            final(self)@.screen.lines == (if settings.lines == 0 {
                1
            } else {
                settings.lines as int
            }),
            final(self)@.screen.break_on_sentence == settings.break_on_sentence,
            final(self)@.screen.done == old(self)@.screen.done,
            final(self)@.screen.current == old(self)@.screen.current,
            final(self).last_input_end == old(self).last_input_end,
            final(self).frontier == old(self).frontier,
            old(self)@.screen.wf() ==> final(self)@.screen.wf(),
    {
        self.window.set_columns(positive(settings.columns));
        self.window.set_lines(positive(settings.lines));
        self.window.set_break_on_sentence(settings.break_on_sentence);
    }

    /// When the display is due to be cleared.
    pub fn clear_deadline(&self, settings: &Settings) -> (r: Option<ClockTime>)
        requires
            self@.deadline_fits(*settings),
        ensures
            r == self@.deadline(*settings),
    {
        if settings.clear_after_ms == 0 {
            return None;
        }
        match self.last_input_end {
            Some(end) => Some(end.plus(ClockTime::from_mseconds(settings.clear_after_ms))),
            None => None,
        }
    }

    /// Whether the clear deadline is within the range of the clock.
    pub fn clear_deadline_fits(&self, settings: &Settings) -> (r: bool)
        ensures
            r == self@.deadline_fits(*settings),
    {
        match self.last_input_end {
            Some(end) => settings.clear_after_ms == 0 || end.checked_add(
                ClockTime::from_mseconds(settings.clear_after_ms),
            ).is_some(),
            None => true,
        }
    }
}

/// Work to push downstream once the state is no longer in use. A downstream
/// queue may block; it must not keep the settings from being changed.
#[derive(Debug, PartialEq, Eq)]
pub enum Out {
    /// A gap event: start, and duration if known.
    Gap(ClockTime, Option<ClockTime>),
    /// A buffer that replaces what is on display: timestamp, duration, text.
    Cue(ClockTime, ClockTime, String),
}

/// What an [`Out`] says.
pub ghost enum Sent {
    Gap(ClockTime, Option<ClockTime>),
    Cue(ClockTime, ClockTime, Seq<char>),
}

impl View for Out {
    type V = Sent;

    open spec fn view(&self) -> Sent {
        match *self {
            Out::Gap(start, duration) => Sent::Gap(start, duration),
            Out::Cue(pts, duration, text) => Sent::Cue(pts, duration, text@),
        }
    }
}

/// What a list of [`Out`]s says.
pub open spec fn sent(out: Seq<Out>) -> Seq<Sent> {
    out.map_values(|o: Out| o@)
}

/// The authoritative blank state.
pub open spec fn clear_cue(at: ClockTime) -> Sent {
    Sent::Cue(at, ClockTime(0), Seq::empty())
}

/// Why an input buffer is refused.
#[derive(Debug, Clone, Copy, PartialEq, Eq, Structural)]
pub enum Fault {
    /// The buffer has no timestamp.
    Untimed,
    /// The buffer is not valid UTF-8.
    NotUtf8,
    /// The buffer has text but no duration.
    NoDuration,
    /// The buffer has text but a duration of zero.
    ZeroDuration,
}

/// Why a buffer is refused, if it is.
pub open spec fn refusal(
    pts: Option<ClockTime>,
    duration: Option<ClockTime>,
    data: Seq<u8>,
) -> Option<Fault> {
    if pts is None {
        Some(Fault::Untimed)
    } else if !valid_utf8(data) {
        Some(Fault::NotUtf8)
    } else if blank(decode_utf8(data)) {
        None
    } else if duration is None {
        Some(Fault::NoDuration)
    } else if duration == Some(ClockTime(0)) {
        Some(Fault::ZeroDuration)
    } else {
        None
    }
}

/// The clear that is due before a word at `pts`, if any: the state after it,
/// and what is sent.
pub open spec fn missed_clear(c: Caption, settings: Settings, pts: ClockTime) -> (
    Caption,
    Seq<Sent>,
) {
    match c.deadline(settings) {
        Some(deadline) if pts.0 >= deadline.0 => (c.display_reset(), seq![clear_cue(deadline)]),
        _ => (c, Seq::empty()),
    }
}

/// The state after accepted text, and what is sent for it. Blank text is an
/// explicit clear; any other text is one update of the window, which is sent
/// whole at the timing of the input.
pub open spec fn fed(
    c: Caption,
    settings: Settings,
    pts: ClockTime,
    duration: Option<ClockTime>,
    text: Seq<char>,
) -> (Caption, Seq<Sent>) {
    if blank(text) {
        (c.display_reset(), seq![clear_cue(pts)])
    } else {
        let (base, cleared) = missed_clear(c, settings, pts);
        let screen = run(base.screen, words(text));
        (
            Caption {
                screen,
                last_input_end: Some(sum(pts, or_zero(duration))),
                frontier: base.frontier,
            },
            cleared.push(Sent::Cue(pts, or_zero(duration), screen.rendered())),
        )
    }
}

/// Whether all times that come up while a buffer is handled are within the
/// range of the clock.
pub open spec fn feed_fits(
    c: Caption,
    settings: Settings,
    pts: Option<ClockTime>,
    duration: Option<ClockTime>,
    data: Seq<u8>,
) -> bool {
    refusal(pts, duration, data) is None && !blank(decode_utf8(data)) ==> {
        &&& c.deadline_fits(settings)
        &&& sum_fits(pts->0, duration->0)
    }
}

/// Whether a gap ends before the furthest one seen in this segment.
pub open spec fn regresses(c: Caption, end: ClockTime) -> bool {
    c.frontier matches Some(frontier) && end.0 < frontier.0
}

/// The furthest end of a gap seen, once one that ends at `end` has been.
pub open spec fn advanced(frontier: Option<ClockTime>, end: ClockTime) -> ClockTime {
    match frontier {
        Some(f) => later(f, end),
        None => end,
    }
}

/// What is sent for a gap that reaches a clear deadline. The gap is split so
/// that the clear stands at its exact media timestamp; a gap that starts after
/// the deadline is sent unchanged behind the missed clear.
pub open spec fn split_gap(
    start: ClockTime,
    duration: Option<ClockTime>,
    deadline: ClockTime,
) -> Seq<Sent> {
    let end = sum(start, or_zero(duration));
    let head = if start.0 < deadline.0 {
        seq![Sent::Gap(start, Some(span(start, deadline)))]
    } else {
        Seq::empty()
    };
    let tail = if start.0 > deadline.0 || start == deadline && duration != Some(ClockTime(0)) {
        seq![Sent::Gap(start, duration)]
    } else if end.0 > deadline.0 {
        seq![Sent::Gap(deadline, Some(span(deadline, end)))]
    } else {
        Seq::empty()
    };
    head.push(clear_cue(deadline)) + tail
}

/// The state after a gap, and what is sent for it.
pub open spec fn gapped(
    c: Caption,
    settings: Settings,
    start: ClockTime,
    duration: Option<ClockTime>,
) -> (Caption, Seq<Sent>) {
    let end = sum(start, or_zero(duration));
    if regresses(c, end) {
        (c, Seq::empty())
    } else {
        let on = Caption { frontier: Some(advanced(c.frontier, end)), ..c };
        match c.deadline(settings) {
            Some(deadline) if end.0 >= deadline.0 => (
                on.display_reset(),
                split_gap(start, duration, deadline),
            ),
            _ => (on, seq![Sent::Gap(start, duration)]),
        }
    }
}

/// Whether all times that come up while a gap is handled are within the range
/// of the clock.
pub open spec fn gap_fits(
    c: Caption,
    settings: Settings,
    start: ClockTime,
    duration: Option<ClockTime>,
) -> bool {
    &&& sum_fits(start, or_zero(duration))
    &&& !regresses(c, sum(start, or_zero(duration))) ==> c.deadline_fits(settings)
}

/// Whether all times that come up while an event is handled are within the
/// range of the clock.
pub open spec fn event_fits(c: Caption, settings: Settings, event: Event) -> bool {
    event matches Event::Gap(start, duration) ==> gap_fits(c, settings, start, duration)
}

/// What becomes of an event on the sink pad.
#[derive(Debug, PartialEq, Eq)]
pub enum Action {
    /// The pad's default handling.
    Default,
    /// The event goes to the source pad as it is.
    Forward,
    /// The event is consumed, and this goes downstream in its place.
    Flush(Vec<Out>),
}

/// A property of the element.
#[derive(Debug, Clone, Copy, PartialEq, Eq, Structural)]
pub enum Property {
    Columns,
    Lines,
    ClearAfter,
    BreakOnSentence,
}

/// The value of a property.
#[derive(Debug, Clone, Copy, PartialEq, Eq, Structural)]
pub enum Value {
    UInt(u32),
    Bool(bool),
}

/// The property of that name, if there is one.
pub open spec fn property_named(name: Seq<char>) -> Option<Property> {
    if name == "columns"@ {
        Some(Property::Columns)
    } else if name == "lines"@ {
        Some(Property::Lines)
    } else if name == "clear-after"@ {
        Some(Property::ClearAfter)
    } else if name == "break-on-sentence"@ {
        Some(Property::BreakOnSentence)
    } else {
        None
    }
}

/// The settings with one property set.
pub open spec fn with_property(settings: Settings, property: Property, value: Value) -> Settings {
    match (property, value) {
        (Property::Columns, Value::UInt(columns)) => Settings { columns, ..settings },
        (Property::Lines, Value::UInt(lines)) => Settings { lines, ..settings },
        (Property::ClearAfter, Value::UInt(clear_after_ms)) => Settings {
            clear_after_ms,
            ..settings
        },
        (Property::BreakOnSentence, Value::Bool(break_on_sentence)) => Settings {
            break_on_sentence,
            ..settings
        },
        _ => settings,
    }
}

/// The value that a property has in `settings`.
pub open spec fn property_of(settings: Settings, property: Property) -> Value {
    match property {
        Property::Columns => Value::UInt(settings.columns),
        Property::Lines => Value::UInt(settings.lines),
        Property::ClearAfter => Value::UInt(settings.clear_after_ms),
        Property::BreakOnSentence => Value::Bool(settings.break_on_sentence),
    }
}

impl Property {
    /// Whether `value` is of the kind that the property takes.
    pub open spec fn takes(self, value: Value) -> bool {
        match self {
            Property::BreakOnSentence => value is Bool,
            _ => value is UInt,
        }
    }

    /// The property of that name, if there is one.
    pub fn from_name(name: &str) -> (r: Option<Property>)
        ensures
            r == property_named(name@),
    {
        let name = name.to_owned();
        if name == "columns".to_owned() {
            Some(Property::Columns)
        } else if name == "lines".to_owned() {
            Some(Property::Lines)
        } else if name == "clear-after".to_owned() {
            Some(Property::ClearAfter)
        } else if name == "break-on-sentence".to_owned() {
            Some(Property::BreakOnSentence)
        } else {
            None
        }
    }

    /// The value that the property has in a new element.
    pub fn default_value(self) -> (r: Value)
        ensures
            r == property_of(default_settings(), self),
            self.takes(r),
    {
        match self {
            Property::Columns => Value::UInt(DEFAULT_COLUMNS),
            Property::Lines => Value::UInt(DEFAULT_LINES),
            Property::ClearAfter => Value::UInt(DEFAULT_CLEAR_AFTER_MS),
            Property::BreakOnSentence => Value::Bool(DEFAULT_BREAK_ON_SENTENCE),
        }
    }

    /// The least number that the property may be set to, if it is a number.
    pub fn minimum(self) -> (r: Option<u32>)
        ensures
            r == match self {
                Property::Columns | Property::Lines => Some(1u32),
                Property::ClearAfter => Some(0u32),
                Property::BreakOnSentence => None,
            },
    {
        match self {
            Property::Columns | Property::Lines => Some(1),
            Property::ClearAfter => Some(0),
            Property::BreakOnSentence => None,
        }
    }

    /// The name of the property.
    pub fn name(self) -> (r: &'static str)
        ensures
            property_named(r@) == Some(self),
            r@ == (match self {
                Property::Columns => "columns",
                Property::Lines => "lines",
                Property::ClearAfter => "clear-after",
                Property::BreakOnSentence => "break-on-sentence",
            })@,
    {
        proof {
            reveal_strlit("columns");
            reveal_strlit("lines");
            reveal_strlit("clear-after");
            reveal_strlit("break-on-sentence");
            assert("columns"@.len() == 7);
            assert("lines"@.len() == 5);
            assert("clear-after"@.len() == 11);
            assert("break-on-sentence"@.len() == 17);
        }
        match self {
            Property::Columns => "columns",
            Property::Lines => "lines",
            Property::ClearAfter => "clear-after",
            Property::BreakOnSentence => "break-on-sentence",
        }
    }
}

/// What a latency query is answered.
#[derive(Debug, Clone, Copy, PartialEq, Eq, Structural)]
pub struct Latency {
    pub live: bool,
    pub min: ClockTime,
    pub max: Option<ClockTime>,
}

/// The roll-up filter: its properties and its state.
#[derive(Debug)]
pub struct TextRollup {
    pub settings: Settings,
    pub state: State,
}

/// What taking a buffer does: the element before and after, and what it
/// answers.
pub open spec fn chained(
    before: TextRollup,
    pts: Option<ClockTime>,
    duration: Option<ClockTime>,
    data: Seq<u8>,
    after: TextRollup,
    r: Result<Vec<Out>, Fault>,
) -> bool {
    &&& after.settings == before.settings
    &&& match r {
        Err(fault) => {
            &&& refusal(pts, duration, data) == Some(fault)
            &&& after.state@ == before.state@
        },
        Ok(out) => {
            let (state, cues) = fed(
                before.state@,
                before.settings,
                pts->0,
                duration,
                decode_utf8(data),
            );
            &&& refusal(pts, duration, data) is None
            &&& after.state@ == state
            &&& sent(out@) == cues
        },
    }
}

/// What taking an event does: the element before and after, and what it
/// answers.
pub open spec fn handled(before: TextRollup, event: Event, after: TextRollup, r: Action) -> bool {
    &&& after.settings == before.settings
    &&& match event {
        Event::StreamStart | Event::FlushStop => {
            &&& after.state@ == fresh(before.settings)
            &&& r == Action::Default
        },
        Event::Segment(_) => {
            &&& after.state@ == before.state@.timeline_reset()
            &&& r == Action::Default
        },
        Event::Gap(start, duration) => {
            let (state, outs) = gapped(before.state@, before.settings, start, duration);
            &&& after.state@ == state
            &&& r matches Action::Flush(out)
            &&& sent(out@) == outs
        },
        Event::CustomDownstream(name) => {
            &&& after.state@ == before.state@
            &&& r == (if final_transcript(name) {
                Action::Forward
            } else {
                Action::Default
            })
        },
        Event::Other => {
            &&& after.state@ == before.state@
            &&& r == Action::Default
        },
    }
}

impl TextRollup {
    /// The window is well formed and has the geometry that the properties ask
    /// for.
    pub open spec fn wf(self) -> bool {
        &&& self.state@.screen.wf()
        &&& self.state@.screen == shaped(self.state@.screen, self.settings)
    }

    /// An element with default properties that has seen no input.
    pub fn new() -> (r: Self)
        ensures
            r.wf(),
            r.settings == default_settings(),
            r.state@ == fresh(r.settings),
    {
        TextRollup { settings: Settings::default(), state: State::default() }
    }

    /// Emits the authoritative blank state and forgets the old window.
    pub fn queue_clear(state: &mut State, out: &mut Vec<Out>, at: ClockTime)
        ensures
            final(state)@ == old(state)@.display_reset(),
            old(state)@.screen.wf() ==> final(state)@.screen.wf(),
            sent(final(out)@) == sent(old(out)@).push(clear_cue(at)),
    {
        let cue = Out::Cue(at, ClockTime(0), String::new());
        assert(cue@ == clear_cue(at));
        out.push(cue);
        assert(sent(out@) =~= sent(old(out)@).push(clear_cue(at)));
        state.reset_display();
    }

    /// If media time has crossed the display deadline, publishes the missed
    /// clear before another state is accepted. This covers sources that omit
    /// gap events without making the result depend on how quickly buffers
    /// arrive.
    pub fn clear_before_word(
        state: &mut State,
        settings: &Settings,
        out: &mut Vec<Out>,
        pts: ClockTime,
    )
        requires
            old(state)@.deadline_fits(*settings),
        ensures
            final(state)@ == missed_clear(old(state)@, *settings, pts).0,
            sent(final(out)@) == sent(old(out)@) + missed_clear(old(state)@, *settings, pts).1,
            old(state)@.screen.wf() ==> final(state)@.screen.wf(),
    {
        if let Some(deadline) = state.clear_deadline(settings) {
            if pts.0 >= deadline.0 {
                Self::queue_clear(state, out, deadline);
            }
        }
        assert(sent(out@) =~= sent(old(out)@) + missed_clear(old(state)@, *settings, pts).1);
    }

    /// Whether all times that come up while a buffer is handled are within the
    /// range of the clock.
    pub fn sink_chain_fits(
        &self,
        pts: Option<ClockTime>,
        duration: Option<ClockTime>,
        data: &[u8],
    ) -> (r: bool)
        ensures
            r == feed_fits(self.state@, self.settings, pts, duration, data@),
    {
        if let (Some(pts), Some(duration)) = (pts, duration) {
            if let Ok(text) = core::str::from_utf8(data) {
                proof {
                    lemma_trimmed_empty(text@);
                }
                if duration.0 > 0 && !trim(text).is_empty() {
                    return self.state.clear_deadline_fits(&self.settings) && pts.checked_add(
                        duration,
                    ).is_some();
                }
            }
        }
        true
    }

    /// Takes a buffer of text: its timestamp, its duration, its bytes. Gives
    /// what goes downstream for it, or why it is refused.
    pub fn sink_chain(
        &mut self,
        pts: Option<ClockTime>,
        duration: Option<ClockTime>,
        data: &[u8],
    ) -> (r: Result<Vec<Out>, Fault>)
        requires
            old(self).wf(),
            feed_fits(old(self).state@, old(self).settings, pts, duration, data@),
        ensures
            final(self).wf(),
            chained(*old(self), pts, duration, data@, *final(self), r),
    {
        let pts = match pts {
            Some(pts) => pts,
            None => return Err(Fault::Untimed),
        };
        let text = match core::str::from_utf8(data) {
            Ok(text) => text,
            Err(_) => return Err(Fault::NotUtf8),
        };
        proof {
            lemma_trimmed_empty(text@);
        }
        let mut out: Vec<Out> = Vec::new();
        if trim(text).is_empty() {
            // Empty UTF-8 is an explicit display transition, not silence.
            Self::queue_clear(&mut self.state, &mut out, pts);
            assert(sent(out@) =~= seq![clear_cue(pts)]);
            return Ok(out);
        }
        let duration = match duration {
            Some(duration) => duration,
            None => return Err(Fault::NoDuration),
        };
        if duration.0 == 0 {
            return Err(Fault::ZeroDuration);
        }
        Self::clear_before_word(&mut self.state, &self.settings, &mut out, pts);
        let ghost base = self.state@;
        let words_in = split_words(text);
        let ghost all = words(text@);
        proof {
            lemma_words_are_solid(text@);
            lemma_words_of_blank(text@);
        }
        let mut changed = false;
        let mut i: usize = 0;
        assert(all.take(0) =~= Seq::empty());
        while i < words_in.len()
            invariant
                i <= words_in.len(),
                views(words_in@) == all,
                forall|k: int| 0 <= k < all.len() ==> (#[trigger] all[k]).len() > 0,
                forall|k: int, j: int|
                    0 <= k < all.len() && 0 <= j < all[k].len() ==> !white_space(
                        #[trigger] all[k][j],
                    ),
                base.screen.wf(),
                self.state@ == (Caption { screen: run(base.screen, all.take(i as int)), ..base }),
                self.state@.screen.wf(),
                changed == (i > 0),
                self.settings == old(self).settings,
            decreases words_in.len() - i,
        {
            let ghost before = self.state@.screen;
            proof {
                assert(words_in@[i as int]@ == all[i as int]);
                assert(!white_space(all[i as int][0]));
                law_no_blank_state(before, all[i as int]);
                assert(all.take(i + 1).drop_last() =~= all.take(i as int));
            }
            match self.state.window.push_word(words_in[i].as_str()) {
                Push::Redraw(_) => {
                    changed = true;
                },
                Push::Unchanged => {},
            }
            i = i + 1;
        }
        assert(all.take(i as int) =~= all);
        proof {
            law_geometry_is_kept(base.screen, all);
        }
        if changed {
            // A multi-word input is one committed update: downstream sees only
            // the final complete window at the input timing.
            let rendered = self.state.window.render();
            let ghost earlier = out@;
            let cue = Out::Cue(pts, duration, rendered);
            out.push(cue);
            assert(sent(out@) =~= sent(earlier).push(cue@));
            self.state.last_input_end = Some(pts.plus(duration));
        }
        assert(sent(out@) =~= fed(
            old(self).state@,
            old(self).settings,
            pts,
            Some(duration),
            text@,
        ).1);
        Ok(out)
    }

    /// Whether all times that come up while an event is handled are within the
    /// range of the clock.
    pub fn sink_event_fits(&self, event: &Event) -> (r: bool)
        ensures
            r == event_fits(self.state@, self.settings, *event),
    {
        let (start, duration) = match event {
            Event::Gap(start, duration) => (*start, *duration),
            _ => return true,
        };
        let length = match duration {
            Some(duration) => duration,
            None => ClockTime(0),
        };
        match start.checked_add(length) {
            Some(end) => {
                let regressing = match self.state.frontier {
                    Some(frontier) => end.0 < frontier.0,
                    None => false,
                };
                regressing || self.state.clear_deadline_fits(&self.settings)
            },
            None => false,
        }
    }

    /// Takes a gap in the timeline, and appends what goes downstream for it.
    pub fn handle_gap(
        state: &mut State,
        settings: &Settings,
        out: &mut Vec<Out>,
        start: ClockTime,
        duration: Option<ClockTime>,
    )
        requires
            gap_fits(old(state)@, *settings, start, duration),
        ensures
            final(state)@ == gapped(old(state)@, *settings, start, duration).0,
            sent(final(out)@) == sent(old(out)@) + gapped(
                old(state)@,
                *settings,
                start,
                duration,
            ).1,
            old(state)@.screen.wf() ==> final(state)@.screen.wf(),
    {
        let length = match duration {
            Some(duration) => duration,
            None => ClockTime(0),
        };
        let end = start.plus(length);
        let ghost all = gapped(old(state)@, *settings, start, duration).1;
        let frontier = match state.frontier {
            Some(frontier) => {
                if end.0 < frontier.0 {
                    assert(sent(out@) =~= sent(old(out)@) + all);
                    return;
                }
                frontier.max(end)
            },
            None => end,
        };
        state.frontier = Some(frontier);
        assert(state@.deadline(*settings) == old(state)@.deadline(*settings));

        let deadline = match state.clear_deadline(settings) {
            Some(deadline) => deadline,
            None => {
                out.push(Out::Gap(start, duration));
                assert(sent(out@) =~= sent(old(out)@) + all);
                return;
            },
        };
        if end.0 < deadline.0 {
            out.push(Out::Gap(start, duration));
            assert(sent(out@) =~= sent(old(out)@) + all);
            return;
        }

        // Preserve full gap coverage while inserting the clear at its exact
        // media timestamp. When the supplied gap starts after the deadline,
        // emit the missed clear first and then forward the gap unchanged.
        if start.0 < deadline.0 {
            out.push(Out::Gap(start, Some(deadline.since(start))));
            assert(sent(out@) =~= sent(old(out)@).push(
                Sent::Gap(start, Some(span(start, deadline))),
            ));
        }
        Self::queue_clear(state, out, deadline);
        let ghost cleared = sent(out@);
        if start.0 > deadline.0 || (start.0 == deadline.0 && !(duration.is_some() && length.0
            == 0)) {
            out.push(Out::Gap(start, duration));
            assert(sent(out@) =~= cleared.push(Sent::Gap(start, duration)));
        } else if end.0 > deadline.0 {
            out.push(Out::Gap(deadline, Some(end.since(deadline))));
            assert(sent(out@) =~= cleared.push(
                Sent::Gap(deadline, Some(span(deadline, end))),
            ));
        }
        assert(sent(out@) =~= sent(old(out)@) + all);
    }

    /// Takes an event on the sink pad, and says what becomes of it.
    pub fn sink_event(&mut self, event: &Event) -> (r: Action)
        requires
            old(self).wf(),
            event_fits(old(self).state@, old(self).settings, *event),
        ensures
            final(self).wf(),
            handled(*old(self), *event, *final(self), r),
    {
        match event {
            Event::StreamStart | Event::FlushStop => {
                self.state.reset_all(&self.settings);
                Action::Default
            },
            Event::Segment(_) => {
                self.state.reset_timeline();
                Action::Default
            },
            Event::Gap(start, duration) => {
                let mut out: Vec<Out> = Vec::new();
                Self::handle_gap(&mut self.state, &self.settings, &mut out, *start, *duration);
                assert(sent(out@) =~= gapped(
                    old(self).state@,
                    old(self).settings,
                    *start,
                    *duration,
                ).1);
                Action::Flush(out)
            },
            Event::CustomDownstream(name) => {
                if is_final_transcript(name) {
                    Action::Forward
                } else {
                    Action::Default
                }
            },
            Event::Other => Action::Default,
        }
    }

    /// Whether the items behind `item` are still pushed, after `item` itself
    /// was pushed and taken or not. Only a refused cue ends the work; what
    /// becomes of a gap event does not matter.
    pub fn flush_continues(item: &Out, taken: bool) -> (r: bool)
        ensures
            r == (item is Gap || taken),
    {
        match item {
            Out::Gap(_, _) => true,
            Out::Cue(_, _, _) => taken,
        }
    }

    /// Answers a latency query on the source pad from the upstream answer, if
    /// there was one. Formatting adds no latency.
    pub fn src_query(upstream: Option<Latency>) -> (r: Option<Latency>)
        ensures
            r == upstream,
    {
        match upstream {
            Some(latency) => Some(
                Latency { live: latency.live, min: latency.min, max: latency.max },
            ),
            None => None,
        }
    }

    /// Sets a property. The geometry affects future wrapping only.
    pub fn set_property(&mut self, property: Property, value: Value)
        requires
            old(self).wf(),
            property.takes(value),
        ensures
            final(self).wf(),
            final(self).settings == with_property(old(self).settings, property, value),
            final(self).state@ == (Caption {
                screen: shaped(old(self).state@.screen, final(self).settings),
                ..old(self).state@
            }),
            property == Property::ClearAfter ==> final(self).state@ == old(self).state@,
            final(self).state@.screen.columns == (if final(self).settings.columns
                == 0 {
                1
            } else {
                final(self).settings.columns as int
            }),
            final(self).state@.screen.lines == (if final(self).settings.lines == 0 {
                1
            } else {
                final(self).settings.lines as int
            }),
            final(self).state@.screen.break_on_sentence == final(self).settings.break_on_sentence,
            final(self).state@.screen.done == old(self).state@.screen.done,
            final(self).state@.screen.current == old(self).state@.screen.current,
            final(self).state@.last_input_end == old(self).state@.last_input_end,
            final(self).state@.frontier == old(self).state@.frontier,
    {
        let mut geometry_changed = false;
        match (property, value) {
            (Property::Columns, Value::UInt(n)) => {
                self.settings.columns = n;
                geometry_changed = true;
            },
            (Property::Lines, Value::UInt(n)) => {
                self.settings.lines = n;
                geometry_changed = true;
            },
            (Property::ClearAfter, Value::UInt(n)) => {
                self.settings.clear_after_ms = n;
            },
            (Property::BreakOnSentence, Value::Bool(b)) => {
                self.settings.break_on_sentence = b;
                geometry_changed = true;
            },
            _ => {},
        }
        if geometry_changed {
            self.state.apply_settings(&self.settings);
        }
    }

    /// The value of a property.
    pub fn property(&self, property: Property) -> (r: Value)
        ensures
            r == property_of(self.settings, property),
    {
        match property {
            Property::Columns => Value::UInt(self.settings.columns),
            Property::Lines => Value::UInt(self.settings.lines),
            Property::ClearAfter => Value::UInt(self.settings.clear_after_ms),
            Property::BreakOnSentence => Value::Bool(self.settings.break_on_sentence),
        }
    }

    /// Takes a change of the element's state: leaving the paused state forgets
    /// everything but the properties.
    pub fn change_state(&mut self, transition: StateChange)
        requires
            old(self).wf(),
        ensures
            final(self).wf(),
            final(self).settings == old(self).settings,
            final(self).state@ == (if transition == StateChange::PausedToReady {
                fresh(old(self).settings)
            } else {
                old(self).state@
            }),
    {
        match transition {
            StateChange::PausedToReady => self.state.reset_all(&self.settings),
            _ => {},
        }
    }
}

} // verus!
