//! The element's state machine. The wall clock comes in as readings in
//! nanoseconds from some fixed origin.

use vstd::prelude::*;

use crate::clock::{later, mseconds, or_zero, sum, sum_fits, ClockTime, MSECOND};
use crate::event::{final_transcript, is_final_transcript, Event, StateChange};

verus! {

pub const DEFAULT_KEEPALIVE_MS: u32 = 0;

pub const DEFAULT_STALL_MS: u32 = 0;

/// The element's properties.
#[derive(Debug, Clone, Copy, PartialEq, Eq, Structural)]
pub struct Settings {
    /// While playing, a gap is emitted at the frontier every this many
    /// milliseconds; 0 is off.
    pub keepalive_ms: u32,
    /// When upstream has been silent for this many milliseconds, the frontier
    /// advances at the keepalive cadence; 0 is off.
    pub stall_ms: u32,
}

/// The properties of a new element.
pub open spec fn default_settings() -> Settings {
    Settings { keepalive_ms: DEFAULT_KEEPALIVE_MS, stall_ms: DEFAULT_STALL_MS }
}

impl Default for Settings {
    fn default() -> (r: Self)
        ensures
            r == default_settings(),
    {
        Settings { keepalive_ms: DEFAULT_KEEPALIVE_MS, stall_ms: DEFAULT_STALL_MS }
    }
}

/// What has been observed on the sink pad.
#[derive(Debug, Clone, Copy, PartialEq, Eq, Structural)]
pub struct State {
    /// Furthest end of a buffer or gap observed on the sink pad (media time).
    pub frontier: Option<ClockTime>,
    /// Start of the current segment, for anchoring before the first event.
    pub segment_start: Option<ClockTime>,
    /// Wall clock from which upstream's silence is counted: the last word or
    /// gap, or the segment before any.
    pub last_upstream_at: Option<u128>,
}

/// The state before anything was observed.
pub open spec fn unobserved() -> State {
    State { frontier: None, segment_start: None, last_upstream_at: None }
}

impl Default for State {
    fn default() -> (r: Self)
        ensures
            r == unobserved(),
    {
        State { frontier: None, segment_start: None, last_upstream_at: None }
    }
}

/// The state after a buffer or gap from `pts` for `duration` was observed at
/// `now`.
pub open spec fn observed(s: State, pts: ClockTime, duration: ClockTime, now: u128) -> State {
    let end = sum(pts, duration);
    State {
        frontier: Some(
            match s.frontier {
                Some(frontier) => later(frontier, end),
                None => end,
            },
        ),
        last_upstream_at: Some(now),
        ..s
    }
}

/// Where a keepalive gap would stand: at the frontier, or at the start of the
/// segment before anything was observed.
pub open spec fn anchor(s: State) -> Option<ClockTime> {
    match s.frontier {
        Some(frontier) => Some(frontier),
        None => s.segment_start,
    }
}

/// Whether upstream has been silent for the stall time at `now`.
pub open spec fn stalled(s: State, settings: Settings, now: u128) -> bool {
    &&& settings.stall_ms > 0
    &&& s.last_upstream_at matches Some(last)
    &&& now - last >= settings.stall_ms * MSECOND
}

/// Whether a tick at `now` emits a gap.
pub open spec fn ticks(s: State, settings: Settings, playing: bool) -> bool {
    settings.keepalive_ms > 0 && playing && anchor(s) is Some
}

/// The state after a tick, and where it emits a gap, if it does. A stalled
/// upstream moves the frontier on by one interval.
pub open spec fn ticked(s: State, settings: Settings, playing: bool, now: u128) -> (
    State,
    Option<ClockTime>,
) {
    if !ticks(s, settings, playing) {
        (s, None)
    } else if stalled(s, settings, now) {
        let moved = sum(anchor(s)->0, mseconds(settings.keepalive_ms));
        (State { frontier: Some(moved), ..s }, Some(moved))
    } else {
        (s, anchor(s))
    }
}

/// Whether a tick stays within the range of the clock.
pub open spec fn tick_fits(s: State, settings: Settings, playing: bool, now: u128) -> bool {
    ticks(s, settings, playing) && stalled(s, settings, now) ==> sum_fits(
        anchor(s)->0,
        mseconds(settings.keepalive_ms),
    )
}

impl State {
    /// Forgets everything.
    pub fn reset(&mut self)
        ensures
            *final(self) == unobserved(),
    {
        *self = State { frontier: None, segment_start: None, last_upstream_at: None };
    }

    /// Where a keepalive gap would stand.
    fn anchor(&self) -> (r: Option<ClockTime>)
        ensures
            r == anchor(*self),
    {
        match self.frontier {
            Some(frontier) => Some(frontier),
            None => self.segment_start,
        }
    }

    /// Whether upstream has been silent for the stall time at `now`. A reading
    /// from before the last observation counts as no silence at all.
    fn is_stalled(&self, settings: &Settings, now: u128) -> (r: bool)
        ensures
            r == stalled(*self, *settings, now),
    {
        if settings.stall_ms == 0 {
            return false;
        }
        match self.last_upstream_at {
            Some(last) => now >= last && now - last >= ClockTime::from_mseconds(
                settings.stall_ms,
            ).0 as u128,
            None => false,
        }
    }
}

/// What becomes of an event on the sink pad.
#[derive(Debug, Clone, Copy, PartialEq, Eq, Structural)]
pub enum Action {
    /// The pad's default handling.
    Default,
    /// The event goes to the source pad as it is.
    Forward,
    /// The event ends here.
    Consume,
}

/// What becomes of the keepalive worker.
#[derive(Debug, Clone, Copy, PartialEq, Eq, Structural)]
pub enum Worker {
    /// A worker that runs is stopped; there is none from then on.
    Disarm,
    /// A worker that runs is stopped, and one that ticks every so many
    /// milliseconds takes its place.
    Arm(u32),
    /// A worker that runs goes on.
    Leave,
}

/// The worker that the interval asks for.
pub open spec fn worker_for(keepalive_ms: u32) -> Worker {
    if keepalive_ms == 0 {
        Worker::Disarm
    } else {
        Worker::Arm(keepalive_ms)
    }
}

/// What the keepalive worker does next.
#[derive(Debug, Clone, Copy, PartialEq, Eq, Structural)]
pub enum Step {
    /// Sleep for one interval.
    Sleep,
    /// Tick the element.
    Tick,
    /// End.
    Exit,
}

/// A property of the element.
#[derive(Debug, Clone, Copy, PartialEq, Eq, Structural)]
pub enum Property {
    KeepaliveMs,
    StallMs,
}

/// The property of that name, if there is one.
pub open spec fn property_named(name: Seq<char>) -> Option<Property> {
    if name == "keepalive-ms"@ {
        Some(Property::KeepaliveMs)
    } else if name == "stall-ms"@ {
        Some(Property::StallMs)
    } else {
        None
    }
}

/// The settings with one property set.
pub open spec fn with_property(settings: Settings, property: Property, value: u32) -> Settings {
    match property {
        Property::KeepaliveMs => Settings { keepalive_ms: value, ..settings },
        Property::StallMs => Settings { stall_ms: value, ..settings },
    }
}

/// The value that a property has in `settings`.
pub open spec fn property_of(settings: Settings, property: Property) -> u32 {
    match property {
        Property::KeepaliveMs => settings.keepalive_ms,
        Property::StallMs => settings.stall_ms,
    }
}

impl Property {
    /// The property of that name, if there is one.
    pub fn from_name(name: &str) -> (r: Option<Property>)
        ensures
            r == property_named(name@),
    {
        let name = name.to_owned();
        if name == "keepalive-ms".to_owned() {
            Some(Property::KeepaliveMs)
        } else if name == "stall-ms".to_owned() {
            Some(Property::StallMs)
        } else {
            None
        }
    }

    /// The value that the property has in a new element.
    pub fn default_value(self) -> (r: u32)
        ensures
            r == property_of(default_settings(), self),
    {
        match self {
            Property::KeepaliveMs => DEFAULT_KEEPALIVE_MS,
            Property::StallMs => DEFAULT_STALL_MS,
        }
    }

    /// The name of the property.
    pub fn name(self) -> (r: &'static str)
        ensures
            property_named(r@) == Some(self),
            r@ == (match self {
                Property::KeepaliveMs => "keepalive-ms",
                Property::StallMs => "stall-ms",
            })@,
    {
        proof {
            reveal_strlit("keepalive-ms");
            reveal_strlit("stall-ms");
            assert("keepalive-ms"@.len() == 12);
            assert("stall-ms"@.len() == 8);
        }
        match self {
            Property::KeepaliveMs => "keepalive-ms",
            Property::StallMs => "stall-ms",
        }
    }
}

/// The keepalive filter: its properties and what it has observed.
#[derive(Debug, Clone, Copy, PartialEq, Eq, Structural)]
pub struct GapKeeper {
    pub settings: Settings,
    pub state: State,
}

impl GapKeeper {
    /// An element with default properties that has observed nothing.
    pub fn new() -> (r: Self)
        ensures
            r == (GapKeeper { settings: default_settings(), state: unobserved() }),
    {
        GapKeeper { settings: Settings::default(), state: State::default() }
    }

    /// Folds a buffer or gap from `pts` for `duration`, seen at `now`, into the
    /// frontier.
    pub fn observe(&mut self, pts: ClockTime, duration: ClockTime, now: u128)
        requires
            sum_fits(pts, duration),
        ensures
            final(self).settings == old(self).settings,
            final(self).state == observed(old(self).state, pts, duration, now),
            final(self).state.last_upstream_at == Some(now),
            final(self).state.segment_start == old(self).state.segment_start,
            final(self).state.frontier matches Some(frontier) && frontier.0 >= pts.0 + duration.0,
    {
        self.state.last_upstream_at = Some(now);
        let candidate = pts.plus(duration);
        match self.state.frontier {
            Some(frontier) => {
                if candidate.0 > frontier.0 {
                    self.state.frontier = Some(candidate);
                }
            },
            None => {
                self.state.frontier = Some(candidate);
            },
        }
    }

    /// Whether a tick stays within the range of the clock.
    pub fn keepalive_tick_fits(&self, playing: bool, now: u128) -> (r: bool)
        ensures
            r == tick_fits(self.state, self.settings, playing, now),
    {
        if self.settings.keepalive_ms == 0 || !playing || !self.state.is_stalled(
            &self.settings,
            now,
        ) {
            return true;
        }
        match self.state.anchor() {
            Some(anchor) => anchor.checked_add(
                ClockTime::from_mseconds(self.settings.keepalive_ms),
            ).is_some(),
            None => true,
        }
    }

    /// A tick of the keepalive timer at `now`. Gives where a gap is to be
    /// emitted, if one is. The gap has no duration: a wall-clock tick has no
    /// evidence for how long the silence will last.
    pub fn keepalive_tick(&mut self, playing: bool, now: u128) -> (r: Option<ClockTime>)
        requires
            tick_fits(old(self).state, old(self).settings, playing, now),
        ensures
            final(self).settings == old(self).settings,
            (final(self).state, r) == ticked(old(self).state, old(self).settings, playing, now),
    {
        let interval_ms = self.settings.keepalive_ms;
        if interval_ms == 0 {
            return None;
        }
        if !playing {
            return None;
        }
        let anchor = match self.state.anchor() {
            Some(anchor) => anchor,
            None => return None,
        };
        if self.state.is_stalled(&self.settings, now) {
            let moved = anchor.plus(ClockTime::from_mseconds(interval_ms));
            self.state.frontier = Some(moved);
            Some(moved)
        } else {
            Some(anchor)
        }
    }

    /// The worker that is to run from now on.
    pub fn arm_keepalive(&self) -> (r: Worker)
        ensures
            r == worker_for(self.settings.keepalive_ms),
    {
        let interval_ms = self.settings.keepalive_ms;
        if interval_ms == 0 {
            Worker::Disarm
        } else {
            Worker::Arm(interval_ms)
        }
    }

    /// What the worker does next: it sleeps, then ticks, until it is told to
    /// stop or the element is gone. It looks for the stop flag before it sleeps
    /// and again when it has slept.
    pub fn worker_step(slept: bool, stop: bool, alive: bool) -> (r: Step)
        ensures
            r == if stop {
                Step::Exit
            } else if !slept {
                Step::Sleep
            } else if alive {
                Step::Tick
            } else {
                Step::Exit
            },
    {
        if stop {
            Step::Exit
        } else if !slept {
            Step::Sleep
        } else if alive {
            Step::Tick
        } else {
            Step::Exit
        }
    }

    /// Takes a buffer that passes through at `now`. One without a timestamp is
    /// not observed.
    pub fn sink_chain(&mut self, pts: Option<ClockTime>, duration: Option<ClockTime>, now: u128)
        requires
            pts matches Some(start) ==> sum_fits(start, or_zero(duration)),
        ensures
            final(self).settings == old(self).settings,
            final(self).state == match pts {
                Some(start) => observed(old(self).state, start, or_zero(duration), now),
                None => old(self).state,
            },
    {
        if let Some(start) = pts {
            let length = match duration {
                Some(duration) => duration,
                None => ClockTime(0),
            };
            self.observe(start, length, now);
        }
    }

    /// Takes an event on the sink pad at `now`, and says what becomes of it.
    pub fn sink_event(&mut self, event: &Event, now: u128) -> (r: Action)
        requires
            *event matches Event::Gap(start, duration) ==> sum_fits(start, or_zero(duration)),
        ensures
            final(self).settings == old(self).settings,
            match *event {
                Event::StreamStart | Event::FlushStop => {
                    &&& final(self).state == unobserved()
                    &&& r == Action::Default
                },
                Event::Segment(start) => {
                    &&& final(self).state == (State {
                        segment_start: start,
                        last_upstream_at: Some(now),
                        ..unobserved()
                    })
                    &&& r == Action::Default
                },
                Event::Gap(start, duration) => {
                    &&& final(self).state == observed(
                        old(self).state,
                        start,
                        or_zero(duration),
                        now,
                    )
                    &&& r == Action::Consume
                },
                Event::CustomDownstream(name) => {
                    &&& final(self).state == old(self).state
                    &&& r == (if final_transcript(name) {
                        Action::Forward
                    } else {
                        Action::Default
                    })
                },
                Event::Other => {
                    &&& final(self).state == old(self).state
                    &&& r == Action::Default
                },
            },
    {
        match event {
            Event::StreamStart | Event::FlushStop => {
                self.state.reset();
                Action::Default
            },
            Event::Segment(start) => {
                self.state.reset();
                self.state.segment_start = *start;
                // An upstream that dies before its first word stalls too.
                self.state.last_upstream_at = Some(now);
                Action::Default
            },
            Event::Gap(start, duration) => {
                let length = match duration {
                    Some(duration) => *duration,
                    None => ClockTime(0),
                };
                self.observe(*start, length, now);
                // This element owns gap emission downstream.
                Action::Consume
            },
            Event::CustomDownstream(name) => {
                if is_final_transcript(name) {
                    Action::Forward
                } else {
                    Action::Default
                }
            },
            Event::Other => Action::Default,
        }
    }

    /// Sets a property. The worker is replaced so that the change takes effect
    /// while playing.
    pub fn set_property(&mut self, property: Property, value: u32) -> (r: Worker)
        ensures
            final(self).settings == with_property(old(self).settings, property, value),
            final(self).state == old(self).state,
            r == worker_for(final(self).settings.keepalive_ms),
    {
        match property {
            Property::KeepaliveMs => {
                self.settings.keepalive_ms = value;
            },
            Property::StallMs => {
                self.settings.stall_ms = value;
            },
        }
        self.arm_keepalive()
    }

    /// The value of a property.
    pub fn property(&self, property: Property) -> (r: u32)
        ensures
            r == property_of(self.settings, property),
    {
        match property {
            Property::KeepaliveMs => self.settings.keepalive_ms,
            Property::StallMs => self.settings.stall_ms,
        }
    }

    /// Takes a change of the element's state, and says what becomes of the
    /// worker. Leaving the paused state forgets what was observed.
    pub fn change_state(&mut self, transition: StateChange) -> (r: Worker)
        ensures
            final(self).settings == old(self).settings,
            match transition {
                StateChange::ReadyToPaused => {
                    &&& final(self).state == old(self).state
                    &&& r == worker_for(old(self).settings.keepalive_ms)
                },
                StateChange::PausedToReady => {
                    &&& final(self).state == unobserved()
                    &&& r == Worker::Disarm
                },
                StateChange::Other => {
                    &&& final(self).state == old(self).state
                    &&& r == Worker::Leave
                },
            },
    {
        match transition {
            StateChange::ReadyToPaused => self.arm_keepalive(),
            StateChange::PausedToReady => {
                self.state.reset();
                Worker::Disarm
            },
            StateChange::Other => Worker::Leave,
        }
    }
}

} // verus!
