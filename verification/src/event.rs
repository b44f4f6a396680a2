//! What reaches an element from the pipeline around it.

use vstd::prelude::*;

use crate::clock::ClockTime;

verus! {

/// An event on a sink pad.
#[derive(Debug, PartialEq, Eq)]
pub enum Event {
    StreamStart,
    /// A new segment, with its start where it is given in time.
    Segment(Option<ClockTime>),
    FlushStop,
    /// A hole in the timeline: where it starts, and how long it is if known.
    Gap(ClockTime, Option<ClockTime>),
    /// A custom downstream event, with the name of its structure if it has one.
    CustomDownstream(Option<String>),
    Other,
}

/// A change of an element's state.
#[derive(Debug, Clone, Copy, PartialEq, Eq, Structural)]
pub enum StateChange {
    ReadyToPaused,
    PausedToReady,
    Other,
}

/// Whether a custom event announces a final transcript.
pub open spec fn final_transcript(name: Option<String>) -> bool {
    name matches Some(n) && n@ == "rstranscribe/final-transcript"@
}

/// Whether a custom event announces a final transcript.
pub fn is_final_transcript(name: &Option<String>) -> (r: bool)
    ensures
        r == final_transcript(*name),
        r <==> (*name matches Some(n) && n@ == "rstranscribe/final-transcript"@),
{
    match name {
        Some(n) => *n == "rstranscribe/final-transcript".to_owned(),
        None => false,
    }
}

} // verus!
