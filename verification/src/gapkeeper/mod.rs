//! Pad-observed keepalive and stall watchdog for sparse streams.
//!
//! A muxer aggregating a pad cannot close a cluster while the pad is empty,
//! and a non-live aggregator has no timeout: silence on one pad stalls the
//! whole publication. This element watches its sink pad and guarantees that it
//! is never empty for longer than the keepalive interval: it emits a gap event
//! at the observed frontier on a timer, and, when upstream has been silent for
//! the stall time, it advances the frontier at the tick cadence so that a dead
//! upstream cannot pin the mux forever. Silence counts from the last word or gap
//! of a segment, or from the segment itself before any.
//!
//! It does not interpret the stream: buffers pass through untouched, and
//! upstream gap events are consumed (this element owns gap emission
//! downstream) after their spans are folded into the frontier.

pub mod element;
pub mod element_laws;
pub mod laws;

pub use element::GapKeeper;
