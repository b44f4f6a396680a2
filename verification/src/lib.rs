//! Roll-up captions from timestamped words.
//!
//! [`rollup`] turns word-level text into a fixed roll-up window: completed
//! lines freeze and only the bottom line grows. [`gapkeeper`] keeps a sparse
//! pad covered with gaps while its upstream is silent.

pub mod clock;
pub mod clock_laws;
pub mod event;
pub mod gapkeeper;
pub mod rollup;
pub mod text;
pub mod text_laws;
