//! The roll-up caption filter.

pub mod element;
pub mod element_laws;
pub mod laws;
pub mod screen_laws;
pub mod window;
pub mod window_laws;

pub use element::TextRollup;
