//! A small music-composition library with an exactly-verified core:
//! rational bar time, straight-subdivision rhythm patterns, micro-timing
//! resolution onto an integer tick grid, and note-event rendering, plus
//! the key / interval / pitch arithmetic that feeds it.

pub mod keys;
pub mod note;
pub mod math;
pub mod pitch;
pub mod chords;
pub mod intervals;
pub mod rational;
pub mod rhythm;
pub mod scale;
pub mod writer;
