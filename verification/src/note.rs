//! A playable note: a position and a length within the bar, and a pitch.

use vstd::prelude::*;
use crate::pitch::Pitch;
use crate::rhythm::Duration;
use crate::rhythm::spec_rhythm_note;
use crate::rhythm::RhythmNote;
use crate::rhythm::TimePoint;

verus! {

/// A pitched note: where it starts, how long it lasts, what it sounds.
#[derive(Clone, Copy, PartialEq, Eq, Structural, Debug)]
pub struct Note {
    pub time_point: TimePoint,
    pub duration: Duration,
    pub pitch: Pitch,
}

impl Note {
    /// The rhythmic part of the note, with the pitch dropped.
    pub fn get_rhythm_note(&self) -> (r: RhythmNote)
        ensures
            r == spec_rhythm_note(self.time_point, self.duration),
            r.spec_time_point() == self.time_point,
            r.spec_duration() == self.duration,
    {
        RhythmNote::new(self.time_point, self.duration)
    }
}

} // verus!
