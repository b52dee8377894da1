//! Pitches: halftone indices on a keyboard whose octaves start at a.
//! Index 0 is the reference pitch (27.5 Hz, instrument note number 21);
//! negative indices are possible, but only indices from -21 upward map
//! to an instrument note number.

use vstd::prelude::*;
use vstd::arithmetic::div_mod::lemma_fundamental_div_mod;
use vstd::arithmetic::div_mod::lemma_mod_multiples_vanish;
use crate::intervals::Interval;
use crate::keys::Key;

verus! {

/// The next index at or above `pitch` that falls on `key`.
pub open spec fn overlying_value(pitch: int, key: int) -> int {
    pitch + (key - pitch) % 12
}

/// The last index at or below `pitch` that falls on `key`.
pub open spec fn underlying_value(pitch: int, key: int) -> int {
    pitch - (pitch - key) % 12
}

/// A pitch: a signed halftone index relative to the reference pitch.
#[derive(Copy, Clone, Hash, Eq, PartialEq, Structural, Debug)]
pub struct Pitch {
    pub value: i32,
}

/// An octave of the keyboard; octave 0 starts at the reference pitch.
#[derive(Copy, Clone, Eq, PartialEq, Structural, Debug)]
pub struct Octave {
    pub value: i32,
}

/// A half-open band of pitches, from `lower` up to but excluding `upper`.
#[derive(Copy, Clone)]
pub struct PitchRange {
    pub lower: Pitch,
    pub upper: Pitch,
}

impl Pitch {
    /// The pitch of `key` within `octave`: twelve halftones per octave,
    /// plus the key's index.
    pub fn from_key_and_octave(key: Key, octave: Octave) -> (r: Pitch)
        requires
            key.wf(),
            i32::MIN <= octave.value * 12 + key.spec_value() <= i32::MAX,
            -0x0aaa_aaaa <= octave.value <= 0x0aaa_aaaa,
        ensures
            r.value == octave.value * 12 + key.spec_value(),
    {
        Pitch { value: octave.value * 12 + key.get_value() as i32 }
    }

    /// The instrument note number of the pitch, `value + 21`; pitches
    /// below the representable floor of -21 have none.
    pub fn to_midi_number(&self) -> (r: Option<u32>)
        requires
            self.value <= i32::MAX - 21,
        ensures
            self.value >= -21 ==> r == Some((self.value + 21) as u32),
            self.value < -21 ==> r is None,
    {
        if self.value >= -21 {
            Some((self.value + 21) as u32)
        } else {
            None
        }
    }

    /// The interval from this pitch's key up to `upper_key`, within one
    /// octave.
    pub fn get_upper_interval(self, upper_key: Key) -> (r: Interval)
        requires
            upper_key.wf(),
        ensures
            r.halftones == (upper_key.spec_value() - self.value) % 12,
            0 <= r.halftones < 12,
    {
        let lower_key: Key = Key::from_pitch(self);
        let r = Key::to_interval(lower_key, upper_key);
        proof {
            lemma_mod_of_mod_sub(upper_key.spec_value(), self.value as int);
        }
        r
    }

    /// The nearest pitch at or above this one that falls on `key`: at
    /// most eleven halftones up.
    pub fn get_overlying_pitch(self, key: Key) -> (r: Pitch)
        requires
            key.wf(),
            self.value <= i32::MAX - 11,
        ensures
            r.value == overlying_value(self.value as int, key.spec_value()),
            self.value <= r.value < self.value + 12,
    {
        let interval: Interval = self.get_upper_interval(key);
        Pitch { value: self.value + interval.halftones }
    }

    /// The nearest pitch at or below this one that falls on `key`: at
    /// most eleven halftones down.
    pub fn get_underlying_pitch(self, key: Key) -> (r: Pitch)
        requires
            key.wf(),
            self.value >= i32::MIN + 11,
        ensures
            r.value == underlying_value(self.value as int, key.spec_value()),
            self.value - 12 < r.value <= self.value,
    {
        let lower_key: Key = Key::from_pitch(self);
        let interval: Interval = Key::to_interval(key, lower_key);
        proof {
            lemma_mod_of_mod_sub_left(self.value as int, key.spec_value());
        }
        Pitch { value: self.value - interval.halftones }
    }

    /// The pitch raised by an interval.
    pub fn add_interval(self, interval: Interval) -> (r: Pitch)
        requires
            i32::MIN <= self.value + interval.halftones <= i32::MAX,
        ensures
            r.value == self.value + interval.halftones,
    {
        Pitch { value: self.value + interval.halftones }
    }

    /// The pitch lowered by an interval.
    pub fn sub_interval(self, interval: Interval) -> (r: Pitch)
        requires
            i32::MIN <= self.value - interval.halftones <= i32::MAX,
        ensures
            r.value == self.value - interval.halftones,
    {
        Pitch { value: self.value - interval.halftones }
    }
}

/// Folding the subtrahend into one octave does not change a halftone
/// difference modulo 12: `(u - v % 12) % 12 == (u - v) % 12`.
proof fn lemma_mod_of_mod_sub(u: int, v: int)
    ensures
        (u - v % 12) % 12 == (u - v) % 12,
{
    lemma_fundamental_div_mod(v, 12);
    lemma_mod_multiples_vanish(v / 12, u - v, 12);
    assert(u - v % 12 == 12 * (v / 12) + (u - v));
}

/// Folding the minuend into one octave does not change a halftone
/// difference modulo 12: `(u % 12 - v) % 12 == (u - v) % 12`.
proof fn lemma_mod_of_mod_sub_left(u: int, v: int)
    ensures
        (u % 12 - v) % 12 == (u - v) % 12,
{
    lemma_fundamental_div_mod(u, 12);
    lemma_mod_multiples_vanish(-(u / 12), u - v, 12);
    assert(u % 12 - v == 12 * (-(u / 12)) + (u - v)) by (nonlinear_arith)
        requires
            u == 12 * (u / 12) + u % 12,
    ;
}

impl PitchRange {
    /// Every pitch of `key` inside the band, lowest first: the overlying
    /// pitch of the band's floor, then octave steps, while below the
    /// band's ceiling.
    pub fn inner_pitches(self, key: Key) -> (r: Vec<Pitch>)
        requires
            key.wf(),
            self.lower.value <= i32::MAX - 11,
            self.upper.value <= i32::MAX - 12,
        ensures
            forall|j: int|
                0 <= j < r@.len() ==> (#[trigger] r@[j]).value == overlying_value(
                    self.lower.value as int,
                    key.spec_value(),
                ) + 12 * j,
            forall|j: int| 0 <= j < r@.len() ==> (#[trigger] r@[j]).value < self.upper.value,
            overlying_value(self.lower.value as int, key.spec_value()) >= self.upper.value
                ==> r@.len() == 0,
            overlying_value(self.lower.value as int, key.spec_value()) < self.upper.value ==> (
            r@.len() >= 1 && overlying_value(self.lower.value as int, key.spec_value()) + 12 * (
            r@.len() - 1) < self.upper.value && overlying_value(
                self.lower.value as int,
                key.spec_value(),
            ) + 12 * r@.len() >= self.upper.value),
    {
        let ghost start = overlying_value(self.lower.value as int, key.spec_value());
        let mut pitch: Pitch = self.lower.get_overlying_pitch(key);
        let mut pitches: Vec<Pitch> = Vec::new();

        while pitch.value < self.upper.value
            invariant
                self.upper.value <= i32::MAX - 12,
                pitch.value == start + 12 * pitches@.len(),
                start <= pitch.value,
                forall|j: int| 0 <= j < pitches@.len() ==> (#[trigger] pitches@[j]).value == start
                    + 12 * j,
                forall|j: int|
                    0 <= j < pitches@.len() ==> (#[trigger] pitches@[j]).value < self.upper.value,
                pitches@.len() >= 1 ==> start + 12 * (pitches@.len() - 1) < self.upper.value,
            decreases self.upper.value + 12 - pitch.value,
        {
            pitches.push(pitch);
            pitch = pitch.add_interval(Interval::octave());
        }

        pitches
    }
}

} // verus!
