//! The twelve keys of the chromatic circle, indexed from a (0) up to
//! g sharp (11); adding an interval moves around the circle modulo 12.

use vstd::prelude::*;
use crate::intervals::Interval;
use crate::math::neg_modulo;
use vstd::arithmetic::div_mod::lemma_mod_multiples_vanish;
use crate::pitch::Pitch;

verus! {

/// One of the twelve keys; the index counts halftones above a.
#[derive(PartialEq, Eq, Structural, Hash, Debug, Clone, Copy)]
pub struct Key {
    value: u8,
}

impl Key {
    /// The key's index on the chromatic circle.
    pub closed spec fn spec_value(self) -> int {
        self.value as int
    }

    /// A key index always lies on the circle.
    pub open spec fn wf(self) -> bool {
        0 <= self.spec_value() < 12
    }

    /// The key a.
    pub fn a() -> (r: Key)
        ensures
            r.wf(),
            r.spec_value() == 0,
    {
        Key { value: 0 }
    }

    /// The key a sharp.
    pub fn ais() -> (r: Key)
        ensures
            r.wf(),
            r.spec_value() == 1,
    {
        Key { value: 1 }
    }

    /// The key b.
    pub fn b() -> (r: Key)
        ensures
            r.wf(),
            r.spec_value() == 2,
    {
        Key { value: 2 }
    }

    /// The key c.
    pub fn c() -> (r: Key)
        ensures
            r.wf(),
            r.spec_value() == 3,
    {
        Key { value: 3 }
    }

    /// The key c sharp.
    pub fn cis() -> (r: Key)
        ensures
            r.wf(),
            r.spec_value() == 4,
    {
        Key { value: 4 }
    }

    /// The key d.
    pub fn d() -> (r: Key)
        ensures
            r.wf(),
            r.spec_value() == 5,
    {
        Key { value: 5 }
    }

    /// The key d sharp.
    pub fn dis() -> (r: Key)
        ensures
            r.wf(),
            r.spec_value() == 6,
    {
        Key { value: 6 }
    }

    /// The key e.
    pub fn e() -> (r: Key)
        ensures
            r.wf(),
            r.spec_value() == 7,
    {
        Key { value: 7 }
    }

    /// The key f.
    pub fn f() -> (r: Key)
        ensures
            r.wf(),
            r.spec_value() == 8,
    {
        Key { value: 8 }
    }

    /// The key f sharp.
    pub fn fis() -> (r: Key)
        ensures
            r.wf(),
            r.spec_value() == 9,
    {
        Key { value: 9 }
    }

    /// The key g.
    pub fn g() -> (r: Key)
        ensures
            r.wf(),
            r.spec_value() == 10,
    {
        Key { value: 10 }
    }

    /// The key g sharp.
    pub fn gis() -> (r: Key)
        ensures
            r.wf(),
            r.spec_value() == 11,
    {
        Key { value: 11 }
    }

    /// The interval that leads from `lower_key` up to `upper_key`,
    /// within one octave.
    pub fn to_interval(lower_key: Key, upper_key: Key) -> (r: Interval)
        requires
            lower_key.wf(),
            upper_key.wf(),
        ensures
            r.halftones == (upper_key.spec_value() - lower_key.spec_value()) % 12,
            0 <= r.halftones < 12,
    {
        let h = (upper_key.value as u32 + 12 - lower_key.value as u32) % 12;
        proof {
            lemma_mod_multiples_vanish(
                1,
                upper_key.spec_value() - lower_key.spec_value(),
                12,
            );
        }
        Interval { halftones: h as i32 }
    }

    /// A key from its index on the circle.
    pub fn new(value: u8) -> (r: Key)
        requires
            value < 12,
        ensures
            r.wf(),
            r.spec_value() == value,
    {
        Key { value }
    }

    /// The key's index on the circle.
    pub fn get_value(self) -> (r: u8)
        ensures
            r == self.spec_value(),
    {
        self.value
    }

    /// The key moved up by an interval, around the circle.
    pub fn add_interval(self, interval: Interval) -> (r: Key)
        requires
            self.wf(),
            interval.halftones <= i32::MAX - 12,
        ensures
            r.wf(),
            r.spec_value() == (self.spec_value() + interval.halftones) % 12,
    {
        let number = neg_modulo(self.value as i32 + interval.halftones, 12) as u8;
        Key { value: number }
    }

    /// The key moved down by an interval, around the circle.
    pub fn sub_interval(self, interval: Interval) -> (r: Key)
        requires
            self.wf(),
            interval.halftones >= 12 - i32::MAX,
        ensures
            r.wf(),
            r.spec_value() == (self.spec_value() - interval.halftones) % 12,
    {
        let number = neg_modulo(self.value as i32 - interval.halftones, 12) as u8;
        Key { value: number }
    }

    /// The key a pitch falls on: its halftone index modulo 12.
    pub fn from_pitch(pitch: Pitch) -> (r: Key)
        ensures
            r.wf(),
            r.spec_value() == pitch.value as int % 12,
    {
        Key { value: neg_modulo(pitch.value, 12) as u8 }
    }
}

} // verus!
