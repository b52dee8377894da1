//! Intervals: pitch distances in halftones, and "unspecified" intervals
//! counted in scale steps, convertible to minor/major/perfect intervals.

use vstd::prelude::*;
use crate::math::neg_modulo;

verus! {

/// How many octaves a halftone count spans, truncating toward zero, as
/// Rust's integer division does.
pub open spec fn octaves_of_halftones(halftones: int) -> int {
    if halftones >= 0 {
        halftones / 12
    } else {
        -((-halftones) / 12)
    }
}

/// How many octaves a step count spans (seven steps to the octave),
/// truncating toward zero.
pub open spec fn octaves_of_steps(value: int) -> int {
    if value >= 0 {
        value / 7
    } else {
        -((-value) / 7)
    }
}

/// The minor-or-perfect halftone count of a base step (0 = prime up to
/// 6 = seventh).
pub open spec fn minor_halftones(step: int) -> int {
    if step == 0 {
        0
    } else if step == 1 {
        1
    } else if step == 2 {
        3
    } else if step == 3 {
        5
    } else if step == 4 {
        7
    } else if step == 5 {
        8
    } else {
        10
    }
}

/// The major-or-perfect halftone count of a base step.
pub open spec fn major_halftones(step: int) -> int {
    if step == 0 {
        0
    } else if step == 1 {
        2
    } else if step == 2 {
        4
    } else if step == 3 {
        5
    } else if step == 4 {
        7
    } else if step == 5 {
        9
    } else {
        11
    }
}

/// A pitch distance, in halftones; negative means downward.
#[derive(Clone, Copy, Debug, PartialEq, Eq, Structural, Hash)]
pub struct Interval {
    pub halftones: i32,
}

impl Interval {
    /// No distance at all.
    pub fn prime() -> (r: Interval)
        ensures
            r.halftones == 0,
    {
        Interval { halftones: 0 }
    }

    /// One halftone.
    pub fn minor_second() -> (r: Interval)
        ensures
            r.halftones == 1,
    {
        Interval { halftones: 1 }
    }

    /// Two halftones.
    pub fn major_second() -> (r: Interval)
        ensures
            r.halftones == 2,
    {
        Interval { halftones: 2 }
    }

    /// Three halftones.
    pub fn minor_third() -> (r: Interval)
        ensures
            r.halftones == 3,
    {
        Interval { halftones: 3 }
    }

    /// Four halftones.
    pub fn major_third() -> (r: Interval)
        ensures
            r.halftones == 4,
    {
        Interval { halftones: 4 }
    }

    /// Five halftones.
    pub fn fourth() -> (r: Interval)
        ensures
            r.halftones == 5,
    {
        Interval { halftones: 5 }
    }

    /// Six halftones.
    pub fn tritone() -> (r: Interval)
        ensures
            r.halftones == 6,
    {
        Interval { halftones: 6 }
    }

    /// Seven halftones.
    pub fn fifth() -> (r: Interval)
        ensures
            r.halftones == 7,
    {
        Interval { halftones: 7 }
    }

    /// Eight halftones.
    pub fn minor_sixth() -> (r: Interval)
        ensures
            r.halftones == 8,
    {
        Interval { halftones: 8 }
    }

    /// Nine halftones.
    pub fn major_sixth() -> (r: Interval)
        ensures
            r.halftones == 9,
    {
        Interval { halftones: 9 }
    }

    /// Ten halftones.
    pub fn minor_seventh() -> (r: Interval)
        ensures
            r.halftones == 10,
    {
        Interval { halftones: 10 }
    }

    /// Eleven halftones.
    pub fn major_seventh() -> (r: Interval)
        ensures
            r.halftones == 11,
    {
        Interval { halftones: 11 }
    }

    /// Twelve halftones: one octave.
    pub fn octave() -> (r: Interval)
        ensures
            r.halftones == 12,
    {
        Interval { halftones: 12 }
    }

    /// Thirteen halftones.
    pub fn minor_ninth() -> (r: Interval)
        ensures
            r.halftones == 13,
    {
        Interval { halftones: 13 }
    }

    /// Fourteen halftones.
    pub fn major_ninth() -> (r: Interval)
        ensures
            r.halftones == 14,
    {
        Interval { halftones: 14 }
    }

    /// Fifteen halftones.
    pub fn minor_tenth() -> (r: Interval)
        ensures
            r.halftones == 15,
    {
        Interval { halftones: 15 }
    }

    /// Sixteen halftones.
    pub fn major_tenth() -> (r: Interval)
        ensures
            r.halftones == 16,
    {
        Interval { halftones: 16 }
    }

    /// Seventeen halftones.
    pub fn eleventh() -> (r: Interval)
        ensures
            r.halftones == 17,
    {
        Interval { halftones: 17 }
    }

    /// Eighteen halftones, named downward from the twelfth.
    pub fn diminished_twelfth() -> (r: Interval)
        ensures
            r.halftones == 18,
    {
        Interval { halftones: 18 }
    }

    /// Eighteen halftones, named upward from the eleventh.
    pub fn augmented_eleventh() -> (r: Interval)
        ensures
            r.halftones == 18,
    {
        Interval { halftones: 18 }
    }

    /// Nineteen halftones.
    pub fn twelfth() -> (r: Interval)
        ensures
            r.halftones == 19,
    {
        Interval { halftones: 19 }
    }

    /// Twenty halftones.
    pub fn minor_thirteenth() -> (r: Interval)
        ensures
            r.halftones == 20,
    {
        Interval { halftones: 20 }
    }

    /// Twenty-one halftones.
    pub fn major_thirteenth() -> (r: Interval)
        ensures
            r.halftones == 21,
    {
        Interval { halftones: 21 }
    }

    /// Twenty-two halftones.
    pub fn minor_fourteenth() -> (r: Interval)
        ensures
            r.halftones == 22,
    {
        Interval { halftones: 22 }
    }

    /// Twenty-three halftones.
    pub fn major_fourteenth() -> (r: Interval)
        ensures
            r.halftones == 23,
    {
        Interval { halftones: 23 }
    }

    /// Twenty-four halftones: two octaves.
    pub fn fifteenth() -> (r: Interval)
        ensures
            r.halftones == 24,
    {
        Interval { halftones: 24 }
    }

    /// Turn the interval upside down: the same distance, downward.
    pub fn invert(&mut self)
        requires
            old(self).halftones > i32::MIN,
        ensures
            final (self).halftones == -old(self).halftones,
    {
        self.halftones = -self.halftones;
    }

    /// The interval folded into one octave, by the true mathematical
    /// modulo (so a downward second folds to a seventh, for example).
    pub fn to_base_interval(self) -> (r: Interval)
        ensures
            r.halftones == self.halftones as int % 12,
            0 <= r.halftones < 12,
    {
        Interval { halftones: neg_modulo(self.halftones, 12) as i32 }
    }

    /// How many whole octaves the interval spans, truncating toward
    /// zero.
    pub fn get_num_octaves(self) -> (r: i32)
        requires
            self.halftones > i32::MIN,
        ensures
            r == octaves_of_halftones(self.halftones as int),
    {
        if self.halftones >= 0 {
            self.halftones / 12
        } else {
            -((-self.halftones) / 12)
        }
    }
}

/// An interval counted in scale steps (a "third", a "fifth"), not yet
/// resolved to a halftone count; negative means downward.
#[derive(Clone, Copy, Debug, PartialEq, Eq, Structural, Hash)]
pub struct UnspecifiedInterval {
    pub value: i32,
}

impl UnspecifiedInterval {
    /// An arbitrary step count.
    pub fn new(value: i32) -> (r: UnspecifiedInterval)
        ensures
            r.value == value,
    {
        UnspecifiedInterval { value }
    }

    /// Zero steps.
    pub fn prime() -> (r: UnspecifiedInterval)
        ensures
            r.value == 0,
    {
        UnspecifiedInterval { value: 0 }
    }

    /// One step.
    pub fn second() -> (r: UnspecifiedInterval)
        ensures
            r.value == 1,
    {
        UnspecifiedInterval { value: 1 }
    }

    /// Two steps.
    pub fn third() -> (r: UnspecifiedInterval)
        ensures
            r.value == 2,
    {
        UnspecifiedInterval { value: 2 }
    }

    /// Three steps.
    pub fn fourth() -> (r: UnspecifiedInterval)
        ensures
            r.value == 3,
    {
        UnspecifiedInterval { value: 3 }
    }

    /// Four steps.
    pub fn fifth() -> (r: UnspecifiedInterval)
        ensures
            r.value == 4,
    {
        UnspecifiedInterval { value: 4 }
    }

    /// Five steps.
    pub fn sixth() -> (r: UnspecifiedInterval)
        ensures
            r.value == 5,
    {
        UnspecifiedInterval { value: 5 }
    }

    /// Six steps.
    pub fn seventh() -> (r: UnspecifiedInterval)
        ensures
            r.value == 6,
    {
        UnspecifiedInterval { value: 6 }
    }

    /// Seven steps: one octave.
    pub fn octave() -> (r: UnspecifiedInterval)
        ensures
            r.value == 7,
    {
        UnspecifiedInterval { value: 7 }
    }

    /// Eight steps.
    pub fn ninth() -> (r: UnspecifiedInterval)
        ensures
            r.value == 8,
    {
        UnspecifiedInterval { value: 8 }
    }

    /// Nine steps.
    pub fn tenth() -> (r: UnspecifiedInterval)
        ensures
            r.value == 9,
    {
        UnspecifiedInterval { value: 9 }
    }

    /// Ten steps.
    pub fn eleventh() -> (r: UnspecifiedInterval)
        ensures
            r.value == 10,
    {
        UnspecifiedInterval { value: 10 }
    }

    /// Eleven steps.
    pub fn twelfth() -> (r: UnspecifiedInterval)
        ensures
            r.value == 11,
    {
        UnspecifiedInterval { value: 11 }
    }

    /// Twelve steps.
    pub fn thirteenth() -> (r: UnspecifiedInterval)
        ensures
            r.value == 12,
    {
        UnspecifiedInterval { value: 12 }
    }

    /// Thirteen steps.
    pub fn fourteenth() -> (r: UnspecifiedInterval)
        ensures
            r.value == 13,
    {
        UnspecifiedInterval { value: 13 }
    }

    /// Fourteen steps: two octaves.
    pub fn fifteenth() -> (r: UnspecifiedInterval)
        ensures
            r.value == 14,
    {
        UnspecifiedInterval { value: 14 }
    }

    /// The step folded into one octave, by the true mathematical modulo.
    pub fn to_base_unspecified_interval(self) -> (r: UnspecifiedInterval)
        ensures
            r.value == self.value as int % 7,
            0 <= r.value < 7,
    {
        UnspecifiedInterval { value: neg_modulo(self.value, 7) as i32 }
    }

    /// How many whole octaves the step count spans, truncating toward
    /// zero.
    pub fn get_num_octaves(self) -> (r: i32)
        requires
            self.value > i32::MIN,
        ensures
            r == octaves_of_steps(self.value as int),
    {
        if self.value >= 0 {
            self.value / 7
        } else {
            -((-self.value) / 7)
        }
    }

    /// The interval this step count denotes when every non-perfect step
    /// is read as minor, octaves carried over.
    pub fn to_minor_or_perfect(self) -> (r: Interval)
        requires
            -0x0fff_ffff <= self.value <= 0x0fff_ffff,
        ensures
            r.halftones == minor_halftones(self.value as int % 7) + 12 * octaves_of_steps(
                self.value as int,
            ),
    {
        let base = self.to_base_unspecified_interval();
        let mut interval: Interval = if base.value == 0 {
            Interval::prime()
        } else if base.value == 1 {
            Interval::minor_second()
        } else if base.value == 2 {
            Interval::minor_third()
        } else if base.value == 3 {
            Interval::fourth()
        } else if base.value == 4 {
            Interval::fifth()
        } else if base.value == 5 {
            Interval::minor_sixth()
        } else {
            Interval::minor_seventh()
        };
        interval.halftones = interval.halftones + 12 * self.get_num_octaves();
        interval
    }

    /// The interval this step count denotes when every non-perfect step
    /// is read as major, octaves carried over.
    pub fn to_major_or_perfect(self) -> (r: Interval)
        requires
            -0x0fff_ffff <= self.value <= 0x0fff_ffff,
        ensures
            r.halftones == major_halftones(self.value as int % 7) + 12 * octaves_of_steps(
                self.value as int,
            ),
    {
        let base = self.to_base_unspecified_interval();
        let mut interval: Interval = if base.value == 0 {
            Interval::prime()
        } else if base.value == 1 {
            Interval::major_second()
        } else if base.value == 2 {
            Interval::major_third()
        } else if base.value == 3 {
            Interval::fourth()
        } else if base.value == 4 {
            Interval::fifth()
        } else if base.value == 5 {
            Interval::major_sixth()
        } else {
            Interval::major_seventh()
        };
        interval.halftones = interval.halftones + 12 * self.get_num_octaves();
        interval
    }
}

} // verus!
