//! Scales: a template of intervals relative to a keynote, and the keys a
//! concrete keynote yields for it, in scale order.

use vstd::prelude::*;
use crate::intervals::Interval;
use crate::keys::Key;
use crate::pitch::Pitch;

verus! {

/// A set of intervals which, relative to a keynote, build a scale.
pub struct ScaleTemplate {
    pub intervals: Vec<Interval>,
}

/// The keys of a scale, keynote first.
pub struct KeyScale {
    pub keys: Vec<Key>,
}

/// The pitches of a scale.
pub struct PitchScale {
    pub pitches: Vec<Pitch>,
}

/// The halftone steps of a scale template, as one sequence.
pub open spec fn template_halftones(s: Seq<Interval>) -> Seq<int> {
    s.map(|_i: int, v: Interval| v.halftones as int)
}

impl ScaleTemplate {
    /// An empty template, to be filled by hand.
    pub fn new() -> (r: ScaleTemplate)
        ensures
            r.intervals@.len() == 0,
    {
        ScaleTemplate { intervals: Vec::new() }
    }

    /// All twelve halftones.
    pub fn chromatic_scale() -> (r: ScaleTemplate)
        ensures
            template_halftones(r.intervals@) =~= seq![
                0int,
                1int,
                2int,
                3int,
                4int,
                5int,
                6int,
                7int,
                8int,
                9int,
                10int,
                11int,
            ],
    {
        let intervals = vec![
            Interval { halftones: 0 },
            Interval { halftones: 1 },
            Interval { halftones: 2 },
            Interval { halftones: 3 },
            Interval { halftones: 4 },
            Interval { halftones: 5 },
            Interval { halftones: 6 },
            Interval { halftones: 7 },
            Interval { halftones: 8 },
            Interval { halftones: 9 },
            Interval { halftones: 10 },
            Interval { halftones: 11 },
        ];
        ScaleTemplate { intervals }
    }

    /// The major scale: whole, whole, half, whole, whole, whole steps.
    pub fn major() -> (r: ScaleTemplate)
        ensures
            template_halftones(r.intervals@) =~= seq![0int, 2int, 4int, 5int, 7int, 9int, 11int],
    {
        let intervals = vec![
            Interval { halftones: 0 },
            Interval { halftones: 2 },
            Interval { halftones: 4 },
            Interval { halftones: 5 },
            Interval { halftones: 7 },
            Interval { halftones: 9 },
            Interval { halftones: 11 },
        ];
        ScaleTemplate { intervals }
    }

    /// The natural minor scale.
    pub fn minor() -> (r: ScaleTemplate)
        ensures
            template_halftones(r.intervals@) =~= seq![0int, 2int, 3int, 5int, 7int, 8int, 10int],
    {
        let intervals = vec![
            Interval { halftones: 0 },
            Interval { halftones: 2 },
            Interval { halftones: 3 },
            Interval { halftones: 5 },
            Interval { halftones: 7 },
            Interval { halftones: 8 },
            Interval { halftones: 10 },
        ];
        ScaleTemplate { intervals }
    }

    /// The harmonic minor scale: natural minor with a raised seventh.
    pub fn minor_harmonic() -> (r: ScaleTemplate)
        ensures
            template_halftones(r.intervals@) =~= seq![0int, 2int, 3int, 5int, 7int, 8int, 11int],
    {
        let intervals = vec![
            Interval { halftones: 0 },
            Interval { halftones: 2 },
            Interval { halftones: 3 },
            Interval { halftones: 5 },
            Interval { halftones: 7 },
            Interval { halftones: 8 },
            Interval { halftones: 11 },
        ];
        ScaleTemplate { intervals }
    }
}

impl KeyScale {
    /// The scale's keys for a concrete keynote: each template interval
    /// added to the keynote, around the chromatic circle, in order.
    pub fn from_scale_template(scale_template: &ScaleTemplate, keynote: Key) -> (r: KeyScale)
        requires
            keynote.wf(),
            forall|i: int|
                0 <= i < scale_template.intervals@.len()
                    ==> (#[trigger] scale_template.intervals@[i]).halftones <= i32::MAX - 12,
        ensures
            r.keys@.len() == scale_template.intervals@.len(),
            forall|i: int|
                0 <= i < r.keys@.len() ==> (#[trigger] r.keys@[i]).wf() && r.keys@[i].spec_value()
                    == (keynote.spec_value() + scale_template.intervals@[i].halftones) % 12,
    {
        let mut keys: Vec<Key> = Vec::new();
        let mut idx: usize = 0;
        while idx < scale_template.intervals.len()
            invariant
                0 <= idx <= scale_template.intervals@.len(),
                keynote.wf(),
                forall|i: int|
                    0 <= i < scale_template.intervals@.len()
                        ==> (#[trigger] scale_template.intervals@[i]).halftones <= i32::MAX - 12,
                keys@.len() == idx,
                forall|i: int|
                    0 <= i < keys@.len() ==> (#[trigger] keys@[i]).wf() && keys@[i].spec_value()
                        == (keynote.spec_value() + scale_template.intervals@[i].halftones) % 12,
            decreases scale_template.intervals@.len() - idx,
        {
            let interval = scale_template.intervals[idx];
            keys.push(keynote.add_interval(interval));
            idx = idx + 1;
        }
        KeyScale { keys }
    }
}

} // verus!
