//! Chords: a template of intervals relative to a keynote, the keys it
//! yields for a concrete keynote, and the pitches those keys occupy in
//! an octave or a pitch range.

use vstd::prelude::*;
use vstd::arithmetic::div_mod::lemma_fundamental_div_mod;
use vstd::arithmetic::div_mod::lemma_mod_multiples_vanish;
use crate::intervals::Interval;
use crate::keys::Key;
use crate::pitch::overlying_value;
use crate::pitch::Octave;
use crate::pitch::Pitch;
use crate::pitch::PitchRange;

verus! {

/// A set of intervals which, relative to a keynote, build a chord.
pub struct ChordTemplate {
    pub intervals: Vec<Interval>,
}

/// The keys of a chord, keynote first.
pub struct KeyChord {
    pub keys: Vec<Key>,
}

/// The pitches of a chord, in template order.
pub struct PitchChord {
    pub pitches: Vec<Pitch>,
}

impl ChordTemplate {
    /// An empty template, to be filled by hand.
    pub fn new() -> (r: ChordTemplate)
        ensures
            r.intervals@.len() == 0,
    {
        ChordTemplate { intervals: Vec::new() }
    }

    /// The major triad: prime, major third, fifth.
    pub fn major() -> (r: ChordTemplate)
        ensures
            r.intervals@.len() == 3,
            r.intervals@[0].halftones == 0,
            r.intervals@[1].halftones == 4,
            r.intervals@[2].halftones == 7,
    {
        let mut chord_template: ChordTemplate = ChordTemplate::new();
        chord_template.intervals.push(Interval::prime());
        chord_template.intervals.push(Interval::major_third());
        chord_template.intervals.push(Interval::fifth());
        chord_template
    }

    /// The minor triad: prime, minor third, fifth.
    pub fn minor() -> (r: ChordTemplate)
        ensures
            r.intervals@.len() == 3,
            r.intervals@[0].halftones == 0,
            r.intervals@[1].halftones == 3,
            r.intervals@[2].halftones == 7,
    {
        let mut chord_template: ChordTemplate = ChordTemplate::new();
        chord_template.intervals.push(Interval::prime());
        chord_template.intervals.push(Interval::minor_third());
        chord_template.intervals.push(Interval::fifth());
        chord_template
    }
}

impl KeyChord {
    /// The chord's keys for a concrete keynote: each template interval
    /// added to the keynote, around the chromatic circle.
    pub fn from_chord_template(chord_template: &ChordTemplate, keynote: Key) -> (r: KeyChord)
        requires
            keynote.wf(),
            forall|i: int|
                0 <= i < chord_template.intervals@.len()
                    ==> (#[trigger] chord_template.intervals@[i]).halftones <= i32::MAX - 12,
        ensures
            r.keys@.len() == chord_template.intervals@.len(),
            forall|i: int|
                0 <= i < r.keys@.len() ==> (#[trigger] r.keys@[i]).wf() && r.keys@[i].spec_value()
                    == (keynote.spec_value() + chord_template.intervals@[i].halftones) % 12,
    {
        let mut keys: Vec<Key> = Vec::new();
        let mut idx: usize = 0;
        while idx < chord_template.intervals.len()
            invariant
                0 <= idx <= chord_template.intervals@.len(),
                keynote.wf(),
                forall|i: int|
                    0 <= i < chord_template.intervals@.len()
                        ==> (#[trigger] chord_template.intervals@[i]).halftones <= i32::MAX - 12,
                keys@.len() == idx,
                forall|i: int|
                    0 <= i < keys@.len() ==> (#[trigger] keys@[i]).wf() && keys@[i].spec_value()
                        == (keynote.spec_value() + chord_template.intervals@[i].halftones) % 12,
            decreases chord_template.intervals@.len() - idx,
        {
            let interval = chord_template.intervals[idx];
            keys.push(keynote.add_interval(interval));
            idx = idx + 1;
        }
        KeyChord { keys }
    }
}

impl PitchChord {
    /// The chord's pitches within one octave: each key placed in it.
    pub fn from_chord_and_octave(chord: &KeyChord, octave: Octave) -> (r: PitchChord)
        requires
            forall|i: int| 0 <= i < chord.keys@.len() ==> (#[trigger] chord.keys@[i]).wf(),
            -0x0aaa_aaa9 <= octave.value <= 0x0aaa_aaa9,
        ensures
            r.pitches@.len() == chord.keys@.len(),
            forall|i: int|
                0 <= i < r.pitches@.len() ==> (#[trigger] r.pitches@[i]).value == octave.value * 12
                    + chord.keys@[i].spec_value(),
    {
        let mut pitches: Vec<Pitch> = Vec::new();
        let mut idx: usize = 0;
        while idx < chord.keys.len()
            invariant
                0 <= idx <= chord.keys@.len(),
                forall|i: int| 0 <= i < chord.keys@.len() ==> (#[trigger] chord.keys@[i]).wf(),
                -0x0aaa_aaa9 <= octave.value <= 0x0aaa_aaa9,
                pitches@.len() == idx,
                forall|i: int|
                    0 <= i < pitches@.len() ==> (#[trigger] pitches@[i]).value == octave.value * 12
                        + chord.keys@[i].spec_value(),
            decreases chord.keys@.len() - idx,
        {
            let key = chord.keys[idx];
            proof {
                assert(-0x7fff_fff4 <= octave.value * 12 <= 0x7fff_fff4) by (nonlinear_arith)
                    requires
                        -0x0aaa_aaa9 <= octave.value <= 0x0aaa_aaa9,
                ;
            }
            pitches.push(Pitch::from_key_and_octave(key, octave));
            idx = idx + 1;
        }
        PitchChord { pitches }
    }

    /// The chord's pitches within a pitch range: for each key, in chord
    /// order, every octave copy that lies inside the range, lowest first.
    pub fn from_chord_and_pitch_range(chord: KeyChord, pitch_range: PitchRange) -> (r: PitchChord)
        requires
            forall|i: int| 0 <= i < chord.keys@.len() ==> (#[trigger] chord.keys@[i]).wf(),
            pitch_range.lower.value <= i32::MAX - 11,
            pitch_range.upper.value <= i32::MAX - 12,
        ensures
            r.pitches@ == range_pitches(chord.keys@, pitch_range),
    {
        let mut pitches: Vec<Pitch> = Vec::new();
        let mut idx: usize = 0;
        proof {
            assert(chord.keys@.take(0) =~= Seq::<Key>::empty());
            assert(range_pitches(chord.keys@.take(0), pitch_range) =~= Seq::<Pitch>::empty());
        }
        while idx < chord.keys.len()
            invariant
                0 <= idx <= chord.keys@.len(),
                forall|i: int| 0 <= i < chord.keys@.len() ==> (#[trigger] chord.keys@[i]).wf(),
                pitch_range.lower.value <= i32::MAX - 11,
                pitch_range.upper.value <= i32::MAX - 12,
                pitches@ == range_pitches(chord.keys@.take(idx as int), pitch_range),
            decreases chord.keys@.len() - idx,
        {
            let key = chord.keys[idx];
            let mut vec = pitch_range.inner_pitches(key);
            proof {
                let taken = chord.keys@.take(idx + 1);
                assert(taken.drop_last() =~= chord.keys@.take(idx as int));
                assert(taken.last() == key);
                lemma_pitch_run_unique(vec@, pitch_range, key);
                assert(pitches@ + vec@ =~= range_pitches(taken, pitch_range));
            }
            pitches.append(&mut vec);
            idx = idx + 1;
        }
        proof {
            assert(chord.keys@.take(chord.keys@.len() as int) =~= chord.keys@);
        }
        PitchChord { pitches }
    }
}

/// The pitches `inner_pitches` yields for one key: octave steps from the
/// overlying pitch of the range's floor, while below the range's ceiling.
pub open spec fn key_run(key: Key, pitch_range: PitchRange) -> Seq<Pitch>
    decreases (if overlying_value(pitch_range.lower.value as int, key.spec_value())
        < pitch_range.upper.value {
        pitch_range.upper.value + 12 - overlying_value(
            pitch_range.lower.value as int,
            key.spec_value(),
        )
    } else {
        0
    }),
    when pitch_range.upper.value <= i32::MAX - 12
{
    if overlying_value(pitch_range.lower.value as int, key.spec_value())
        >= pitch_range.upper.value {
        Seq::empty()
    } else {
        seq![
            Pitch {
                value: overlying_value(
                    pitch_range.lower.value as int,
                    key.spec_value(),
                ) as i32,
            },
        ] + key_run(
            key,
            PitchRange {
                lower: Pitch {
                    value: (overlying_value(pitch_range.lower.value as int, key.spec_value())
                        + 12) as i32,
                },
                upper: pitch_range.upper,
            },
        )
    }
}

/// All pitches of a chord inside a range: the runs of its keys, in chord
/// order, concatenated.
pub open spec fn range_pitches(keys: Seq<Key>, pitch_range: PitchRange) -> Seq<Pitch>
    decreases keys.len(),
{
    if keys.len() == 0 {
        Seq::empty()
    } else {
        range_pitches(keys.drop_last(), pitch_range) + key_run(keys.last(), pitch_range)
    }
}

/// Any vector that steps by octaves from the overlying pitch and is cut
/// off at the range's ceiling is exactly the key's run.
proof fn lemma_pitch_run_unique(v: Seq<Pitch>, pitch_range: PitchRange, key: Key)
    requires
        0 <= key.spec_value() < 12,
        pitch_range.upper.value <= i32::MAX - 12,
        forall|j: int|
            0 <= j < v.len() ==> (#[trigger] v[j]).value == overlying_value(
                pitch_range.lower.value as int,
                key.spec_value(),
            ) + 12 * j,
        forall|j: int| 0 <= j < v.len() ==> (#[trigger] v[j]).value < pitch_range.upper.value,
        overlying_value(pitch_range.lower.value as int, key.spec_value())
            >= pitch_range.upper.value ==> v.len() == 0,
        overlying_value(pitch_range.lower.value as int, key.spec_value())
            < pitch_range.upper.value ==> v.len() >= 1 && overlying_value(
            pitch_range.lower.value as int,
            key.spec_value(),
        ) + 12 * v.len() >= pitch_range.upper.value,
    ensures
        v == key_run(key, pitch_range),
    decreases v.len(),
{
    let start = overlying_value(pitch_range.lower.value as int, key.spec_value());
    if start < pitch_range.upper.value {
        let rest_range = PitchRange {
            lower: Pitch { value: (start + 12) as i32 },
            upper: pitch_range.upper,
        };
        // One octave up, the floor already lies on the key.
        assert(overlying_value(start + 12, key.spec_value()) == start + 12) by {
            lemma_key_overlying_fixed(pitch_range.lower.value as int, key.spec_value());
        }
        let w = v.skip(1);
        assert forall|j: int| 0 <= j < w.len() implies (#[trigger] w[j]).value == (start + 12) + 12
            * j by {
            assert(w[j] == v[j + 1]);
            assert(v[j + 1].value == start + 12 * (j + 1));
        }
        assert forall|j: int| 0 <= j < w.len() implies (#[trigger] w[j]).value
            < pitch_range.upper.value by {
            assert(w[j] == v[j + 1]);
        }
        if start + 12 >= pitch_range.upper.value {
            if v.len() >= 2 {
                assert(v[1].value == start + 12 * 1);
                assert(false);
            }
        } else {
            assert(v.len() >= 2) by {
                if v.len() == 1 {
                    assert(start + 12 * v.len() >= pitch_range.upper.value);
                }
            }
        }
        lemma_pitch_run_unique(w, rest_range, key);
        assert(v =~= seq![v[0]] + w);
    }
}

/// Stepping the overlying pitch up an octave lands on a pitch that is
/// its own overlying pitch for the same key.
proof fn lemma_key_overlying_fixed(lower: int, key: int)
    ensures
        overlying_value(overlying_value(lower, key) + 12, key) == overlying_value(lower, key)
            + 12,
{
    let s = overlying_value(lower, key);
    let q = (key - lower) / 12;
    // key - s is a multiple of 12, hence so is key - (s + 12).
    lemma_fundamental_div_mod(key - lower, 12);
    assert(key - (s + 12) == 12 * (q - 1)) by (nonlinear_arith)
        requires
            s == lower + (key - lower) % 12,
            key - lower == 12 * q + (key - lower) % 12,
    ;
    lemma_mod_multiples_vanish(q - 1, 0, 12);
    assert(0int % 12 == 0);
}

} // verus!
