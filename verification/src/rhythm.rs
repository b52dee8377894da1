//! Rational bar time: durations and positions inside a bar, bar time
//! signatures, rhythm notes, the straight-subdivision pattern generator
//! and its streaming variant, and the micro-timing resolver that picks
//! the integer tick grid.

use vstd::prelude::*;
use crate::math::divides;
use crate::math::lcm_fold;
use crate::math::least_common_multiple;
use crate::math::lemma_divides_le;
use crate::math::lemma_lcm_bounds;
use crate::math::lemma_lcm_fold_prefix;
use crate::math::lemma_lcm_fold_properties;
use crate::rational::frac;
use crate::rational::int_abs;
use crate::rational::lemma_frac_props;
use crate::rational::lemma_lt_iff;
use crate::rational::lemma_reduced_den_divides;
use crate::rational::Rational;

verus! {

/// A length, as an exact fraction of a whole bar.
#[derive(Clone, Copy, PartialEq, Eq, Structural, Debug)]
pub struct Duration {
    duration: Rational,
}

impl Duration {
    /// The exact fraction of a bar this duration spans.
    pub closed spec fn rat(self) -> Rational {
        self.duration
    }

    /// The underlying fraction is in lowest terms over a positive
    /// denominator, and a length is never negative.
    pub open spec fn wf(self) -> bool {
        self.rat().wf() && self.rat().num() >= 0
    }

    /// A whole note: one full bar.
    pub fn whole() -> (r: Duration)
        ensures
            r.wf(),
            r.rat().num() == 1,
            r.rat().den() == 1,
    {
        Duration { duration: Rational::from_u32s(1, 1) }
    }

    /// A half note.
    pub fn half() -> (r: Duration)
        ensures
            r.wf(),
            r.rat().num() == 1,
            r.rat().den() == 2,
    {
        Duration { duration: Rational::from_u32s(1, 2) }
    }

    /// A quarter note.
    pub fn quarter() -> (r: Duration)
        ensures
            r.wf(),
            r.rat().num() == 1,
            r.rat().den() == 4,
    {
        Duration { duration: Rational::from_u32s(1, 4) }
    }

    /// An eighth note.
    pub fn eighth() -> (r: Duration)
        ensures
            r.wf(),
            r.rat().num() == 1,
            r.rat().den() == 8,
    {
        Duration { duration: Rational::from_u32s(1, 8) }
    }

    /// A sixteenth note.
    pub fn sixteenth() -> (r: Duration)
        ensures
            r.wf(),
            r.rat().num() == 1,
            r.rat().den() == 16,
    {
        Duration { duration: Rational::from_u32s(1, 16) }
    }

    /// An arbitrary duration of `nominator / denominator` bars, reduced.
    pub fn new(nominator: u32, denominator: u32) -> (r: Duration)
        requires
            denominator >= 1,
        ensures
            r.wf(),
            r.rat() == frac(nominator as int, denominator as int),
            r.rat().num() * denominator == nominator * r.rat().den(),
            0 <= r.rat().num() <= nominator,
            1 <= r.rat().den() <= denominator,
    {
        Duration { duration: Rational::from_u32s(nominator, denominator) }
    }

    /// A duration of the same length as the given position.
    pub fn from_time_point(time_point: BarTimePoint) -> (r: Duration)
        ensures
            r.rat() == time_point.rat(),
    {
        Duration { duration: time_point.time_point }
    }
}

/// A position within a bar, as an exact fraction of the bar; `0` is the
/// bar's start. A 4/4 bar carries the quarter positions
/// `0/4, 1/4, 2/4, 3/4`.
#[derive(Clone, Copy, PartialEq, Eq, Structural, Debug)]
pub struct BarTimePoint {
    time_point: Rational,
}

/// The name the rhythm-note and writer layers use for a bar position.
pub type TimePoint = BarTimePoint;

impl BarTimePoint {
    /// The exact fraction of the bar at which this position lies.
    pub closed spec fn rat(self) -> Rational {
        self.time_point
    }

    /// The underlying fraction is in lowest terms over a positive
    /// denominator.
    pub open spec fn wf(self) -> bool {
        self.rat().wf()
    }

    /// The position `nominator / denominator` of a bar, reduced.
    pub fn new(nominator: u32, denominator: u32) -> (r: BarTimePoint)
        requires
            denominator >= 1,
        ensures
            r.wf(),
            r.rat() == frac(nominator as int, denominator as int),
            r.rat().num() * denominator == nominator * r.rat().den(),
            0 <= r.rat().num() <= nominator,
            1 <= r.rat().den() <= denominator,
    {
        BarTimePoint { time_point: Rational::from_u32s(nominator, denominator) }
    }

    /// The reduced nominator of the position.
    pub fn get_nominator(self) -> (r: u32)
        requires
            0 <= self.rat().num() <= u32::MAX,
        ensures
            r == self.rat().num(),
    {
        self.time_point.numerator() as u32
    }

    /// The reduced denominator of the position.
    pub fn get_denominator(self) -> (r: u32)
        requires
            self.wf(),
            self.rat().den() <= u32::MAX,
        ensures
            r == self.rat().den(),
    {
        self.time_point.denominator() as u32
    }

    /// The reduced nominator of the position, at full width.
    pub fn wide_nominator(self) -> (r: i128)
        ensures
            r == self.rat().num(),
    {
        self.time_point.numerator()
    }

    /// The reduced denominator of the position, at full width.
    pub fn wide_denominator(self) -> (r: i128)
        ensures
            r == self.rat().den(),
    {
        self.time_point.denominator()
    }

    /// The position advanced by a duration: `position + duration` is
    /// again a position, computed exactly.
    pub fn add_duration(self, duration: Duration) -> (r: BarTimePoint)
        requires
            self.wf(),
            duration.wf(),
            -i128::MAX <= self.rat().num() * duration.rat().den() <= i128::MAX,
            -i128::MAX <= duration.rat().num() * self.rat().den() <= i128::MAX,
            -i128::MAX <= self.rat().num() * duration.rat().den() + duration.rat().num()
                * self.rat().den() <= i128::MAX,
            self.rat().den() * duration.rat().den() <= i128::MAX,
        ensures
            r.wf(),
            r.rat() == frac(
                self.rat().num() * duration.rat().den() + duration.rat().num() * self.rat().den(),
                self.rat().den() * duration.rat().den(),
            ),
            r.rat().num() * (self.rat().den() * duration.rat().den()) == (self.rat().num()
                * duration.rat().den() + duration.rat().num() * self.rat().den()) * r.rat().den(),
            r.rat().den() <= self.rat().den() * duration.rat().den(),
            int_abs(r.rat().num()) <= int_abs(
                self.rat().num() * duration.rat().den() + duration.rat().num() * self.rat().den(),
            ),
    {
        BarTimePoint { time_point: self.time_point.add(duration.duration) }
    }

    /// The position moved back by a duration, exactly.
    pub fn sub_duration(self, duration: Duration) -> (r: BarTimePoint)
        requires
            self.wf(),
            duration.wf(),
            -i128::MAX <= self.rat().num() * duration.rat().den() <= i128::MAX,
            -i128::MAX <= duration.rat().num() * self.rat().den() <= i128::MAX,
            -i128::MAX <= self.rat().num() * duration.rat().den() - duration.rat().num()
                * self.rat().den() <= i128::MAX,
            self.rat().den() * duration.rat().den() <= i128::MAX,
        ensures
            r.wf(),
            r.rat() == frac(
                self.rat().num() * duration.rat().den() - duration.rat().num() * self.rat().den(),
                self.rat().den() * duration.rat().den(),
            ),
            r.rat().num() * (self.rat().den() * duration.rat().den()) == (self.rat().num()
                * duration.rat().den() - duration.rat().num() * self.rat().den()) * r.rat().den(),
            r.rat().den() <= self.rat().den() * duration.rat().den(),
            int_abs(r.rat().num()) <= int_abs(
                self.rat().num() * duration.rat().den() - duration.rat().num() * self.rat().den(),
            ),
    {
        BarTimePoint { time_point: self.time_point.sub(duration.duration) }
    }

    /// Whether this position lies strictly before `other`.
    pub fn is_before(self, other: BarTimePoint) -> (r: bool)
        requires
            self.wf(),
            other.wf(),
            -i128::MAX <= self.rat().num() * other.rat().den() <= i128::MAX,
            -i128::MAX <= other.rat().num() * self.rat().den() <= i128::MAX,
        ensures
            r == self.rat().spec_lt(other.rat()),
    {
        self.time_point.lt(other.time_point)
    }
}

/// A bar's length as a fraction: `nominator / denominator` whole notes
/// (4/4 is one whole note, 6/8 is six eighths).
#[derive(Clone, Copy, PartialEq, Eq, Structural, Debug)]
pub struct BarTimeSignature {
    nominator: u32,
    denominator: u32,
}

impl BarTimeSignature {
    /// The number of counted note values per bar.
    pub closed spec fn spec_nominator(self) -> int {
        self.nominator as int
    }

    /// The note value being counted.
    pub closed spec fn spec_denominator(self) -> int {
        self.denominator as int
    }

    /// A time signature always divides the bar by a positive note value.
    pub open spec fn wf(self) -> bool {
        self.spec_denominator() >= 1
    }

    /// Common time, 4/4.
    pub fn four_quarter_time() -> (r: BarTimeSignature)
        ensures
            r.wf(),
            r.spec_nominator() == 4,
            r.spec_denominator() == 4,
    {
        BarTimeSignature { nominator: 4, denominator: 4 }
    }

    /// Waltz time, 3/4.
    pub fn three_quarter_time() -> (r: BarTimeSignature)
        ensures
            r.wf(),
            r.spec_nominator() == 3,
            r.spec_denominator() == 4,
    {
        BarTimeSignature { nominator: 3, denominator: 4 }
    }

    /// 2/4 time.
    pub fn two_quarter_time() -> (r: BarTimeSignature)
        ensures
            r.wf(),
            r.spec_nominator() == 2,
            r.spec_denominator() == 4,
    {
        BarTimeSignature { nominator: 2, denominator: 4 }
    }

    /// 6/8 time.
    pub fn six_eighth_time() -> (r: BarTimeSignature)
        ensures
            r.wf(),
            r.spec_nominator() == 6,
            r.spec_denominator() == 8,
    {
        BarTimeSignature { nominator: 6, denominator: 8 }
    }

    /// The counted note values per bar.
    pub fn get_nominator(self) -> (r: u32)
        ensures
            r == self.spec_nominator(),
    {
        self.nominator
    }

    /// The note value being counted.
    pub fn get_denominator(self) -> (r: u32)
        ensures
            r == self.spec_denominator(),
    {
        self.denominator
    }

    /// An arbitrary time signature; the note value must be positive.
    pub fn new(nominator: u32, denominator: u32) -> (r: BarTimeSignature)
        requires
            denominator >= 1,
        ensures
            r.wf(),
            r.spec_nominator() == nominator,
            r.spec_denominator() == denominator,
    {
        BarTimeSignature { nominator, denominator }
    }

    /// The position exactly one full bar after the bar's start.
    pub fn to_time_point(self) -> (r: BarTimePoint)
        requires
            self.wf(),
        ensures
            r.wf(),
            r.rat() == frac(self.spec_nominator(), self.spec_denominator()),
            r.rat().num() * self.spec_denominator() == self.spec_nominator() * r.rat().den(),
            0 <= r.rat().num() <= self.spec_nominator(),
            1 <= r.rat().den() <= self.spec_denominator(),
    {
        BarTimePoint { time_point: Rational::from_u32s(self.nominator, self.denominator) }
    }
}

/// The reduced denominators of a sequence of time points.
pub open spec fn denominators(s: Seq<BarTimePoint>) -> Seq<nat> {
    s.map(|_i: int, tp: BarTimePoint| tp.rat().den() as nat)
}

/// The micro timing demanded by a set of time points: the least number
/// of ticks per bar on which every one of them falls exactly, i.e. the
/// least common multiple of all their reduced denominators.
pub open spec fn micro_timing_of(s: Seq<BarTimePoint>) -> nat {
    lcm_fold(denominators(s))
}

impl BarTimePoint {
    /// The micro timing is the number of possible time points inside a
    /// bar. This returns the least value on which every given time
    /// point can be placed exactly; an empty input yields 1.
    pub fn get_micro_timing(time_points: &Vec<BarTimePoint>) -> (r: i32)
        requires
            forall|i: int| 0 <= i < time_points@.len() ==> (#[trigger] time_points@[i]).wf(),
            micro_timing_of(time_points@) <= i32::MAX,
        ensures
            r == micro_timing_of(time_points@),
            r >= 1,
    {
        proof {
            assert(denominators(time_points@.take(0)) =~= Seq::<nat>::empty());
        }
        let ghost all_dens = denominators(time_points@);
        proof {
            lemma_lcm_fold_properties(all_dens);
        }
        let mut timing: i32 = 1;
        let mut idx: usize = 0;
        while idx < time_points.len()
            invariant
                0 <= idx <= time_points@.len(),
                forall|i: int| 0 <= i < time_points@.len() ==> (#[trigger] time_points@[i]).wf(),
                micro_timing_of(time_points@) <= i32::MAX,
                all_dens == denominators(time_points@),
                timing == lcm_fold(denominators(time_points@).take(idx as int)),
                timing >= 1,
            decreases time_points@.len() - idx,
        {
            let ghost pre = denominators(time_points@).take(idx as int);
            let ghost post = denominators(time_points@).take(idx + 1);
            proof {
                assert(post.drop_last() =~= pre);
                lemma_lcm_fold_properties(all_dens);
                // The denominator about to be folded in divides the full
                // fold, so it fits; and the next partial fold divides the
                // full fold, so it fits as well.
                assert(divides(all_dens[idx as int] as int, lcm_fold(all_dens) as int));
                lemma_divides_le(all_dens[idx as int] as int, lcm_fold(all_dens) as int);
                lemma_lcm_fold_prefix(all_dens, idx + 1);
            }
            proof {
                assert(post.last() == all_dens[idx as int]);
                lemma_lcm_bounds(lcm_fold(pre), all_dens[idx as int]);
            }
            let den = time_points[idx].get_denominator();
            if den != 0 {
                timing = least_common_multiple(timing, den as i32);
            }
            idx = idx + 1;
        }
        proof {
            assert(denominators(time_points@).take(time_points@.len() as int) =~= denominators(
                time_points@,
            ));
        }
        timing
    }
}

/// The resolved micro timing is a usable grid: it is positive, and every
/// given time point falls on it exactly, its reduced denominator dividing
/// the ticks-per-bar.
pub proof fn lemma_micro_timing_places_all(s: Seq<BarTimePoint>, i: int)
    requires
        forall|j: int| 0 <= j < s.len() ==> (#[trigger] s[j]).wf(),
        0 <= i < s.len(),
    ensures
        micro_timing_of(s) >= 1,
        divides(s[i].rat().den(), micro_timing_of(s) as int),
{
    lemma_lcm_fold_properties(denominators(s));
    assert(denominators(s)[i] == s[i].rat().den() as nat);
}

/// The resolved micro timing is least: it divides every tick count that
/// can place all the given time points, so no smaller grid suffices.
pub proof fn lemma_micro_timing_least(s: Seq<BarTimePoint>, m: nat)
    requires
        forall|j: int| 0 <= j < s.len() ==> (#[trigger] s[j]).wf(),
        m > 0,
        forall|j: int| 0 <= j < s.len() ==> divides((#[trigger] s[j]).rat().den(), m as int),
    ensures
        divides(micro_timing_of(s) as int, m as int),
        micro_timing_of(s) <= m,
{
    assert forall|j: int| 0 <= j < denominators(s).len() implies divides(
        #[trigger] denominators(s)[j] as int,
        m as int,
    ) by {
        assert(denominators(s)[j] == s[j].rat().den() as nat);
    }
    assert forall|j: int| 0 <= j < denominators(s).len() implies #[trigger] denominators(
        s,
    )[j] > 0 by {
        assert(denominators(s)[j] == s[j].rat().den() as nat);
    }
    crate::math::lemma_lcm_fold_least(denominators(s), m);
    lemma_lcm_fold_properties(denominators(s));
    lemma_divides_le(micro_timing_of(s) as int, m as int);
}

/// Resolving the same time-point set twice yields the same integer: the
/// micro timing is a function of the set alone, with no hidden state.
pub proof fn lemma_micro_timing_deterministic(s1: Seq<BarTimePoint>, s2: Seq<BarTimePoint>)
    requires
        s1 == s2,
    ensures
        micro_timing_of(s1) == micro_timing_of(s2),
{
}

/// A note within a bar: where it starts and how long it lasts.
#[derive(Clone, Copy, PartialEq, Eq, Structural, Debug)]
pub struct RhythmNote {
    time_point: BarTimePoint,
    duration: Duration,
}

impl RhythmNote {
    /// Where the note starts.
    pub closed spec fn spec_time_point(self) -> BarTimePoint {
        self.time_point
    }

    /// How long the note lasts.
    pub closed spec fn spec_duration(self) -> Duration {
        self.duration
    }

    /// Both parts are well-formed fractions, and the onset is not
    /// before the bar's start.
    pub open spec fn wf(self) -> bool {
        self.spec_time_point().wf() && self.spec_duration().wf()
            && self.spec_time_point().rat().num() >= 0
    }

    /// The exact position at which the note ends: onset plus duration.
    pub open spec fn end_rat(self) -> Rational {
        frac(
            self.spec_time_point().rat().num() * self.spec_duration().rat().den()
                + self.spec_duration().rat().num() * self.spec_time_point().rat().den(),
            self.spec_time_point().rat().den() * self.spec_duration().rat().den(),
        )
    }

    /// A note starting at `time_point`, lasting `duration`.
    pub fn new(time_point: BarTimePoint, duration: Duration) -> (r: RhythmNote)
        ensures
            r == spec_rhythm_note(time_point, duration),
            r.spec_time_point() == time_point,
            r.spec_duration() == duration,
    {
        RhythmNote { time_point, duration }
    }

    /// The note's onset and its end, `onset + duration`, as positions.
    pub fn get_time_points(self) -> (r: (BarTimePoint, BarTimePoint))
        requires
            self.wf(),
            -i128::MAX <= self.spec_time_point().rat().num() * self.spec_duration().rat().den()
                + self.spec_duration().rat().num() * self.spec_time_point().rat().den()
                <= i128::MAX,
            self.spec_time_point().rat().den() * self.spec_duration().rat().den() <= i128::MAX,
        ensures
            r.0 == self.spec_time_point(),
            r.1.wf(),
            r.1.rat() == self.end_rat(),
    {
        proof {
            let tp = self.spec_time_point().rat();
            let d = self.spec_duration().rat();
            assert(0 <= tp.num() * d.den() <= i128::MAX && 0 <= d.num() * tp.den() <= i128::MAX)
                by (nonlinear_arith)
                requires
                    tp.num() * d.den() + d.num() * tp.den() <= i128::MAX,
                    tp.den() >= 1,
                    d.den() >= 1,
                    d.num() >= 0,
                    tp.num() >= 0,
            ;
        }
        (self.time_point, self.time_point.add_duration(self.duration))
    }
}

/// The onset and end of every note, in order: two time points per note.
pub open spec fn note_points(s: Seq<RhythmNote>) -> Seq<BarTimePoint>
    decreases s.len(),
{
    if s.len() == 0 {
        Seq::empty()
    } else {
        note_points(s.drop_last()) + seq![
            s.last().spec_time_point(),
            end_time_point(s.last()),
        ]
    }
}

/// The end of a note, as a position.
pub closed spec fn end_time_point(n: RhythmNote) -> BarTimePoint {
    BarTimePoint { time_point: n.end_rat() }
}

/// `end_time_point` is just the end fraction, repackaged.
pub proof fn lemma_end_time_point(n: RhythmNote)
    ensures
        end_time_point(n).rat() == n.end_rat(),
{
}

impl RhythmNote {
    /// The micro timing needed to place every onset and every end of the
    /// given notes exactly.
    pub fn to_micro_timing(rhythm_notes: &Vec<RhythmNote>) -> (r: i32)
        requires
            forall|i: int| 0 <= i < rhythm_notes@.len() ==> (#[trigger] rhythm_notes@[i]).wf(),
            forall|i: int|
                0 <= i < rhythm_notes@.len() ==> (#[trigger] rhythm_notes@[i]).wf()
                    && rhythm_notes@[i].spec_time_point().rat().num()
                    * rhythm_notes@[i].spec_duration().rat().den()
                    + rhythm_notes@[i].spec_duration().rat().num()
                    * rhythm_notes@[i].spec_time_point().rat().den() <= i128::MAX
                    && rhythm_notes@[i].spec_time_point().rat().den()
                    * rhythm_notes@[i].spec_duration().rat().den() <= i128::MAX,
            micro_timing_of(note_points(rhythm_notes@)) <= i32::MAX,
        ensures
            r == micro_timing_of(note_points(rhythm_notes@)),
            r >= 1,
    {
        let mut time_points: Vec<BarTimePoint> = Vec::new();
        let mut idx: usize = 0;
        proof {
            assert(rhythm_notes@.take(0) =~= Seq::<RhythmNote>::empty());
            assert(note_points(rhythm_notes@.take(0)) =~= Seq::<BarTimePoint>::empty());
        }
        while idx < rhythm_notes.len()
            invariant
                0 <= idx <= rhythm_notes@.len(),
                forall|i: int|
                    0 <= i < rhythm_notes@.len() ==> (#[trigger] rhythm_notes@[i]).wf()
                        && rhythm_notes@[i].spec_time_point().rat().num()
                        * rhythm_notes@[i].spec_duration().rat().den()
                        + rhythm_notes@[i].spec_duration().rat().num()
                        * rhythm_notes@[i].spec_time_point().rat().den() <= i128::MAX
                        && rhythm_notes@[i].spec_time_point().rat().den()
                        * rhythm_notes@[i].spec_duration().rat().den() <= i128::MAX,
                micro_timing_of(note_points(rhythm_notes@)) <= i32::MAX,
                time_points@ == note_points(rhythm_notes@.take(idx as int)),
                forall|i: int| 0 <= i < time_points@.len() ==> (#[trigger] time_points@[i]).wf(),
            decreases rhythm_notes@.len() - idx,
        {
            let note = rhythm_notes[idx];
            proof {
                assert(rhythm_notes@[idx as int].wf());
            }
            let pair = note.get_time_points();
            time_points.push(pair.0);
            time_points.push(pair.1);
            proof {
                let taken = rhythm_notes@.take(idx + 1);
                assert(taken.drop_last() =~= rhythm_notes@.take(idx as int));
                assert(taken.last() == note);
                assert(end_time_point(note).rat() == note.end_rat());
                assert(pair.1 == end_time_point(note)) by {
                    assert(pair.1.rat() == end_time_point(note).rat());
                    lemma_timepoint_ext(pair.1, end_time_point(note));
                }
                assert(time_points@ =~= note_points(taken));
            }
            idx = idx + 1;
        }
        proof {
            assert(rhythm_notes@.take(rhythm_notes@.len() as int) =~= rhythm_notes@);
        }
        BarTimePoint::get_micro_timing(&time_points)
    }
}

/// Exactness under repeated addition: starting from the bar's start and
/// adding the duration `1 / n` exactly `n` times lands on exactly one
/// full bar -- no drift accumulates, for any positive `n`. The chain
/// holds the successive positions; each link is what `add_duration`
/// returns for the previous one.
pub proof fn lemma_unit_steps_reach_full_bar(chain: Seq<BarTimePoint>, step: Duration, n: int)
    requires
        n >= 1,
        step.wf(),
        step.rat().num() * n == step.rat().den(),
        chain.len() == n + 1,
        forall|i: int| 0 <= i <= n ==> (#[trigger] chain[i]).wf(),
        chain[0].rat().num() == 0,
        forall|i: int|
            0 <= i < n ==> (#[trigger] chain[i + 1]).rat().num() * (chain[i].rat().den()
                * step.rat().den()) == (chain[i].rat().num() * step.rat().den() + step.rat().num()
                * chain[i].rat().den()) * chain[i + 1].rat().den(),
    ensures
        chain[n as int].rat().num() == chain[n as int].rat().den(),
{
    let rats = chain.map(|_i: int, tp: BarTimePoint| tp.rat());
    assert forall|i: int| 0 <= i < n implies (#[trigger] rats[i + 1]).num() * (rats[i].den()
        * step.rat().den()) == (rats[i].num() * step.rat().den() + step.rat().num()
        * rats[i].den()) * rats[i + 1].den() by {
        assert(rats[i] == chain[i].rat());
        assert(rats[i + 1] == chain[i + 1].rat());
    }
    assert(forall|i: int| 0 <= i <= n ==> (#[trigger] rats[i]) == chain[i].rat());
    crate::rational::lemma_repeated_unit_steps(rats, step.rat(), n);
}

/// The rhythm note with the given parts, as a value.
pub closed spec fn spec_rhythm_note(time_point: BarTimePoint, duration: Duration) -> RhythmNote {
    RhythmNote { time_point, duration }
}

/// `spec_rhythm_note` is the note `RhythmNote::new` builds.
pub proof fn lemma_spec_rhythm_note(time_point: BarTimePoint, duration: Duration)
    ensures
        spec_rhythm_note(time_point, duration).spec_time_point() == time_point,
        spec_rhythm_note(time_point, duration).spec_duration() == duration,
{
}

/// Where each note's onset and end stand in the flattened point list.
pub proof fn lemma_note_points_index(s: Seq<RhythmNote>, i: int)
    requires
        0 <= i < s.len(),
    ensures
        note_points(s).len() == 2 * s.len(),
        note_points(s)[2 * i] == s[i].spec_time_point(),
        note_points(s)[2 * i + 1] == end_time_point(s[i]),
    decreases s.len(),
{
    lemma_note_points_len(s);
    if i < s.len() - 1 {
        lemma_note_points_index(s.drop_last(), i);
    }
}

/// The flattened point list holds two points per note.
pub proof fn lemma_note_points_len(s: Seq<RhythmNote>)
    ensures
        note_points(s).len() == 2 * s.len(),
    decreases s.len(),
{
    if s.len() > 0 {
        lemma_note_points_len(s.drop_last());
    }
}

/// A well-formed note, small enough for the arithmetic, has a
/// well-formed, non-negative end position whose parts are bounded by the
/// unreduced sum.
pub proof fn lemma_end_point_wf(n: RhythmNote)
    requires
        n.wf(),
        n.spec_time_point().rat().num() * n.spec_duration().rat().den()
            + n.spec_duration().rat().num() * n.spec_time_point().rat().den() <= i128::MAX,
        n.spec_time_point().rat().den() * n.spec_duration().rat().den() <= i128::MAX,
    ensures
        end_time_point(n).wf(),
        end_time_point(n).rat().num() >= 0,
        end_time_point(n).rat().num() * (n.spec_time_point().rat().den()
            * n.spec_duration().rat().den()) == (n.spec_time_point().rat().num()
            * n.spec_duration().rat().den() + n.spec_duration().rat().num()
            * n.spec_time_point().rat().den()) * end_time_point(n).rat().den(),
        end_time_point(n).rat().den() <= n.spec_time_point().rat().den()
            * n.spec_duration().rat().den(),
{
    let tp = n.spec_time_point().rat();
    let d = n.spec_duration().rat();
    assert(1 <= tp.den() * d.den() && 0 <= tp.num() * d.den() && 0 <= d.num() * tp.den())
        by (nonlinear_arith)
        requires
            tp.den() >= 1,
            d.den() >= 1,
            tp.num() >= 0,
            d.num() >= 0,
    ;
    lemma_frac_props(tp.num() * d.den() + d.num() * tp.den(), tp.den() * d.den());
}

/// Every point in the flattened list of well-formed, bounded notes is a
/// well-formed position at or after the bar's start.
pub proof fn lemma_note_points_wf(s: Seq<RhythmNote>)
    requires
        forall|i: int|
            0 <= i < s.len() ==> (#[trigger] s[i]).wf() && s[i].spec_time_point().rat().num()
                * s[i].spec_duration().rat().den() + s[i].spec_duration().rat().num()
                * s[i].spec_time_point().rat().den() <= i128::MAX
                && s[i].spec_time_point().rat().den() * s[i].spec_duration().rat().den()
                <= i128::MAX,
    ensures
        forall|j: int|
            0 <= j < note_points(s).len() ==> (#[trigger] note_points(s)[j]).wf() && note_points(
                s,
            )[j].rat().num() >= 0,
    decreases s.len(),
{
    lemma_note_points_len(s);
    if s.len() > 0 {
        let t = s.drop_last();
        assert(forall|i: int| 0 <= i < t.len() ==> t[i] == s[i]);
        lemma_note_points_wf(t);
        lemma_end_point_wf(s.last());
        assert forall|j: int| 0 <= j < note_points(s).len() implies (#[trigger] note_points(
            s,
        )[j]).wf() && note_points(s)[j].rat().num() >= 0 by {
            lemma_note_points_len(t);
            if j < note_points(t).len() {
                assert(note_points(s)[j] == note_points(t)[j]);
            } else if j == note_points(t).len() {
                assert(note_points(s)[j] == s.last().spec_time_point());
            } else {
                assert(note_points(s)[j] == end_time_point(s.last()));
            }
        }
    }
}

/// Two positions with the same underlying fraction are the same position.
proof fn lemma_timepoint_ext(a: BarTimePoint, b: BarTimePoint)
    requires
        a.rat() == b.rat(),
    ensures
        a == b,
{
}

/// An unbounded straight subdivision, handed out note by note: each call
/// to `next` yields the note at the current position and advances by the
/// fixed duration, with no bar boundary and no end. Construction restarts
/// it at position zero.
pub struct StraitRhythmNotes {
    time_point: BarTimePoint,
    duration: Duration,
}

impl StraitRhythmNotes {
    /// The position the next note will start at.
    pub closed spec fn spec_time_point(self) -> BarTimePoint {
        self.time_point
    }

    /// The fixed duration of every note handed out.
    pub closed spec fn spec_duration(self) -> Duration {
        self.duration
    }

    /// Both parts are well-formed, the position is non-negative and lies
    /// on the duration's grid.
    pub open spec fn wf(self) -> bool {
        &&& self.spec_time_point().wf()
        &&& self.spec_duration().wf()
        &&& self.spec_time_point().rat().num() >= 0
        &&& divides(self.spec_time_point().rat().den(), self.spec_duration().rat().den())
    }

    /// A fresh subdivision of the given duration, starting at zero.
    pub fn with_duration(duration: Duration) -> (r: StraitRhythmNotes)
        requires
            duration.wf(),
        ensures
            r.wf(),
            r.spec_duration() == duration,
            r.spec_time_point().rat().num() == 0,
            r.spec_time_point().rat().den() == 1,
    {
        let start = BarTimePoint::new(0, 1);
        proof {
            assert(divides(1int, duration.rat().den())) by {
                assert(duration.rat().den() == 1int * duration.rat().den());
            }
        }
        StraitRhythmNotes { time_point: start, duration }
    }

    /// The next note of the subdivision: it starts at the current
    /// position, and the position advances by exactly one duration.
    pub fn next(&mut self) -> (r: RhythmNote)
        requires
            old(self).wf(),
            old(self).spec_time_point().rat().num() <= 0x1000_0000_0000_0000_0000_0000,
            old(self).spec_duration().rat().num() <= 0x4000_0000,
            old(self).spec_duration().rat().den() <= 0x4000_0000,
        ensures
            final(self).wf(),
            final(self).spec_duration() == old(self).spec_duration(),
            r.spec_time_point() == old(self).spec_time_point(),
            r.spec_duration() == old(self).spec_duration(),
            r.wf(),
            final(self).spec_time_point().rat().num() * (old(self).spec_time_point().rat().den()
                * old(self).spec_duration().rat().den()) == (old(self).spec_time_point().rat().num()
                * old(self).spec_duration().rat().den() + old(self).spec_duration().rat().num()
                * old(self).spec_time_point().rat().den()) * final(self).spec_time_point().rat().den(),
            final(self).spec_time_point().rat().num() <= old(self).spec_time_point().rat().num()
                * old(self).spec_duration().rat().den() + old(self).spec_duration().rat().num()
                * old(self).spec_time_point().rat().den(),
    {
        let cur = self.time_point;
        let ghost tp = self.spec_time_point().rat();
        let ghost d = self.spec_duration().rat();
        proof {
            lemma_divides_le(tp.den(), d.den());
            assert(0 <= tp.num() * d.den() <= i128::MAX && 0 <= d.num() * tp.den() <= i128::MAX
                && tp.num() * d.den() + d.num() * tp.den() <= i128::MAX && tp.den() * d.den()
                <= i128::MAX) by (nonlinear_arith)
                requires
                    0 <= tp.num() <= 0x1000_0000_0000_0000_0000_0000,
                    1 <= tp.den() <= d.den(),
                    0 <= d.num() <= 0x4000_0000,
                    1 <= d.den() <= 0x4000_0000,
            ;
        }
        self.time_point = self.time_point.add_duration(self.duration);
        proof {
            let new_tp = self.spec_time_point().rat();
            // The advanced position is a multiple of `1 / duration_den`,
            // so it stays on the duration's grid, and is non-negative.
            let t = choose|t: int| d.den() == #[trigger] (tp.den() * t);
            let m = tp.num() * t + d.num();
            assert(tp.num() * d.den() + d.num() * tp.den() == m * tp.den() && m >= 0)
                by (nonlinear_arith)
                requires
                    d.den() == tp.den() * t,
                    m == tp.num() * t + d.num(),
                    tp.num() >= 0,
                    d.num() >= 0,
                    tp.den() >= 1,
                    d.den() >= 1,
            ;
            assert(new_tp.num() * d.den() == m * new_tp.den() && new_tp.num() >= 0)
                by (nonlinear_arith)
                requires
                    new_tp.num() * (tp.den() * d.den()) == (m * tp.den()) * new_tp.den(),
                    tp.num() * d.den() + d.num() * tp.den() == m * tp.den(),
                    m >= 0,
                    tp.den() >= 1,
                    d.den() >= 1,
                    new_tp.den() >= 1,
            ;
            lemma_reduced_den_divides(new_tp, d.den(), m);
        }
        RhythmNote::new(cur, self.duration)
    }
}

/// An ordered run of rhythm notes, onset order, produced by a generator.
pub struct RhythmPattern {
    pub notes: Vec<RhythmNote>,
}

impl RhythmPattern {
    /// Subdivide one bar into equal notes of the given duration: start
    /// at the bar's start and keep advancing by the duration while the
    /// next onset still lies strictly before `bar - duration`; the final
    /// note is emitted unconditionally, so a duration of at least a full
    /// bar yields exactly one note at position zero.
    ///
    /// The contract pins the result completely: note `i` starts at
    /// exactly `i` durations into the bar, every note lasts `duration`,
    /// and the count `N` is the unique positive integer with
    /// `N * duration >= bar` and (for `N >= 2`) `(N - 1) * duration < bar`.
    /// The bounds on the parts only keep the exact cross-multiplication
    /// arithmetic inside the machine integers; they allow over a billion
    /// subdivisions per bar.
    #[verifier::rlimit(50)]
    pub fn straight_rhythm_notes(bar_time_signature: BarTimeSignature, duration: Duration) -> (r:
        RhythmPattern)
        requires
            bar_time_signature.wf(),
            duration.wf(),
            duration.rat().num() >= 1,
            bar_time_signature.spec_nominator() <= 0x4000_0000,
            bar_time_signature.spec_denominator() <= 0x4000_0000,
            duration.rat().num() <= 0x4000_0000,
            duration.rat().den() <= 0x4000_0000,
        ensures
            r.notes@.len() >= 1,
            forall|i: int|
                0 <= i < r.notes@.len() ==> (#[trigger] r.notes@[i]).wf()
                    && r.notes@[i].spec_duration() == duration
                    && r.notes@[i].spec_time_point().rat().num() * duration.rat().den() == i
                    * duration.rat().num() * r.notes@[i].spec_time_point().rat().den(),
            r.notes@.len() * (duration.rat().num() * bar_time_signature.spec_denominator())
                >= bar_time_signature.spec_nominator() * duration.rat().den(),
            r.notes@.len() >= 2 ==> (r.notes@.len() - 1) * (duration.rat().num()
                * bar_time_signature.spec_denominator()) < bar_time_signature.spec_nominator()
                * duration.rat().den(),
    {
        let ghost nd = duration.rat().num();
        let ghost dd = duration.rat().den();
        let ghost bn = bar_time_signature.spec_nominator();
        let ghost bd = bar_time_signature.spec_denominator();
        let ghost end_n = bn * dd - nd * bd;
        let ghost end_d = bd * dd;

        let mut counter = BarTimePoint::new(0, 1);
        let mut notes: Vec<RhythmNote> = vec![RhythmNote::new(counter, duration)];

        let bar = bar_time_signature.to_time_point();
        proof {
            assert(0 <= bar.rat().num() * dd <= i128::MAX && 0 <= nd * bar.rat().den()
                <= i128::MAX && bar.rat().den() * dd <= i128::MAX && -i128::MAX <= bar.rat().num()
                * dd - nd * bar.rat().den()) by (nonlinear_arith)
                requires
                    0 <= bar.rat().num() <= bn <= 0x4000_0000,
                    1 <= bar.rat().den() <= bd <= 0x4000_0000,
                    1 <= nd <= 0x4000_0000,
                    1 <= dd <= 0x4000_0000,
            ;
        }
        let end: BarTimePoint = bar.sub_duration(duration);
        proof {
            // end == bar - duration denotes (bn * dd - nd * bd) / (bd * dd).
            let bden = bar.rat().den();
            let bnum = bar.rat().num();
            let x = bnum * dd - nd * bden;
            let en = end.rat().num();
            let ed = end.rat().den();
            assert(x * bd == bden * end_n) by (nonlinear_arith)
                requires
                    bnum * bd == bn * bden,
                    x == bnum * dd - nd * bden,
                    end_n == bn * dd - nd * bd,
            ;
            assert(en * end_d == end_n * ed) by (nonlinear_arith)
                requires
                    en * (bden * dd) == x * ed,
                    x * bd == bden * end_n,
                    end_d == bd * dd,
                    bden >= 1,
            ;
            assert(ed <= end_d) by (nonlinear_arith)
                requires
                    ed <= bden * dd,
                    bden <= bd,
                    dd >= 1,
                    end_d == bd * dd,
            ;
            let ax = int_abs(x) as int;
            let aen = int_abs(end_n) as int;
            assert(ax <= aen) by (nonlinear_arith)
                requires
                    x * bd == bden * end_n,
                    1 <= bden <= bd,
                    ax == (if x >= 0 {
                        x
                    } else {
                        -x
                    }),
                    aen == (if end_n >= 0 {
                        end_n
                    } else {
                        -end_n
                    }),
            ;
            assert(int_abs(en) <= int_abs(end_n));
            assert(divides(1int, dd)) by {
                assert(dd == 1int * dd);
            }
            assert(notes@.len() == 1);
            assert(notes@[0].spec_time_point() == counter);
            assert(counter.rat().num() == 0);
            assert(counter.rat().num() * dd == 0 * nd * counter.rat().den()) by (nonlinear_arith)
                requires
                    counter.rat().num() == 0,
            ;
            assert(forall|i: int|
                0 <= i < notes@.len() ==> (#[trigger] notes@[i]).wf() && notes@[i].spec_duration()
                    == duration && notes@[i].spec_time_point().rat().num() * dd == i * nd
                    * notes@[i].spec_time_point().rat().den()) by {
                assert(notes@[0].spec_time_point().rat().num() * dd == 0 * nd
                    * notes@[0].spec_time_point().rat().den()) by (nonlinear_arith)
                    requires
                        notes@[0].spec_time_point().rat().num() == 0,
                ;
            }
        }

        loop
            invariant
                duration.wf(),
                nd == duration.rat().num(),
                dd == duration.rat().den(),
                1 <= nd <= 0x4000_0000,
                1 <= dd <= 0x4000_0000,
                1 <= bd <= 0x4000_0000,
                0 <= bn <= 0x4000_0000,
                end_n == bn * dd - nd * bd,
                end_d == bd * dd,
                end.wf(),
                end.rat().num() * end_d == end_n * end.rat().den(),
                end.rat().den() <= end_d,
                int_abs(end.rat().num()) <= int_abs(end_n),
                counter.wf(),
                counter.rat().num() >= 0,
                divides(counter.rat().den(), dd),
                counter.rat().den() <= dd,
                notes@.len() >= 1,
                counter.rat().num() * dd == (notes@.len() - 1) * nd * counter.rat().den(),
                notes@.len() >= 2 ==> (notes@.len() - 1) * (nd * bd) < bn * dd,
                notes@.len() - 1 <= bn * dd,
                forall|i: int|
                    0 <= i < notes@.len() ==> (#[trigger] notes@[i]).wf()
                        && notes@[i].spec_duration() == duration
                        && notes@[i].spec_time_point().rat().num() * dd == i * nd
                        * notes@[i].spec_time_point().rat().den(),
            ensures
                notes@.len() >= 1,
                notes@.len() * (nd * bd) >= bn * dd,
                notes@.len() >= 2 ==> (notes@.len() - 1) * (nd * bd) < bn * dd,
                forall|i: int|
                    0 <= i < notes@.len() ==> (#[trigger] notes@[i]).wf()
                        && notes@[i].spec_duration() == duration
                        && notes@[i].spec_time_point().rat().num() * dd == i * nd
                        * notes@[i].spec_time_point().rat().den(),
            decreases bn * dd - (notes@.len() - 1) * (nd * bd),
        {
            let ghost k = notes@.len() - 1;
            proof {
                // The running onset numerator stays small: its value is
                // below one bar plus one duration.
                lemma_divides_le(counter.rat().den(), dd);
                assert(counter.rat().num() <= bn * counter.rat().den() + nd
                    * counter.rat().den()) by (nonlinear_arith)
                    requires
                        counter.rat().num() * dd == k * nd * counter.rat().den(),
                        k >= 1 ==> k * (nd * bd) < bn * dd,
                        k >= 0,
                        counter.rat().num() >= 0,
                        counter.rat().den() >= 1,
                        1 <= nd,
                        1 <= dd,
                        1 <= bd,
                        0 <= bn,
                ;
                assert(counter.rat().num() * end.rat().den() <= i128::MAX && end.rat().num()
                    * counter.rat().den() <= i128::MAX && -i128::MAX <= end.rat().num()
                    * counter.rat().den() && counter.rat().num() <= 0x2000_0000_0000_0000_0000)
                    by (nonlinear_arith)
                    requires
                        0 <= counter.rat().num() <= bn * counter.rat().den() + nd
                            * counter.rat().den(),
                        1 <= counter.rat().den() <= dd,
                        1 <= end.rat().den() <= end_d,
                        end_d == bd * dd,
                        int_abs(end.rat().num()) <= int_abs(end_n),
                        end_n == bn * dd - nd * bd,
                        0 <= bn <= 0x4000_0000,
                        1 <= bd <= 0x4000_0000,
                        1 <= nd <= 0x4000_0000,
                        1 <= dd <= 0x4000_0000,
                ;
            }
            proof {
                // counter < end says exactly (k + 1) * duration < bar.
                lemma_lt_iff(counter.rat(), k * nd, dd, end.rat(), end_n, end_d);
            }
            if !counter.is_before(end) {
                proof {
                    // The loop stops exactly when one more duration
                    // reaches or passes the bar's end.
                    assert((k + 1) * (nd * bd) >= bn * dd) by (nonlinear_arith)
                        requires
                            !(k * nd * end_d < end_n * dd),
                            end_n == bn * dd - nd * bd,
                            end_d == bd * dd,
                            1 <= dd,
                            1 <= bd,
                    ;
                }
                break ;
            }
            proof {
                assert((k + 1) * (nd * bd) < bn * dd && k + 1 <= bn * dd) by (nonlinear_arith)
                    requires
                        k * nd * end_d < end_n * dd,
                        end_n == bn * dd - nd * bd,
                        end_d == bd * dd,
                        k >= 0,
                        1 <= nd,
                        1 <= dd,
                        1 <= bd,
                ;
                // The coming addition stays comfortably inside i128.
                assert(counter.rat().num() * dd <= i128::MAX && nd * counter.rat().den()
                    <= i128::MAX && counter.rat().num() * dd + nd * counter.rat().den()
                    <= i128::MAX && counter.rat().den() * dd <= i128::MAX) by (nonlinear_arith)
                    requires
                        0 <= counter.rat().num() <= 0x2000_0000_0000_0000_0000,
                        1 <= counter.rat().den() <= dd,
                        1 <= nd <= 0x4000_0000,
                        1 <= dd <= 0x4000_0000,
                ;
            }
            let ghost old_counter = counter;
            counter = counter.add_duration(duration);
            proof {
                // The new onset denotes (k + 1) * duration ...
                assert(counter.rat().num() * dd == (k + 1) * nd * counter.rat().den())
                    by (nonlinear_arith)
                    requires
                        counter.rat().num() * (old_counter.rat().den() * dd) == (
                        old_counter.rat().num() * dd + nd * old_counter.rat().den())
                            * counter.rat().den(),
                        old_counter.rat().num() * dd == k * nd * old_counter.rat().den(),
                        old_counter.rat().den() >= 1,
                        counter.rat().den() >= 1,
                        dd >= 1,
                ;
                // ... is non-negative, and stays on the duration's grid.
                assert(counter.rat().num() >= 0) by (nonlinear_arith)
                    requires
                        counter.rat().num() * dd == (k + 1) * nd * counter.rat().den(),
                        k >= 0,
                        nd >= 1,
                        dd >= 1,
                        counter.rat().den() >= 1,
                ;
                lemma_reduced_den_divides(counter.rat(), dd, (k + 1) * nd);
                lemma_divides_le(counter.rat().den(), dd);
            }
            notes.push(RhythmNote::new(counter, duration));
            proof {
                assert(bn * dd - (k + 1) * (nd * bd) < bn * dd - k * (nd * bd)) by (nonlinear_arith)
                    requires
                        nd >= 1,
                        bd >= 1,
                ;
            }
        }
        RhythmPattern { notes }
    }
}

} // verus!
