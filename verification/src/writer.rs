//! The sequence writer: orders pitched notes onto the least integer tick
//! grid that represents them exactly, renders note-on / note-off events
//! and the end-of-track marker, and packs them into a standard midi file
//! through the rimd crate. Writing the file to disk is left to the caller.

use vstd::prelude::*;
use vstd::multiset::Multiset;
use vstd::arithmetic::div_mod::lemma_fundamental_div_mod;
use crate::math::divides;
use crate::math::lemma_divides_le;
use crate::note::Note;
use crate::rhythm::end_time_point;
use crate::rhythm::lemma_end_point_wf;
use crate::rhythm::lemma_end_time_point;
use crate::rhythm::lemma_micro_timing_places_all;
use crate::rhythm::lemma_note_points_index;
use crate::rhythm::lemma_note_points_len;
use crate::rhythm::lemma_spec_rhythm_note;
use crate::rhythm::micro_timing_of;
use crate::rhythm::note_points;
use crate::rhythm::spec_rhythm_note;
use crate::rhythm::BarTimePoint;
use crate::rhythm::RhythmNote;

verus! {

/// One rendered note event on the tick grid: a note-on or note-off for
/// an instrument note number, at an absolute tick.
#[derive(Clone, Copy, PartialEq, Eq, Structural, Debug)]
pub struct NoteEvent {
    pub tick: u64,
    pub note_number: u8,
    pub on: bool,
}

/// A rendered track: the note events in emission order, the tick of the
/// end-of-track marker, and the resolved division (ticks per bar).
pub struct RenderedTrack {
    pub events: Vec<NoteEvent>,
    pub end_of_track_tick: u64,
    pub division: i32,
}

/// The rhythm parts of a note list.
pub open spec fn rhythm_notes_of(s: Seq<Note>) -> Seq<RhythmNote> {
    s.map(|_i: int, n: Note| spec_rhythm_note(n.time_point, n.duration))
}

/// Whether a note's pitch maps to an instrument note number at all.
pub open spec fn representable(n: Note) -> bool {
    n.pitch.value >= -21
}

/// The instrument note number of a representable note.
pub open spec fn note_number_of(n: Note) -> int {
    n.pitch.value + 21
}

/// The absolute tick of a position on a grid of `t` ticks per bar: the
/// grid is a multiple of the denominator, so this is exact.
pub open spec fn ticks_at(t: int, p: BarTimePoint) -> int {
    t / p.rat().den() * p.rat().num()
}

/// The end of a note, as a position.
pub open spec fn note_end(n: Note) -> BarTimePoint {
    end_time_point(spec_rhythm_note(n.time_point, n.duration))
}

/// A note is small enough for the writer's arithmetic: its parts are
/// well-formed and bounded (the bounds only keep the exact tick
/// arithmetic inside the machine integers), and its pitch has room for
/// the note-number offset within one byte.
pub open spec fn renderable(n: Note) -> bool {
    &&& n.time_point.wf()
    &&& n.duration.wf()
    &&& n.time_point.rat().num() >= 0
    &&& n.time_point.rat().num() <= 0x4000_0000
    &&& n.time_point.rat().den() <= 0x4000_0000
    &&& n.duration.rat().num() <= 0x4000_0000
    &&& n.duration.rat().den() <= 0x4000_0000
    &&& n.pitch.value <= 234
}

/// The events the writer emits for a note list on a grid of `t` ticks
/// per bar: a note-on at the onset tick and a note-off at the end tick
/// for every representable note, in note order; notes below the
/// representable floor contribute nothing.
pub open spec fn events_of(s: Seq<Note>, t: int) -> Seq<NoteEvent>
    decreases s.len(),
{
    if s.len() == 0 {
        Seq::empty()
    } else {
        events_of(s.drop_last(), t) + (if representable(s.last()) {
            seq![
                NoteEvent {
                    tick: ticks_at(t, s.last().time_point) as u64,
                    note_number: note_number_of(s.last()) as u8,
                    on: true,
                },
                NoteEvent {
                    tick: ticks_at(t, note_end(s.last())) as u64,
                    note_number: note_number_of(s.last()) as u8,
                    on: false,
                },
            ]
        } else {
            Seq::empty()
        })
    }
}

/// The largest end tick over the representable notes; 0 when none.
pub open spec fn max_end_tick(s: Seq<Note>, t: int) -> int
    decreases s.len(),
{
    if s.len() == 0 {
        0
    } else {
        let rest = max_end_tick(s.drop_last(), t);
        if representable(s.last()) && ticks_at(t, note_end(s.last())) > rest {
            ticks_at(t, note_end(s.last()))
        } else {
            rest
        }
    }
}

/// The absolute tick of a position whose denominator divides the grid.
fn to_ticks(timing: i32, p: BarTimePoint) -> (r: u64)
    requires
        p.wf(),
        0 <= p.rat().num(),
        p.rat().num() <= 0x8000_0000 * p.rat().den(),
        1 <= timing,
        divides(p.rat().den(), timing as int),
    ensures
        r == ticks_at(timing as int, p),
        r <= 0x4000_0000_0000_0000,
{
    proof {
        lemma_divides_le(p.rat().den(), timing as int);
        lemma_fundamental_div_mod(timing as int, p.rat().den());
        assert((timing as int / p.rat().den()) * p.rat().num() <= 0x8000_0000 * timing
            <= 0x4000_0000_0000_0000) by (nonlinear_arith)
            requires
                timing as int == p.rat().den() * (timing as int / p.rat().den()) + timing as int
                    % p.rat().den(),
                0 <= timing as int % p.rat().den(),
                0 <= p.rat().num() <= 0x8000_0000 * p.rat().den(),
                1 <= p.rat().den() <= timing,
                1 <= timing <= 0x7fff_ffff,
        ;
        assert(timing as u64 / p.rat().den() as u64 == timing as int / p.rat().den());
    }
    let den = p.wide_denominator();
    let num = p.wide_nominator();
    (timing as u64 / den as u64) * (num as u64)
}

/// Collects pitched notes and renders them, in one export call, onto the
/// least integer tick grid that places every onset and end exactly.
pub struct MidiWriter {
    notes: Vec<Note>,
}

impl MidiWriter {
    /// The notes collected so far, in the order they were added.
    pub closed spec fn spec_notes(self) -> Seq<Note> {
        self.notes@
    }

    /// A writer with no notes yet.
    pub fn new() -> (r: MidiWriter)
        ensures
            r.spec_notes() =~= Seq::<Note>::empty(),
    {
        MidiWriter { notes: Vec::new() }
    }

    /// Appends the given notes to the writer's collection.
    pub fn add_notes(&mut self, notes: &Vec<Note>)
        ensures
            final (self).spec_notes() == old(self).spec_notes() + notes@,
    {
        let mut idx: usize = 0;
        while idx < notes.len()
            invariant
                0 <= idx <= notes@.len(),
                self.notes@ == old(self).notes@ + notes@.take(idx as int),
            decreases notes@.len() - idx,
        {
            self.notes.push(notes[idx]);
            proof {
                assert(old(self).notes@ + notes@.take(idx + 1) =~= (old(self).notes@ + notes@.take(
                    idx as int,
                )).push(notes@[idx as int]));
            }
            idx = idx + 1;
        }
        proof {
            assert(notes@.take(notes@.len() as int) =~= notes@);
        }
    }

    /// Renders the collected notes: resolves the micro timing, converts
    /// every representable note's onset and end to absolute ticks, emits
    /// its note-on / note-off pair, and places the end-of-track marker
    /// one tick past the largest end tick.
    pub fn render(&self) -> (r: RenderedTrack)
        requires
            forall|i: int|
                0 <= i < self.spec_notes().len() ==> renderable(#[trigger] self.spec_notes()[i]),
            micro_timing_of(note_points(rhythm_notes_of(self.spec_notes()))) <= i32::MAX,
        ensures
            r.division == micro_timing_of(note_points(rhythm_notes_of(self.spec_notes()))),
            r.division >= 1,
            r.events@ == events_of(self.spec_notes(), r.division as int),
            r.end_of_track_tick == max_end_tick(self.spec_notes(), r.division as int) + 1,
    {
        let ghost notes_seq = self.spec_notes();
        let ghost rns = rhythm_notes_of(notes_seq);

        // Every onset and every end of every note, for the resolver.
        let mut rhythm_notes: Vec<RhythmNote> = Vec::new();
        let mut idx: usize = 0;
        while idx < self.notes.len()
            invariant
                0 <= idx <= notes_seq.len(),
                notes_seq == self.spec_notes(),
                forall|i: int| 0 <= i < notes_seq.len() ==> renderable(#[trigger] notes_seq[i]),
                rhythm_notes@ == rhythm_notes_of(notes_seq).take(idx as int),
            decreases notes_seq.len() - idx,
        {
            let note = self.notes[idx];
            proof {
                assert(renderable(notes_seq[idx as int]));
                lemma_spec_rhythm_note(note.time_point, note.duration);
            }
            rhythm_notes.push(note.get_rhythm_note());
            proof {
                assert(rhythm_notes@ =~= rhythm_notes_of(notes_seq).take(idx + 1));
            }
            idx = idx + 1;
        }
        proof {
            assert(rhythm_notes_of(notes_seq).take(notes_seq.len() as int) =~= rns);
            assert forall|i: int| 0 <= i < rns.len() implies (#[trigger] rns[i]).wf()
                && rns[i].spec_time_point().rat().num() * rns[i].spec_duration().rat().den()
                + rns[i].spec_duration().rat().num() * rns[i].spec_time_point().rat().den()
                <= i128::MAX && rns[i].spec_time_point().rat().den()
                * rns[i].spec_duration().rat().den() <= i128::MAX by {
                assert(renderable(notes_seq[i]));
                lemma_spec_rhythm_note(notes_seq[i].time_point, notes_seq[i].duration);
                lemma_note_bounds(notes_seq[i]);
            }
        }
        let micro_timing = RhythmNote::to_micro_timing(&rhythm_notes);

        let mut events: Vec<NoteEvent> = Vec::new();
        let mut max_end: u64 = 0;
        let mut idx2: usize = 0;
        proof {
            assert(events_of(notes_seq.take(0), micro_timing as int) =~= Seq::<
                NoteEvent,
            >::empty());
        }
        while idx2 < self.notes.len()
            invariant
                0 <= idx2 <= notes_seq.len(),
                notes_seq == self.spec_notes(),
                forall|i: int| 0 <= i < notes_seq.len() ==> renderable(#[trigger] notes_seq[i]),
                rns == rhythm_notes_of(notes_seq),
                1 <= micro_timing,
                micro_timing == micro_timing_of(note_points(rns)),
                events@ == events_of(notes_seq.take(idx2 as int), micro_timing as int),
                max_end == max_end_tick(notes_seq.take(idx2 as int), micro_timing as int),
                max_end <= 0x4000_0000_0000_0000,
            decreases notes_seq.len() - idx2,
        {
            let note = self.notes[idx2];
            let ghost taken = notes_seq.take(idx2 + 1);
            proof {
                assert(taken.drop_last() =~= notes_seq.take(idx2 as int));
                assert(taken.last() == note);
                assert(renderable(notes_seq[idx2 as int]));
            }
            if let Some(pitch) = note.pitch.to_midi_number() {
                proof {
                    lemma_spec_rhythm_note(note.time_point, note.duration);
                    assert(rns[idx2 as int] == spec_rhythm_note(note.time_point, note.duration));
                    lemma_note_bounds(note);
                    lemma_note_points_len(rns);
                    lemma_note_points_index(rns, idx2 as int);
                    lemma_rhythm_note_seq_bounds(notes_seq, rns);
                    crate::rhythm::lemma_note_points_wf(rns);
                    lemma_micro_timing_places_all(note_points(rns), 2 * idx2 as int);
                    lemma_micro_timing_places_all(note_points(rns), 2 * idx2 as int + 1);
                    lemma_end_point_wf(rns[idx2 as int]);
                    // The end's value is at most onset plus duration, so its
                    // numerator is bounded against its denominator.
                    lemma_end_tick_bound(note);
                }
                let onset_tick = to_ticks(micro_timing, note.time_point);
                let end_point = note.get_rhythm_note().get_time_points().1;
                proof {
                    lemma_end_time_point(rns[idx2 as int]);
                    assert(end_point.rat() == note_end(note).rat());
                }
                let end_tick = to_ticks(micro_timing, end_point);
                events.push(
                    NoteEvent { tick: onset_tick, note_number: pitch as u8, on: true },
                );
                events.push(NoteEvent { tick: end_tick, note_number: pitch as u8, on: false });
                if max_end < end_tick {
                    max_end = end_tick;
                }
                proof {
                    assert(events@ =~= events_of(taken, micro_timing as int));
                }
            } else {
                proof {
                    assert(events@ =~= events_of(taken, micro_timing as int));
                }
            }
            idx2 = idx2 + 1;
        }
        proof {
            assert(notes_seq.take(notes_seq.len() as int) =~= notes_seq);
        }
        RenderedTrack { events, end_of_track_tick: max_end + 1, division: micro_timing }
    }
}

#[verifier::external_type_specification]
#[verifier::external_body]
pub struct ExMidiMessage(rimd::MidiMessage);

#[verifier::external_type_specification]
#[verifier::external_body]
pub struct ExMetaEvent(rimd::MetaEvent);

#[verifier::external_type_specification]
#[verifier::external_body]
pub struct ExSMFBuilder(rimd::SMFBuilder);

#[verifier::external_type_specification]
#[verifier::external_body]
pub struct ExSMF(rimd::SMF);

/// The raw bytes of a midi message.
pub uninterp spec fn midi_message_bytes(m: rimd::MidiMessage) -> Seq<u8>;

/// Whether a meta event is the end-of-track marker.
pub uninterp spec fn meta_is_end_of_track(e: rimd::MetaEvent) -> bool;

/// The midi events a builder holds: (track, absolute tick, bytes).
pub uninterp spec fn builder_midi_events(b: rimd::SMFBuilder) -> Multiset<(int, int, Seq<u8>)>;

/// The meta events a builder holds: (track, absolute tick, whether the
/// event is the end-of-track marker).
pub uninterp spec fn builder_meta_events(b: rimd::SMFBuilder) -> Multiset<(int, int, bool)>;

/// How many tracks a builder holds.
pub uninterp spec fn builder_num_tracks(b: rimd::SMFBuilder) -> int;

/// The midi events a finished file holds, as its builder held them.
pub uninterp spec fn smf_midi_events(s: rimd::SMF) -> Multiset<(int, int, Seq<u8>)>;

/// The meta events a finished file holds.
pub uninterp spec fn smf_meta_events(s: rimd::SMF) -> Multiset<(int, int, bool)>;

/// The file's declared division (ticks per bar).
pub uninterp spec fn smf_division(s: rimd::SMF) -> int;

/// Relies on rimd::MidiMessage::note_on: a three-byte message whose
/// status byte is 0x90 with the channel in the low nibble.
#[verifier::external_body]
fn midi_note_on(note: u8, velocity: u8, channel: u8) -> (r: rimd::MidiMessage)
    requires
        channel < 16,
    ensures
        midi_message_bytes(r) == seq![(0x90 + channel) as u8, note, velocity],
{
    rimd::MidiMessage::note_on(note, velocity, channel)
}

/// Relies on rimd::MidiMessage::note_off: a three-byte message whose
/// status byte is 0x80 with the channel in the low nibble.
#[verifier::external_body]
fn midi_note_off(note: u8, velocity: u8, channel: u8) -> (r: rimd::MidiMessage)
    requires
        channel < 16,
    ensures
        midi_message_bytes(r) == seq![(0x80 + channel) as u8, note, velocity],
{
    rimd::MidiMessage::note_off(note, velocity, channel)
}

/// Relies on rimd::MetaEvent::end_of_track.
#[verifier::external_body]
fn meta_end_of_track() -> (r: rimd::MetaEvent)
    ensures
        meta_is_end_of_track(r),
{
    rimd::MetaEvent::end_of_track()
}

/// Relies on rimd::SMFBuilder::new: a builder with no tracks and no
/// events at all.
#[verifier::external_body]
fn smf_builder_new() -> (r: rimd::SMFBuilder)
    ensures
        builder_num_tracks(r) == 0,
        builder_midi_events(r) == Multiset::<(int, int, Seq<u8>)>::empty(),
        builder_meta_events(r) == Multiset::<(int, int, bool)>::empty(),
{
    rimd::SMFBuilder::new()
}

/// Relies on rimd::SMFBuilder::add_track: appends one empty track and
/// leaves the existing events alone.
#[verifier::external_body]
fn smf_builder_add_track(b: &mut rimd::SMFBuilder)
    ensures
        builder_num_tracks(*final (b)) == builder_num_tracks(*old(b)) + 1,
        builder_midi_events(*final (b)) == builder_midi_events(*old(b)),
        builder_meta_events(*final (b)) == builder_meta_events(*old(b)),
{
    b.add_track();
}

/// Relies on rimd::SMFBuilder::add_midi_abs: pushes the message at the
/// absolute time onto the track's event heap (it panics on a track that
/// does not exist, so that is ruled out here).
#[verifier::external_body]
fn smf_builder_add_midi_abs(b: &mut rimd::SMFBuilder, track: usize, time: u64, msg: rimd::MidiMessage)
    requires
        track < builder_num_tracks(*old(b)),
    ensures
        builder_num_tracks(*final (b)) == builder_num_tracks(*old(b)),
        builder_midi_events(*final (b)) == builder_midi_events(*old(b)).insert(
            (track as int, time as int, midi_message_bytes(msg)),
        ),
        builder_meta_events(*final (b)) == builder_meta_events(*old(b)),
{
    b.add_midi_abs(track, time, msg);
}

/// Relies on rimd::SMFBuilder::add_meta_abs: pushes the meta event at
/// the absolute time onto the track's event heap (it panics on a track
/// that does not exist, so that is ruled out here).
#[verifier::external_body]
fn smf_builder_add_meta_abs(b: &mut rimd::SMFBuilder, track: usize, time: u64, event: rimd::MetaEvent)
    requires
        track < builder_num_tracks(*old(b)),
    ensures
        builder_num_tracks(*final (b)) == builder_num_tracks(*old(b)),
        builder_midi_events(*final (b)) == builder_midi_events(*old(b)),
        builder_meta_events(*final (b)) == builder_meta_events(*old(b)).insert(
            (track as int, time as int, meta_is_end_of_track(event)),
        ),
{
    b.add_meta_abs(track, time, event);
}

/// Relies on rimd::SMFBuilder::result: the finished file carries exactly
/// the builder's events (each track's heap written out sorted by time)
/// and a division field of zero, to be set afterwards.
#[verifier::external_body]
fn smf_builder_result(b: rimd::SMFBuilder) -> (r: rimd::SMF)
    ensures
        smf_midi_events(r) == builder_midi_events(b),
        smf_meta_events(r) == builder_meta_events(b),
        smf_division(r) == 0,
{
    b.result()
}

/// Relies on the public `division` field of rimd::SMF: writing it leaves
/// the events untouched.
#[verifier::external_body]
fn smf_set_division(smf: &mut rimd::SMF, division: i16)
    ensures
        smf_division(*final (smf)) == division,
        smf_midi_events(*final (smf)) == smf_midi_events(*old(smf)),
        smf_meta_events(*final (smf)) == smf_meta_events(*old(smf)),
{
    smf.division = division;
}

/// The bytes of the midi message a rendered event stands for: note-on or
/// note-off status on channel 0, the note number, velocity 127.
pub open spec fn event_bytes(e: NoteEvent) -> Seq<u8> {
    seq![
        if e.on {
            0x90u8
        } else {
            0x80u8
        },
        e.note_number,
        127u8,
    ]
}

/// The rendered events as the file's event multiset, all on track 0.
pub open spec fn events_multiset(s: Seq<NoteEvent>) -> Multiset<(int, int, Seq<u8>)>
    decreases s.len(),
{
    if s.len() == 0 {
        Multiset::empty()
    } else {
        events_multiset(s.drop_last()).insert(
            (0int, s.last().tick as int, event_bytes(s.last())),
        )
    }
}

impl MidiWriter {
    /// The finished midi file for the collected notes: its division is
    /// the resolved micro timing, and its single track holds exactly the
    /// note-on / note-off pair of every representable note, at their
    /// onset and end ticks, plus one end-of-track marker one tick past
    /// the largest end tick. The division field of a standard midi file
    /// is a signed 16-bit value, which bounds the admissible micro
    /// timing. Writing the file to a destination is the caller's step.
    pub fn to_smf(&self) -> (r: rimd::SMF)
        requires
            forall|i: int|
                0 <= i < self.spec_notes().len() ==> renderable(#[trigger] self.spec_notes()[i]),
            micro_timing_of(note_points(rhythm_notes_of(self.spec_notes()))) <= 0x7fff,
        ensures
            smf_division(r) == micro_timing_of(note_points(rhythm_notes_of(self.spec_notes()))),
            smf_midi_events(r) == events_multiset(
                events_of(
                    self.spec_notes(),
                    micro_timing_of(note_points(rhythm_notes_of(self.spec_notes()))) as int,
                ),
            ),
            smf_meta_events(r) == Multiset::<(int, int, bool)>::empty().insert(
                (
                    0int,
                    max_end_tick(
                        self.spec_notes(),
                        micro_timing_of(note_points(rhythm_notes_of(self.spec_notes()))) as int,
                    ) + 1,
                    true,
                ),
            ),
    {
        let track = self.render();
        let mut builder = smf_builder_new();
        smf_builder_add_track(&mut builder);
        let mut idx: usize = 0;
        proof {
            assert(events_multiset(track.events@.take(0)) =~= Multiset::<(
                int,
                int,
                Seq<u8>,
            )>::empty());
        }
        while idx < track.events.len()
            invariant
                0 <= idx <= track.events@.len(),
                builder_num_tracks(builder) == 1,
                builder_midi_events(builder) == events_multiset(track.events@.take(idx as int)),
                builder_meta_events(builder) == Multiset::<(int, int, bool)>::empty(),
            decreases track.events@.len() - idx,
        {
            let ev = track.events[idx];
            let msg = if ev.on {
                midi_note_on(ev.note_number, 127, 0)
            } else {
                midi_note_off(ev.note_number, 127, 0)
            };
            proof {
                assert(track.events@.take(idx + 1).drop_last() =~= track.events@.take(idx as int));
                assert(midi_message_bytes(msg) =~= event_bytes(ev));
            }
            smf_builder_add_midi_abs(&mut builder, 0, ev.tick, msg);
            idx = idx + 1;
        }
        proof {
            assert(track.events@.take(track.events@.len() as int) =~= track.events@);
        }
        smf_builder_add_meta_abs(&mut builder, 0, track.end_of_track_tick, meta_end_of_track());
        let mut smf = smf_builder_result(builder);
        smf_set_division(&mut smf, track.division as i16);
        smf
    }
}

/// The rhythm parts of renderable notes meet the resolver's bounds.
proof fn lemma_rhythm_note_seq_bounds(notes_seq: Seq<Note>, rns: Seq<RhythmNote>)
    requires
        rns == rhythm_notes_of(notes_seq),
        forall|i: int| 0 <= i < notes_seq.len() ==> renderable(#[trigger] notes_seq[i]),
    ensures
        forall|i: int|
            0 <= i < rns.len() ==> (#[trigger] rns[i]).wf() && rns[i].spec_time_point().rat().num()
                * rns[i].spec_duration().rat().den() + rns[i].spec_duration().rat().num()
                * rns[i].spec_time_point().rat().den() <= i128::MAX
                && rns[i].spec_time_point().rat().den() * rns[i].spec_duration().rat().den()
                <= i128::MAX,
{
    assert forall|i: int| 0 <= i < rns.len() implies (#[trigger] rns[i]).wf()
        && rns[i].spec_time_point().rat().num() * rns[i].spec_duration().rat().den()
        + rns[i].spec_duration().rat().num() * rns[i].spec_time_point().rat().den() <= i128::MAX
        && rns[i].spec_time_point().rat().den() * rns[i].spec_duration().rat().den()
        <= i128::MAX by {
        assert(renderable(notes_seq[i]));
        lemma_spec_rhythm_note(notes_seq[i].time_point, notes_seq[i].duration);
        lemma_note_bounds(notes_seq[i]);
    }
}

/// A renderable note's parts stay far inside the machine limits, and its
/// end position's numerator is bounded by twice the input bound times
/// its denominator.
proof fn lemma_note_bounds(n: Note)
    requires
        renderable(n),
    ensures
        n.time_point.rat().num() * n.duration.rat().den() + n.duration.rat().num()
            * n.time_point.rat().den() <= i128::MAX,
        n.time_point.rat().den() * n.duration.rat().den() <= i128::MAX,
        n.time_point.rat().num() <= 0x8000_0000 * n.time_point.rat().den(),
{
    assert(n.time_point.rat().num() * n.duration.rat().den() + n.duration.rat().num()
        * n.time_point.rat().den() <= i128::MAX && n.time_point.rat().den()
        * n.duration.rat().den() <= i128::MAX && n.time_point.rat().num() <= 0x8000_0000
        * n.time_point.rat().den()) by (nonlinear_arith)
        requires
            0 <= n.time_point.rat().num() <= 0x4000_0000,
            1 <= n.time_point.rat().den() <= 0x4000_0000,
            0 <= n.duration.rat().num() <= 0x4000_0000,
            1 <= n.duration.rat().den() <= 0x4000_0000,
    ;
}

/// The end position of a renderable note denotes at most two bars'
/// worth of value: its numerator is at most `2^31` denominators.
proof fn lemma_end_tick_bound(n: Note)
    requires
        renderable(n),
    ensures
        note_end(n).rat().num() <= 0x8000_0000 * note_end(n).rat().den(),
        note_end(n).rat().num() >= 0,
        note_end(n).wf(),
{
    lemma_spec_rhythm_note(n.time_point, n.duration);
    lemma_note_bounds(n);
    lemma_end_point_wf(spec_rhythm_note(n.time_point, n.duration));
    let e = note_end(n).rat();
    let tn = n.time_point.rat().num();
    let td = n.time_point.rat().den();
    let dn = n.duration.rat().num();
    let dd = n.duration.rat().den();
    // From e * (td * dd) == (tn * dd + dn * td) * e.den() and the input
    // bounds, the end's value is below 2^31.
    assert(e.num() <= 0x8000_0000 * e.den()) by (nonlinear_arith)
        requires
            e.num() * (td * dd) == (tn * dd + dn * td) * e.den(),
            0 <= tn <= 0x4000_0000,
            1 <= td <= 0x4000_0000,
            0 <= dn <= 0x4000_0000,
            1 <= dd <= 0x4000_0000,
            e.den() >= 1,
    ;
}

} // verus!
