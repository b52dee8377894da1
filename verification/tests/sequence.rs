use notecraft::keys::Key;
use notecraft::note::Note;
use notecraft::pitch::Octave;
use notecraft::pitch::Pitch;
use notecraft::rhythm::Duration;
use notecraft::rhythm::TimePoint;
use notecraft::writer::MidiWriter;
use notecraft::writer::NoteEvent;
use rimd::Event;

#[test]
pub fn single_quarter_note_round_trip() {
    // One quarter note at the bar's start: the division is the resolved
    // micro timing, the pair sits at ticks 0 and T/4, and the
    // end-of-track marker one tick past the note's end.
    let mut writer = MidiWriter::new();
    let notes = vec![Note {
        time_point: TimePoint::new(0, 1),
        duration: Duration::quarter(),
        pitch: Pitch { value: 0 },
    }];
    writer.add_notes(&notes);
    let track = writer.render();

    let t = track.division;
    assert_eq!(t, 4);
    assert_eq!(
        track.events,
        vec![
            NoteEvent { tick: 0, note_number: 21, on: true },
            NoteEvent { tick: (t / 4) as u64, note_number: 21, on: false },
        ]
    );
    assert_eq!(track.end_of_track_tick, (t / 4) as u64 + 1);
}

#[test]
pub fn single_quarter_note_smf() {
    let mut writer = MidiWriter::new();
    let notes = vec![Note {
        time_point: TimePoint::new(0, 1),
        duration: Duration::quarter(),
        pitch: Pitch { value: 0 },
    }];
    writer.add_notes(&notes);
    let smf = writer.to_smf();

    assert_eq!(smf.division, 4);
    assert_eq!(smf.tracks.len(), 1);
    let events = &smf.tracks[0].events;
    assert_eq!(events.len(), 3);

    assert_eq!(events[0].vtime, 0);
    match &events[0].event {
        Event::Midi(msg) => assert_eq!(msg.data, vec![0x90, 21, 127]),
        Event::Meta(_) => panic!("expected a note-on first"),
    }
    assert_eq!(events[1].vtime, 1);
    match &events[1].event {
        Event::Midi(msg) => assert_eq!(msg.data, vec![0x80, 21, 127]),
        Event::Meta(_) => panic!("expected a note-off second"),
    }
    assert_eq!(events[2].vtime, 1);
    match &events[2].event {
        Event::Midi(_) => panic!("expected the end-of-track marker last"),
        Event::Meta(meta) => assert_eq!(meta.command, rimd::MetaCommand::EndOfTrack),
    }
}

#[test]
pub fn below_floor_pitches_are_dropped_not_fatal() {
    // A pitch below the representable floor is silently excluded, but
    // the export still succeeds and renders the other notes.
    let mut writer = MidiWriter::new();
    let notes = vec![
        Note {
            time_point: TimePoint::new(0, 4),
            duration: Duration::quarter(),
            pitch: Pitch { value: -22 },
        },
        Note {
            time_point: TimePoint::new(1, 4),
            duration: Duration::quarter(),
            pitch: Pitch { value: 3 },
        },
    ];
    writer.add_notes(&notes);
    let track = writer.render();

    assert_eq!(track.division, 4);
    assert_eq!(
        track.events,
        vec![
            NoteEvent { tick: 1, note_number: 24, on: true },
            NoteEvent { tick: 2, note_number: 24, on: false },
        ]
    );
    assert_eq!(track.end_of_track_tick, 3);
}

#[test]
pub fn empty_note_collection_renders_trivially() {
    let writer = MidiWriter::new();
    let track = writer.render();
    assert_eq!(track.division, 1);
    assert!(track.events.is_empty());
    assert_eq!(track.end_of_track_tick, 1);
}

#[test]
pub fn rendering_twice_gives_the_same_track() {
    let mut writer = MidiWriter::new();
    let notes = vec![
        Note {
            time_point: TimePoint::new(0, 4),
            duration: Duration::eighth(),
            pitch: Pitch::from_key_and_octave(Key::c(), Octave { value: 3 }),
        },
        Note {
            time_point: TimePoint::new(1, 3),
            duration: Duration::new(1, 6),
            pitch: Pitch::from_key_and_octave(Key::e(), Octave { value: 3 }),
        },
    ];
    writer.add_notes(&notes);
    let first = writer.render();
    let second = writer.render();
    assert_eq!(first.division, second.division);
    assert_eq!(first.events, second.events);
    assert_eq!(first.end_of_track_tick, second.end_of_track_tick);
}

#[test]
pub fn mixed_subdivisions_share_one_grid() {
    // An eighth at 0 and a triplet-ish sixth at 1/3 need 24 ticks a bar:
    // onsets and ends have denominators {1, 8, 3, 2}.
    let mut writer = MidiWriter::new();
    let notes = vec![
        Note {
            time_point: TimePoint::new(0, 1),
            duration: Duration::eighth(),
            pitch: Pitch { value: 10 },
        },
        Note {
            time_point: TimePoint::new(1, 3),
            duration: Duration::new(1, 6),
            pitch: Pitch { value: 12 },
        },
    ];
    writer.add_notes(&notes);
    let track = writer.render();

    assert_eq!(track.division, 24);
    assert_eq!(
        track.events,
        vec![
            NoteEvent { tick: 0, note_number: 31, on: true },
            NoteEvent { tick: 3, note_number: 31, on: false },
            NoteEvent { tick: 8, note_number: 33, on: true },
            NoteEvent { tick: 12, note_number: 33, on: false },
        ]
    );
    assert_eq!(track.end_of_track_tick, 13);
}
