use notecraft::rhythm::BarTimePoint;
use notecraft::rhythm::BarTimeSignature;
use notecraft::rhythm::Duration;
use notecraft::rhythm::RhythmNote;
use notecraft::rhythm::RhythmPattern;
use notecraft::rhythm::StraitRhythmNotes;
use notecraft::rhythm::TimePoint;

#[test]
pub fn rhythm_test_straight_rhythm_notes() {
    let rhythm_pattern1: RhythmPattern = RhythmPattern::straight_rhythm_notes(
        BarTimeSignature::four_quarter_time(),
        Duration::quarter(),
    );
    let asserted_pattern1: Vec<RhythmNote> = vec![
        RhythmNote::new(BarTimePoint::new(0, 4), Duration::quarter()),
        RhythmNote::new(BarTimePoint::new(1, 4), Duration::quarter()),
        RhythmNote::new(BarTimePoint::new(2, 4), Duration::quarter()),
        RhythmNote::new(BarTimePoint::new(3, 4), Duration::quarter()),
    ];
    assert_eq!(rhythm_pattern1.notes, asserted_pattern1);

    let rhythm_pattern2: RhythmPattern = RhythmPattern::straight_rhythm_notes(
        BarTimeSignature::new(6, 8),
        Duration::new(3, 8),
    );
    let asserted_pattern2: Vec<RhythmNote> = vec![
        RhythmNote::new(BarTimePoint::new(0, 4), Duration::new(3, 8)),
        RhythmNote::new(BarTimePoint::new(3, 8), Duration::new(3, 8)),
    ];
    assert_eq!(rhythm_pattern2.notes, asserted_pattern2);
}

#[test]
pub fn rhythm_test_micro_timing() {
    assert_eq!(
        BarTimePoint::get_micro_timing(
            &vec![
                BarTimePoint::new(0, 4),
                BarTimePoint::new(1, 4),
                BarTimePoint::new(2, 4),
                BarTimePoint::new(3, 4),
            ]
        ),
        4
    );
}

#[test]
pub fn mod_test_straight_rhythm_notes() {
    let rhythm_pattern1: RhythmPattern = RhythmPattern::straight_rhythm_notes(
        BarTimeSignature::four_quarter_time(),
        Duration::quarter(),
    );
    let asserted_pattern1: Vec<RhythmNote> = vec![
        RhythmNote::new(TimePoint::new(0, 4), Duration::quarter()),
        RhythmNote::new(TimePoint::new(1, 4), Duration::quarter()),
        RhythmNote::new(TimePoint::new(2, 4), Duration::quarter()),
        RhythmNote::new(TimePoint::new(3, 4), Duration::quarter()),
    ];
    assert_eq!(rhythm_pattern1.notes, asserted_pattern1);

    let rhythm_pattern2: RhythmPattern = RhythmPattern::straight_rhythm_notes(
        BarTimeSignature::new(6, 8),
        Duration::new(3, 8),
    );
    let asserted_pattern2: Vec<RhythmNote> = vec![
        RhythmNote::new(TimePoint::new(0, 4), Duration::new(3, 8)),
        RhythmNote::new(TimePoint::new(3, 8), Duration::new(3, 8)),
    ];
    assert_eq!(rhythm_pattern2.notes, asserted_pattern2);
}

#[test]
pub fn mod_test_micro_timing() {
    let time_points = vec![
        TimePoint::new(0, 4),
        TimePoint::new(1, 4),
        TimePoint::new(2, 4),
        TimePoint::new(3, 4),
    ];
    assert_eq!(TimePoint::get_micro_timing(&time_points), 4);
    println!("{}", time_points[0].get_denominator());
}

#[test]
pub fn test_straight_rhythm_notes_pattern() {
    let rhythm_pattern1: RhythmPattern = RhythmPattern::straight_rhythm_notes(
        BarTimeSignature::four_quarter_time(),
        Duration::quarter(),
    );
    let asserted_pattern1: Vec<RhythmNote> = vec![
        RhythmNote::new(TimePoint::new(0, 4), Duration::quarter()),
        RhythmNote::new(TimePoint::new(1, 4), Duration::quarter()),
        RhythmNote::new(TimePoint::new(2, 4), Duration::quarter()),
        RhythmNote::new(TimePoint::new(3, 4), Duration::quarter()),
    ];
    assert_eq!(rhythm_pattern1.notes, asserted_pattern1);

    let rhythm_pattern2: RhythmPattern = RhythmPattern::straight_rhythm_notes(
        BarTimeSignature::new(6, 8),
        Duration::new(3, 8),
    );
    let asserted_pattern2: Vec<RhythmNote> = vec![
        RhythmNote::new(TimePoint::new(0, 4), Duration::new(3, 8)),
        RhythmNote::new(TimePoint::new(3, 8), Duration::new(3, 8)),
    ];
    assert_eq!(rhythm_pattern2.notes, asserted_pattern2);
}

#[test]
pub fn test_straight_rhythm_notes_gen() {
    let duration = Duration::new(1, 4);
    let mut srn: StraitRhythmNotes = StraitRhythmNotes::with_duration(duration);

    let mut tp = TimePoint::new(0, 1);
    let mut count: u32 = 0;
    while count < 20 {
        let note = srn.next();
        assert_eq!(note, RhythmNote::new(tp, duration));
        tp = tp.add_duration(duration);
        count += 1;
    }
}

#[test]
pub fn equal_fractions_compare_equal() {
    // 2/8 and 1/4 denote the same bar position, and reduce identically.
    let a = BarTimePoint::new(2, 8);
    let b = BarTimePoint::new(1, 4);
    assert_eq!(a, b);
    assert_eq!(a.get_nominator(), 1);
    assert_eq!(a.get_denominator(), 4);
    assert!(!a.is_before(b));
    assert!(!b.is_before(a));

    let c = Duration::new(6, 4);
    let d = Duration::new(3, 2);
    assert_eq!(c, d);
}

#[test]
pub fn unit_steps_sum_to_exactly_one_bar() {
    // n steps of 1/n land exactly on the full bar, for every n up to 32.
    for n in 1..=32u32 {
        let step = Duration::new(1, n);
        let mut tp = BarTimePoint::new(0, 1);
        for _ in 0..n {
            tp = tp.add_duration(step);
        }
        assert_eq!(tp, BarTimePoint::new(1, 1));
    }
}

#[test]
pub fn micro_timing_of_mixed_denominators() {
    assert_eq!(
        BarTimePoint::get_micro_timing(
            &vec![BarTimePoint::new(1, 4), BarTimePoint::new(3, 8)]
        ),
        8
    );
    assert_eq!(
        BarTimePoint::get_micro_timing(
            &vec![BarTimePoint::new(1, 3), BarTimePoint::new(1, 4)]
        ),
        12
    );
    assert_eq!(BarTimePoint::get_micro_timing(&Vec::new()), 1);
}

#[test]
pub fn micro_timing_is_idempotent() {
    let time_points = vec![
        BarTimePoint::new(1, 3),
        BarTimePoint::new(1, 4),
        BarTimePoint::new(5, 6),
    ];
    let first = BarTimePoint::get_micro_timing(&time_points);
    let second = BarTimePoint::get_micro_timing(&time_points);
    assert_eq!(first, second);
    assert_eq!(first, 12);
}

#[test]
pub fn one_note_when_duration_fills_the_bar() {
    let pattern = RhythmPattern::straight_rhythm_notes(
        BarTimeSignature::four_quarter_time(),
        Duration::whole(),
    );
    assert_eq!(pattern.notes.len(), 1);
    assert_eq!(pattern.notes[0], RhythmNote::new(BarTimePoint::new(0, 1), Duration::whole()));

    // A duration longer than the bar still yields exactly one note.
    let oversized = RhythmPattern::straight_rhythm_notes(
        BarTimeSignature::two_quarter_time(),
        Duration::new(3, 2),
    );
    assert_eq!(oversized.notes.len(), 1);
}

#[test]
pub fn signature_to_time_point() {
    let bar = BarTimeSignature::six_eighth_time().to_time_point();
    assert_eq!(bar.get_nominator(), 3);
    assert_eq!(bar.get_denominator(), 4);
    let three = BarTimeSignature::three_quarter_time();
    assert_eq!(three.get_nominator(), 3);
    assert_eq!(three.get_denominator(), 4);
}

#[test]
pub fn time_point_arithmetic() {
    let p = BarTimePoint::new(1, 4).add_duration(Duration::eighth());
    assert_eq!(p, BarTimePoint::new(3, 8));
    let q = p.sub_duration(Duration::eighth());
    assert_eq!(q, BarTimePoint::new(1, 4));
    let d = Duration::from_time_point(BarTimePoint::new(1, 2));
    assert_eq!(d, Duration::half());
    assert_eq!(Duration::sixteenth(), Duration::new(1, 16));
    assert_eq!(Duration::eighth(), Duration::new(2, 16));
}
