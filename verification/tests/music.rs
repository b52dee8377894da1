use notecraft::chords::ChordTemplate;
use notecraft::chords::KeyChord;
use notecraft::chords::PitchChord;
use notecraft::intervals::Interval;
use notecraft::intervals::UnspecifiedInterval;
use notecraft::keys::Key;
use notecraft::math::greatest_common_divisor;
use notecraft::math::least_common_multiple;
use notecraft::math::least_common_multiple_of_vec;
use notecraft::math::neg_modulo;
use notecraft::pitch::Octave;
use notecraft::pitch::Pitch;
use notecraft::pitch::PitchRange;
use notecraft::scale::KeyScale;
use notecraft::scale::ScaleTemplate;

#[test]
pub fn test_neg_modulo() {
    assert_eq!(neg_modulo(2, 10), 2);
    assert_eq!(neg_modulo(-2, 10), 8);
    assert_eq!(neg_modulo(-13, 10), 7);
}

#[test]
pub fn test_neg_modulo_extremes() {
    assert_eq!(neg_modulo(i32::MIN, 7), 5);
    assert_eq!(neg_modulo(i32::MAX, 2), 1);
    assert_eq!(neg_modulo(-1, 4294967295), 4294967294);
}

#[test]
pub fn test_gcd() {
    assert_eq!(greatest_common_divisor(5, 15), 5);
    assert_eq!(greatest_common_divisor(9, 21), 3);
}

#[test]
pub fn test_lcm() {
    assert_eq!(least_common_multiple(5, 15), 15);
    assert_eq!(least_common_multiple(9, 21), 63);
    assert_eq!(least_common_multiple(24, 7), 168);

    assert_eq!(least_common_multiple_of_vec(&vec![3, 5, 8, 35]), Ok(840));
    assert_eq!(least_common_multiple_of_vec(&vec![4, 7, 1, 3]), Ok(84));
    assert_eq!(least_common_multiple_of_vec(&vec![4, 0]), Err("vec should not contain 0"));
    assert_eq!(
        least_common_multiple_of_vec(&vec![4]),
        Err("vec should at least contain 2 values")
    );
}

#[test]
pub fn test_lcm_of_zeroes() {
    assert_eq!(least_common_multiple(0, 0), 0);
    assert_eq!(least_common_multiple(0, 5), 0);
}

#[test]
pub fn keys_key_add_interval() {
    assert_eq!(Key::b(), Key::a().add_interval(Interval::major_second()));
    assert_eq!(
        Key::c(),
        Key::a().add_interval(Interval::octave()).add_interval(Interval::minor_third())
    );
    assert_eq!(Key::f(), Key::cis().add_interval(Interval::major_third()));
}

#[test]
pub fn keys_key_sub_interval() {
    assert_eq!(Key::g(), Key::a().sub_interval(Interval::major_second()));
    assert_eq!(
        Key::fis(),
        Key::a().sub_interval(Interval::octave()).sub_interval(Interval::minor_third())
    );
}

#[test]
pub fn mod_key_add_interval() {
    assert_eq!(Key::b(), Key::a().add_interval(Interval::major_second()));
    assert_eq!(
        Key::c(),
        Key::a().add_interval(Interval::octave()).add_interval(Interval::minor_third())
    );
    assert_eq!(Key::f(), Key::cis().add_interval(Interval::major_third()));
}

#[test]
pub fn mod_key_sub_interval() {
    assert_eq!(Key::g(), Key::a().sub_interval(Interval::major_second()));
    assert_eq!(
        Key::fis(),
        Key::a().sub_interval(Interval::octave()).sub_interval(Interval::minor_third())
    );
}

#[test]
pub fn from_pitch_to_key() {
    assert_eq!(Key::f(), Key::from_pitch(Pitch { value: -4 }));
    assert_eq!(Key::b(), Key::from_pitch(Pitch { value: 2 }));
}

#[test]
pub fn test_to_major_or_perfect() {
    assert_eq!(UnspecifiedInterval::octave().to_major_or_perfect(), Interval::octave());
    assert_eq!(UnspecifiedInterval::third().to_major_or_perfect(), Interval::major_third());
    assert_eq!(UnspecifiedInterval::new(-1).to_major_or_perfect(), Interval::major_seventh());
    assert_eq!(UnspecifiedInterval::tenth().to_major_or_perfect(), Interval::major_tenth());
}

#[test]
pub fn test_to_minor_or_perfect() {
    assert_eq!(UnspecifiedInterval::octave().to_minor_or_perfect(), Interval::octave());
    assert_eq!(UnspecifiedInterval::third().to_minor_or_perfect(), Interval::minor_third());
    assert_eq!(UnspecifiedInterval::new(-1).to_minor_or_perfect(), Interval::minor_seventh());
    assert_eq!(UnspecifiedInterval::tenth().to_minor_or_perfect(), Interval::minor_tenth());
}

#[test]
pub fn chords_major_chords() {
    let major_chord_template = ChordTemplate::major();

    let major_a_chord = KeyChord::from_chord_template(&major_chord_template, Key::a());
    assert!(major_a_chord.keys.contains(&Key::a()));
    assert!(major_a_chord.keys.contains(&Key::cis()));
    assert!(major_a_chord.keys.contains(&Key::e()));
    assert_eq!(major_a_chord.keys.len(), 3);

    let major_cis_chord = KeyChord::from_chord_template(&major_chord_template, Key::cis());
    assert!(major_cis_chord.keys.contains(&Key::cis()));
    assert!(major_cis_chord.keys.contains(&Key::f()));
    assert!(major_cis_chord.keys.contains(&Key::gis()));
    assert_eq!(major_cis_chord.keys.len(), 3);
}

#[test]
pub fn chords_minor_chords() {
    let minor_chord_template = ChordTemplate::minor();

    let minor_gis_chord = KeyChord::from_chord_template(&minor_chord_template, Key::gis());
    assert!(minor_gis_chord.keys.contains(&Key::gis()));
    assert!(minor_gis_chord.keys.contains(&Key::b()));
    assert!(minor_gis_chord.keys.contains(&Key::dis()));
    assert_eq!(minor_gis_chord.keys.len(), 3);

    let minor_cis_chord = KeyChord::from_chord_template(&minor_chord_template, Key::cis());
    assert!(minor_cis_chord.keys.contains(&Key::cis()));
    assert!(minor_cis_chord.keys.contains(&Key::e()));
    assert!(minor_cis_chord.keys.contains(&Key::gis()));
    assert_eq!(minor_cis_chord.keys.len(), 3);
}

#[test]
pub fn mod_major_chords() {
    let major_chord_template = ChordTemplate::major();

    let major_a_chord = KeyChord::from_chord_template(&major_chord_template, Key::a());
    assert!(major_a_chord.keys.contains(&Key::a()));
    assert!(major_a_chord.keys.contains(&Key::cis()));
    assert!(major_a_chord.keys.contains(&Key::e()));
    assert_eq!(major_a_chord.keys.len(), 3);

    let major_cis_chord = KeyChord::from_chord_template(&major_chord_template, Key::cis());
    assert!(major_cis_chord.keys.contains(&Key::cis()));
    assert!(major_cis_chord.keys.contains(&Key::f()));
    assert!(major_cis_chord.keys.contains(&Key::gis()));
    assert_eq!(major_cis_chord.keys.len(), 3);
}

#[test]
pub fn mod_minor_chords() {
    let minor_chord_template = ChordTemplate::minor();

    let minor_a_chord = KeyChord::from_chord_template(&minor_chord_template, Key::gis());
    assert!(minor_a_chord.keys.contains(&Key::gis()));
    assert!(minor_a_chord.keys.contains(&Key::b()));
    assert!(minor_a_chord.keys.contains(&Key::dis()));
    assert_eq!(minor_a_chord.keys.len(), 3);

    let minor_cis_chord = KeyChord::from_chord_template(&minor_chord_template, Key::cis());
    assert!(minor_cis_chord.keys.contains(&Key::cis()));
    assert!(minor_cis_chord.keys.contains(&Key::e()));
    assert!(minor_cis_chord.keys.contains(&Key::gis()));
    assert_eq!(minor_cis_chord.keys.len(), 3);
}

#[test]
pub fn pitch_chord_from_chord_and_pitch_range() {
    let pitch_range = PitchRange { lower: Pitch { value: 24 }, upper: Pitch { value: 42 } };
    let chord = KeyChord::from_chord_template(&ChordTemplate::major(), Key::a());
    let pitch_chord = PitchChord::from_chord_and_pitch_range(chord, pitch_range);

    let mut values: Vec<i32> = pitch_chord.pitches.iter().map(|p| p.value).collect();
    values.sort();
    assert_eq!(values, vec![24, 28, 31, 36, 40]);
    assert_eq!(pitch_chord.pitches.len(), 5);
}

#[test]
pub fn pitch_chord_from_chord_and_octave() {
    let chord = KeyChord::from_chord_template(&ChordTemplate::major(), Key::a());
    let pitch_chord = PitchChord::from_chord_and_octave(&chord, Octave { value: 2 });
    let values: Vec<i32> = pitch_chord.pitches.iter().map(|p| p.value).collect();
    assert_eq!(values, vec![24, 28, 31]);
}

#[test]
pub fn major_scales() {
    let major_a_scale = KeyScale::from_scale_template(&ScaleTemplate::major(), Key::a());
    let major_a_keys = vec![Key::a(), Key::b(), Key::cis(), Key::d(), Key::e(), Key::fis(),
        Key::gis()];
    assert_eq!(major_a_scale.keys, major_a_keys);

    let major_cis_scale = KeyScale::from_scale_template(&ScaleTemplate::major(), Key::cis());
    let major_cis_keys = vec![Key::cis(), Key::dis(), Key::f(), Key::fis(), Key::gis(),
        Key::ais(), Key::c()];
    assert_eq!(major_cis_scale.keys, major_cis_keys);
}

#[test]
pub fn minor_scales() {
    let minor_a_scale = KeyScale::from_scale_template(&ScaleTemplate::minor(), Key::a());
    let minor_a_keys = vec![Key::a(), Key::b(), Key::c(), Key::d(), Key::e(), Key::f(), Key::g()];
    assert_eq!(minor_a_scale.keys, minor_a_keys);

    let minor_c_scale = KeyScale::from_scale_template(&ScaleTemplate::minor(), Key::c());
    let minor_c_keys = vec![Key::c(), Key::d(), Key::dis(), Key::f(), Key::g(), Key::gis(),
        Key::ais()];
    assert_eq!(minor_c_scale.keys, minor_c_keys);

    // harmonic minor
    let minor_harmonic_a_scale = KeyScale::from_scale_template(
        &ScaleTemplate::minor_harmonic(),
        Key::a(),
    );
    let minor_harmonic_a_keys = vec![Key::a(), Key::b(), Key::c(), Key::d(), Key::e(), Key::f(),
        Key::gis()];
    assert_eq!(minor_harmonic_a_scale.keys, minor_harmonic_a_keys);
}

#[test]
pub fn pitch_midi_numbers() {
    assert_eq!(Pitch { value: 0 }.to_midi_number(), Some(21));
    assert_eq!(Pitch { value: -21 }.to_midi_number(), Some(0));
    assert_eq!(Pitch { value: -22 }.to_midi_number(), None);
    assert_eq!(Pitch { value: 39 }.to_midi_number(), Some(60));
}

#[test]
pub fn pitch_overlying_and_underlying() {
    let p = Pitch { value: 24 };
    assert_eq!(p.get_overlying_pitch(Key::a()).value, 24);
    assert_eq!(p.get_overlying_pitch(Key::cis()).value, 28);
    assert_eq!(p.get_underlying_pitch(Key::cis()).value, 16);
    assert_eq!(Pitch { value: -4 }.get_overlying_pitch(Key::a()).value, 0);
}
