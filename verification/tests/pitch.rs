use tonegen::pitch::frequency_millihertz;

#[test]
fn reference_pitch_is_440_hz() {
    assert_eq!(frequency_millihertz(0), 440_000);
}

#[test]
fn octaves_double_and_halve_exactly() {
    assert_eq!(frequency_millihertz(12), 880_000);
    assert_eq!(frequency_millihertz(-12), 220_000);
    assert_eq!(frequency_millihertz(24), 1_760_000);
    assert_eq!(frequency_millihertz(-24), 110_000);
}

#[test]
fn semitone_steps_match_equal_temperament() {
    // A#4 = 466.16376... Hz, floored to whole millihertz.
    assert_eq!(frequency_millihertz(1), 466_163);
    // G#4 = 415.30469... Hz.
    assert_eq!(frequency_millihertz(-1), 415_304);
    // E5 = 659.25511... Hz.
    assert_eq!(frequency_millihertz(7), 659_255);
}

#[test]
fn frequency_increases_with_pitch_over_the_audible_range() {
    let mut prev = frequency_millihertz(-60);
    for p in -59..=60 {
        let f = frequency_millihertz(p);
        assert!(f > prev);
        prev = f;
    }
}

#[test]
fn very_low_pitches_fall_to_zero_millihertz() {
    // Far below any audible pitch the millihertz value underflows to 0.
    assert_eq!(frequency_millihertz(-1200), 0);
    assert_eq!(frequency_millihertz(i32::MIN), 0);
}
