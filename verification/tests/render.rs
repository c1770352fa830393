use tonegen::oscillator::{square_sample, WaveShape, MAX_AMPLITUDE};
use tonegen::timeline::Timeline;

const SECOND_US: u64 = 1_000_000;

#[test]
fn empty_timeline_without_silence_is_empty() {
    let t = Timeline::new();
    assert_eq!(t.len(), 0);
    let wave = t.render(48_000, 0);
    assert_eq!(wave.len(), 0);
}

#[test]
fn empty_timeline_renders_the_trailing_silence() {
    let t = Timeline::new();
    // 1.5 s of silence at 48 kHz.
    let wave = t.render(48_000, 1_500_000);
    assert_eq!(wave.len(), 72_000);
    for v in &wave {
        assert_eq!(*v, 0);
    }
}

#[test]
fn fractional_sample_counts_truncate() {
    let t = Timeline::new();
    // 10 us at 48 kHz is 0.48 samples: truncation yields none.
    let wave = t.render(48_000, 10);
    assert_eq!(wave.len(), 0);
    // 1000 us of extra silence after a 499-sample tone span.
    let mut t2 = Timeline::new();
    t2.append_event(WaveShape::Square, 0, 10_399, 0);
    let wave2 = t2.render(48_000, 0);
    // floor(48000 * 0.010399) = 499
    assert_eq!(wave2.len(), 499);
}

#[test]
fn zero_duration_event_contributes_nothing() {
    let mut t = Timeline::new();
    t.append_event(WaveShape::Triangle, 0, 0, 0);
    let wave = t.render(48_000, SECOND_US);
    assert_eq!(wave.len(), 48_000);
    for v in &wave {
        assert_eq!(*v, 0);
    }
}

#[test]
fn one_second_square_at_reference_pitch() {
    // One square event: start 0, duration 1 s, pitch 0 (440 Hz), rendered
    // at 48 kHz with no trailing silence.
    let mut t = Timeline::new();
    t.append_event(WaveShape::Square, 0, SECOND_US, 0);
    let wave = t.render(48_000, 0);
    assert_eq!(wave.len(), 48_000);
    // Every sample is exactly full scale, one way or the other, and the
    // sign flips at the samples nearest multiples of the 1/880 s
    // half-period: the wave is + while frac(s * 440 / 48000) < 1/2,
    // i.e. while (s * 11) mod 1200 < 600.
    for (s, v) in wave.iter().enumerate() {
        let expected = if (s * 11) % 1200 < 600 { MAX_AMPLITUDE } else { -MAX_AMPLITUDE };
        assert_eq!(*v, expected);
    }
    // Spot-check the first flip: 48000 / 880 = 54.5..., so samples 0..=54
    // are high and sample 55 is the first low one.
    assert_eq!(wave[54], MAX_AMPLITUDE);
    assert_eq!(wave[55], -MAX_AMPLITUDE);
    // One full period later the wave is high again: 48000/440 = 109.09...
    assert_eq!(wave[109], -MAX_AMPLITUDE);
    assert_eq!(wave[110], MAX_AMPLITUDE);
}

#[test]
fn single_event_matches_oscillator_samples() {
    let mut t = Timeline::new();
    t.append_event(WaveShape::Square, 0, SECOND_US, 0);
    let wave = t.render(48_000, 0);
    // frequency(0) = 440 Hz = 440000 mHz.
    for (s, v) in wave.iter().enumerate() {
        assert_eq!(*v, square_sample(s, 440_000, 48_000));
    }
}

#[test]
fn non_overlapping_events_keep_their_regions() {
    let mut both = Timeline::new();
    both.append_event(WaveShape::Square, 0, SECOND_US / 2, 0);
    both.append_event(WaveShape::Sawtooth, SECOND_US, SECOND_US / 2, 7);
    let wave = both.render(48_000, 0);
    assert_eq!(wave.len(), 72_000);

    let mut first = Timeline::new();
    first.append_event(WaveShape::Square, 0, SECOND_US / 2, 0);
    let wave_first = first.render(48_000, 0);

    let mut second = Timeline::new();
    second.append_event(WaveShape::Sawtooth, SECOND_US, SECOND_US / 2, 7);
    let wave_second = second.render(48_000, 0);
    assert_eq!(wave_second.len(), 72_000);

    // In the first event's region the mix equals its solo render.
    for s in 0..wave_first.len() {
        assert_eq!(wave[s], wave_first[s]);
    }
    // The gap between the events is silent.
    for s in 24_000..48_000 {
        assert_eq!(wave[s], 0);
    }
    // In the second event's region the mix equals its solo render.
    for s in 48_000..72_000 {
        assert_eq!(wave[s], wave_second[s]);
    }
}

#[test]
fn overlapping_events_mix_additively() {
    let mut both = Timeline::new();
    both.append_event(WaveShape::Triangle, 0, SECOND_US, 0);
    both.append_event(WaveShape::Triangle, 0, SECOND_US, 0);
    let wave = both.render(48_000, 0);

    let mut one = Timeline::new();
    one.append_event(WaveShape::Triangle, 0, SECOND_US, 0);
    let solo = one.render(48_000, 0);

    assert_eq!(wave.len(), solo.len());
    for s in 0..wave.len() {
        assert_eq!(wave[s], solo[s] + solo[s]);
    }
}

#[test]
fn overlapping_different_events_sum_their_solo_renders() {
    let mut both = Timeline::new();
    both.append_event(WaveShape::Square, 0, SECOND_US, 0);
    both.append_event(WaveShape::Sawtooth, 0, SECOND_US, -6);
    let wave = both.render(48_000, 0);

    let mut a = Timeline::new();
    a.append_event(WaveShape::Square, 0, SECOND_US, 0);
    let wave_a = a.render(48_000, 0);

    let mut b = Timeline::new();
    b.append_event(WaveShape::Sawtooth, 0, SECOND_US, -6);
    let wave_b = b.render(48_000, 0);

    assert_eq!(wave.len(), wave_a.len());
    assert_eq!(wave.len(), wave_b.len());
    for s in 0..wave.len() {
        assert_eq!(wave[s], wave_a[s] + wave_b[s]);
    }
}

#[test]
fn rendering_twice_is_bit_identical() {
    let mut t = Timeline::new();
    t.append_event(WaveShape::Square, 0, SECOND_US, 0);
    t.append_event(WaveShape::Sawtooth, SECOND_US / 4, SECOND_US, 5);
    t.append_event(WaveShape::Triangle, SECOND_US / 2, SECOND_US / 4, -17);
    let w1 = t.render(44_100, 123_456);
    let w2 = t.render(44_100, 123_456);
    assert_eq!(w1, w2);
}

#[test]
fn event_order_does_not_change_the_mix() {
    let mut ab = Timeline::new();
    ab.append_event(WaveShape::Square, 0, SECOND_US, 3);
    ab.append_event(WaveShape::Triangle, SECOND_US / 2, SECOND_US, -3);
    let mut ba = Timeline::new();
    ba.append_event(WaveShape::Triangle, SECOND_US / 2, SECOND_US, -3);
    ba.append_event(WaveShape::Square, 0, SECOND_US, 3);
    assert_eq!(ab.render(22_050, 0), ba.render(22_050, 0));
}

#[test]
fn try_render_agrees_with_render() {
    let mut t = Timeline::new();
    t.append_event(WaveShape::Sawtooth, 0, SECOND_US, 2);
    let checked = t.try_render(8_000, 125).expect("limits hold");
    assert_eq!(checked, t.render(8_000, 125));
}

#[test]
fn try_render_rejects_a_zero_sample_rate() {
    let mut t = Timeline::new();
    t.append_event(WaveShape::Square, 0, SECOND_US, 0);
    assert!(t.try_render(0, 0).is_none());
    assert!(t.try_render(1, 0).is_some());
}

#[test]
fn max_end_and_num_samples_follow_the_latest_event() {
    let mut t = Timeline::new();
    assert_eq!(t.max_end_us(), 0);
    t.append_event(WaveShape::Square, SECOND_US, SECOND_US, 0);
    t.append_event(WaveShape::Square, 0, SECOND_US / 2, 0);
    assert_eq!(t.len(), 2);
    assert_eq!(t.max_end_us(), 2 * SECOND_US);
    assert_eq!(t.num_samples(48_000, 0), 96_000);
    assert_eq!(t.num_samples(48_000, SECOND_US / 2), 120_000);
}
