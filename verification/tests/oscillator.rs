use tonegen::oscillator::{
    sawtooth_sample, square_sample, triangle_sample, wave_sample, WaveShape, MAX_AMPLITUDE,
};

// 1 Hz tone sampled at 1000 Hz: one period is exactly 1000 samples.
const ONE_HZ: u64 = 1000;
const RATE: u32 = 1000;

#[test]
fn square_is_exactly_full_scale() {
    for s in 0..3000usize {
        let amp = square_sample(s, ONE_HZ, RATE);
        assert!(amp == MAX_AMPLITUDE || amp == -MAX_AMPLITUDE);
    }
    for s in 0..500usize {
        assert_eq!(square_sample(s, ONE_HZ, RATE), MAX_AMPLITUDE);
    }
    for s in 500..1000usize {
        assert_eq!(square_sample(s, ONE_HZ, RATE), -MAX_AMPLITUDE);
    }
    // An awkward frequency keeps the output two-valued as well.
    for s in 0..2000usize {
        let amp = square_sample(s, 440_737, 48_000);
        assert!(amp == MAX_AMPLITUDE || amp == -MAX_AMPLITUDE);
    }
}

#[test]
fn sawtooth_stays_in_range() {
    for s in 0..3000usize {
        let amp = sawtooth_sample(s, ONE_HZ, RATE);
        assert!(-MAX_AMPLITUDE <= amp && amp < MAX_AMPLITUDE);
    }
    for s in 0..2000usize {
        let amp = sawtooth_sample(s, 440_737, 48_000);
        assert!(-MAX_AMPLITUDE <= amp && amp < MAX_AMPLITUDE);
    }
}

#[test]
fn sawtooth_crosses_zero_at_period_start() {
    // The ramp is phase-centered: it is zero at the very start of each
    // period, per the defining formula.
    assert_eq!(sawtooth_sample(0, ONE_HZ, RATE), 0);
    assert_eq!(sawtooth_sample(1000, ONE_HZ, RATE), 0);
    // Quarter period: halfway up the ramp.
    assert_eq!(sawtooth_sample(250, ONE_HZ, RATE), MAX_AMPLITUDE / 2);
    // Three quarters: halfway down the negative flank.
    assert_eq!(sawtooth_sample(750, ONE_HZ, RATE), -MAX_AMPLITUDE / 2);
    // Just before the half-period wrap the ramp is near full scale.
    assert!(sawtooth_sample(499, ONE_HZ, RATE) > MAX_AMPLITUDE - 200);
    // At the half period the ramp wraps to the bottom.
    assert_eq!(sawtooth_sample(500, ONE_HZ, RATE), -MAX_AMPLITUDE);
}

#[test]
fn sawtooth_ramps_smoothly_between_period_boundaries() {
    // 1 Hz at 1000 Hz wraps halfway through each 1000-sample period (the
    // ramp is phase-centered), at s = 500, 1500, ... . Everywhere else it
    // never falls and climbs by at most the per-sample step of
    // 2 * MAX_AMPLITUDE / 1000 plus one quantization unit.
    let max_step = 2 * MAX_AMPLITUDE / 1000 + 1;
    for s in 0..3000usize {
        let here = sawtooth_sample(s, ONE_HZ, RATE);
        let next = sawtooth_sample(s + 1, ONE_HZ, RATE);
        if (s + 1) % 1000 == 500 {
            // Period boundary: the ramp jumps back to the bottom.
            assert_eq!(next, -MAX_AMPLITUDE);
        } else {
            assert!(next >= here);
            assert!(next - here <= max_step);
        }
    }
}

#[test]
fn triangle_stays_in_range() {
    for s in 0..3000usize {
        let amp = triangle_sample(s, ONE_HZ, RATE);
        assert!(-MAX_AMPLITUDE <= amp && amp <= MAX_AMPLITUDE);
    }
    for s in 0..2000usize {
        let amp = triangle_sample(s, 440_737, 48_000);
        assert!(-MAX_AMPLITUDE <= amp && amp <= MAX_AMPLITUDE);
    }
}

#[test]
fn triangle_ramps_up_and_down() {
    // Starts at the bottom, crosses zero at the quarter period, peaks at
    // the half period, and returns to zero at three quarters.
    assert_eq!(triangle_sample(0, ONE_HZ, RATE), -MAX_AMPLITUDE);
    assert_eq!(triangle_sample(250, ONE_HZ, RATE), 0);
    assert_eq!(triangle_sample(500, ONE_HZ, RATE), MAX_AMPLITUDE);
    assert_eq!(triangle_sample(750, ONE_HZ, RATE), 0);
    assert_eq!(triangle_sample(1000, ONE_HZ, RATE), -MAX_AMPLITUDE);
}

#[test]
fn wave_sample_dispatches_by_shape() {
    for s in [0usize, 123, 250, 499, 500, 750, 999, 1000, 1750] {
        assert_eq!(wave_sample(WaveShape::Square, s, ONE_HZ, RATE), square_sample(s, ONE_HZ, RATE));
        assert_eq!(
            wave_sample(WaveShape::Sawtooth, s, ONE_HZ, RATE),
            sawtooth_sample(s, ONE_HZ, RATE)
        );
        assert_eq!(
            wave_sample(WaveShape::Triangle, s, ONE_HZ, RATE),
            triangle_sample(s, ONE_HZ, RATE)
        );
    }
}
