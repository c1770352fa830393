//! Periodic oscillator functions.
//!
//! Each oscillator maps a sample index, a frequency and a sample rate to an
//! instantaneous amplitude. The elapsed time is `s / sample_rate` seconds and
//! the frequency is given in millihertz, so the phase in periods is the exact
//! rational `s * freq_mhz / (1000 * sample_rate)`. All three wave shapes are
//! computed from the integer part and the remainder of that rational alone —
//! no transcendental functions — so the output is fully deterministic.
//!
//! Amplitudes are fixed-point: `MAX_AMPLITUDE` stands for 1.0.

use vstd::arithmetic::div_mod::{
    lemma_basic_div, lemma_div_by_multiple, lemma_div_is_ordered, lemma_div_pos_is_pos,
    lemma_fundamental_div_mod, lemma_fundamental_div_mod_converse,
    lemma_mod_division_less_than_divisor, lemma_multiply_divide_le, lemma_multiply_divide_lt,
    lemma_small_mod,
};
use vstd::prelude::*;

verus! {

/// Fixed-point amplitude scale: this value stands for an amplitude of 1.0,
/// and its negation for -1.0.
pub const MAX_AMPLITUDE: i64 = 65536;

/// Upper bound on the frequencies (in millihertz) the oscillators accept;
/// far above any audible frequency, it keeps the 128-bit phase arithmetic
/// free of overflow for every sample index.
pub const MAX_FREQ_MHZ: u64 = 0x2000_0000_0000_0000;

/// The closed set of wave shapes an event can select.
#[derive(Clone, Copy, PartialEq, Eq, Structural, Debug)]
pub enum WaveShape {
    Square,
    Sawtooth,
    Triangle,
}

/// Phase of sample `s` at `freq_mhz` millihertz and `sample_rate` Hz,
/// expressed in periods, is `phase_num / phase_den` as an exact rational.
pub open spec fn phase_num(s: int, freq_mhz: int) -> int {
    s * freq_mhz
}

/// Denominator of the rational phase: millihertz times hertz.
pub open spec fn phase_den(sample_rate: int) -> int {
    1000 * sample_rate
}

/// Square wave: +1 while the fractional phase is in the first half of the
/// period, -1 in the second half (50% duty cycle), scaled to fixed point.
pub open spec fn square_amp(s: int, freq_mhz: int, sample_rate: int) -> int {
    let pd = phase_den(sample_rate);
    if 2 * (phase_num(s, freq_mhz) % pd) < pd {
        MAX_AMPLITUDE as int
    } else {
        -MAX_AMPLITUDE as int
    }
}

/// The fractional part of `phase + 1/2`, scaled by twice the phase
/// denominator: `centered_phase_rem / (2 * pd)` equals `frac(phase + 1/2)`,
/// so the centered phase `phase - floor(phase + 1/2)` equals
/// `(centered_phase_rem - pd) / (2 * pd)`.
pub open spec fn centered_phase_rem(s: int, freq_mhz: int, sample_rate: int) -> int {
    let pd = phase_den(sample_rate);
    (2 * phase_num(s, freq_mhz) + pd) % (2 * pd)
}

/// Sawtooth wave: a linear ramp across each period that crosses zero at the
/// start of the period, i.e. `2 * (phase - floor(phase + 1/2))`, scaled to
/// fixed point with the quotient rounded toward negative infinity.
pub open spec fn sawtooth_amp(s: int, freq_mhz: int, sample_rate: int) -> int {
    let pd = phase_den(sample_rate);
    let c = centered_phase_rem(s, freq_mhz, sample_rate);
    (MAX_AMPLITUDE * c) / pd - MAX_AMPLITUDE
}

/// Triangle wave: `2 * |2 * (phase - floor(phase + 1/2))| - 1`, a ramp up
/// and down across each period, scaled to fixed point.
pub open spec fn triangle_amp(s: int, freq_mhz: int, sample_rate: int) -> int {
    let pd = phase_den(sample_rate);
    let c = centered_phase_rem(s, freq_mhz, sample_rate);
    let d = if c >= pd {
        c - pd
    } else {
        pd - c
    };
    (2 * MAX_AMPLITUDE * d) / pd - MAX_AMPLITUDE
}

/// Amplitude of the given wave shape at sample `s`.
pub open spec fn wave_amp(shape: WaveShape, s: int, freq_mhz: int, sample_rate: int) -> int {
    match shape {
        WaveShape::Square => square_amp(s, freq_mhz, sample_rate),
        WaveShape::Sawtooth => sawtooth_amp(s, freq_mhz, sample_rate),
        WaveShape::Triangle => triangle_amp(s, freq_mhz, sample_rate),
    }
}

/// The square wave takes exactly the two full-scale values and no others.
pub proof fn lemma_square_amp_range(s: int, freq_mhz: int, sample_rate: int)
    requires
        sample_rate >= 1,
    ensures
        square_amp(s, freq_mhz, sample_rate) == MAX_AMPLITUDE || square_amp(
            s,
            freq_mhz,
            sample_rate,
        ) == -MAX_AMPLITUDE,
{
}

/// The sawtooth wave stays in `[-MAX_AMPLITUDE, MAX_AMPLITUDE)`.
pub proof fn lemma_sawtooth_amp_range(s: int, freq_mhz: int, sample_rate: int)
    requires
        sample_rate >= 1,
    ensures
        -MAX_AMPLITUDE <= sawtooth_amp(s, freq_mhz, sample_rate) < MAX_AMPLITUDE,
{
    let pd = phase_den(sample_rate);
    let c = centered_phase_rem(s, freq_mhz, sample_rate);
    lemma_mod_division_less_than_divisor(2 * phase_num(s, freq_mhz) + pd, 2 * pd);
    assert(0 <= c < 2 * pd);
    assert(0 <= MAX_AMPLITUDE * c) by (nonlinear_arith)
        requires
            0 <= c,
    ;
    lemma_div_pos_is_pos(MAX_AMPLITUDE * c, pd);
    assert(MAX_AMPLITUDE * c < pd * (2 * MAX_AMPLITUDE)) by (nonlinear_arith)
        requires
            c < 2 * pd,
            pd >= 1,
    ;
    lemma_multiply_divide_lt(MAX_AMPLITUDE * c, pd, 2 * MAX_AMPLITUDE);
}

/// The triangle wave stays in `[-MAX_AMPLITUDE, MAX_AMPLITUDE]`.
pub proof fn lemma_triangle_amp_range(s: int, freq_mhz: int, sample_rate: int)
    requires
        sample_rate >= 1,
    ensures
        -MAX_AMPLITUDE <= triangle_amp(s, freq_mhz, sample_rate) <= MAX_AMPLITUDE,
{
    let pd = phase_den(sample_rate);
    let c = centered_phase_rem(s, freq_mhz, sample_rate);
    lemma_mod_division_less_than_divisor(2 * phase_num(s, freq_mhz) + pd, 2 * pd);
    let d = if c >= pd {
        c - pd
    } else {
        pd - c
    };
    assert(0 <= d <= pd);
    assert(0 <= 2 * MAX_AMPLITUDE * d) by (nonlinear_arith)
        requires
            0 <= d,
    ;
    lemma_div_pos_is_pos(2 * MAX_AMPLITUDE * d, pd);
    assert(2 * MAX_AMPLITUDE * d <= pd * (2 * MAX_AMPLITUDE)) by (nonlinear_arith)
        requires
            d <= pd,
            pd >= 1,
    ;
    lemma_multiply_divide_le(2 * MAX_AMPLITUDE * d, pd, 2 * MAX_AMPLITUDE);
}

/// Floors distribute over sums with at most one unit of slack:
/// `(x + y)/d <= x/d + y/d + 1` for nonnegative operands.
proof fn lemma_div_sum_upper(x: int, y: int, d: int)
    requires
        x >= 0,
        y >= 0,
        d >= 1,
    ensures
        (x + y) / d <= x / d + y / d + 1,
{
    lemma_fundamental_div_mod(x, d);
    lemma_fundamental_div_mod(y, d);
    lemma_div_pos_is_pos(x, d);
    lemma_div_pos_is_pos(y, d);
    let q = x / d + y / d;
    assert(x + y < d * (q + 2)) by (nonlinear_arith)
        requires
            x == d * (x / d) + x % d,
            y == d * (y / d) + y % d,
            x % d < d,
            y % d < d,
            q == x / d + y / d,
    ;
    lemma_multiply_divide_lt(x + y, d, q + 2);
}

/// Discrete form of the sawtooth's continuity: between two consecutive
/// samples whose phases fall inside one period — no period boundary lies
/// between them — the ramp never falls, and it climbs by at most the
/// per-sample phase step plus one quantization unit. Only at period
/// boundaries does the ramp jump back.
pub proof fn lemma_sawtooth_ramp_step(s: int, freq_mhz: int, sample_rate: int)
    requires
        s >= 0,
        freq_mhz >= 0,
        sample_rate >= 1,
        centered_phase_rem(s, freq_mhz, sample_rate) + 2 * freq_mhz < 2 * phase_den(sample_rate),
    ensures
        sawtooth_amp(s, freq_mhz, sample_rate) <= sawtooth_amp(s + 1, freq_mhz, sample_rate),
        sawtooth_amp(s + 1, freq_mhz, sample_rate) - sawtooth_amp(s, freq_mhz, sample_rate) <= (2
            * MAX_AMPLITUDE * freq_mhz) / phase_den(sample_rate) + 1,
{
    let pd = phase_den(sample_rate);
    let c = centered_phase_rem(s, freq_mhz, sample_rate);
    lemma_mod_division_less_than_divisor(2 * phase_num(s, freq_mhz) + pd, 2 * pd);
    // The next sample's phase remainder is exactly `c + 2 * freq_mhz`.
    assert(2 * phase_num(s + 1, freq_mhz) + pd == (2 * phase_num(s, freq_mhz) + pd) + 2
        * freq_mhz) by (nonlinear_arith);
    lemma_fundamental_div_mod(2 * phase_num(s, freq_mhz) + pd, 2 * pd);
    lemma_fundamental_div_mod_converse(
        2 * phase_num(s + 1, freq_mhz) + pd,
        2 * pd,
        (2 * phase_num(s, freq_mhz) + pd) / (2 * pd),
        c + 2 * freq_mhz,
    );
    let c1 = centered_phase_rem(s + 1, freq_mhz, sample_rate);
    assert(c1 == c + 2 * freq_mhz);
    // The ramp is the floor of a nondecreasing quantity.
    assert(MAX_AMPLITUDE * c1 == MAX_AMPLITUDE * c + 2 * MAX_AMPLITUDE * freq_mhz)
        by (nonlinear_arith)
        requires
            c1 == c + 2 * freq_mhz,
    ;
    assert(0 <= MAX_AMPLITUDE * c) by (nonlinear_arith)
        requires
            c >= 0,
    ;
    lemma_div_is_ordered(MAX_AMPLITUDE * c, MAX_AMPLITUDE * c1, pd);
    lemma_div_sum_upper(MAX_AMPLITUDE * c, 2 * MAX_AMPLITUDE * freq_mhz, pd);
}

/// Every wave shape keeps its amplitude within one full scale of zero.
pub proof fn lemma_wave_amp_range(shape: WaveShape, s: int, freq_mhz: int, sample_rate: int)
    requires
        sample_rate >= 1,
    ensures
        -MAX_AMPLITUDE <= wave_amp(shape, s, freq_mhz, sample_rate) <= MAX_AMPLITUDE,
{
    match shape {
        WaveShape::Square => lemma_square_amp_range(s, freq_mhz, sample_rate),
        WaveShape::Sawtooth => lemma_sawtooth_amp_range(s, freq_mhz, sample_rate),
        WaveShape::Triangle => lemma_triangle_amp_range(s, freq_mhz, sample_rate),
    }
}

/// Square-wave sample: exactly `MAX_AMPLITUDE` or `-MAX_AMPLITUDE`, never an
/// intermediate value.
pub fn square_sample(s: usize, freq_mhz: u64, sample_rate: u32) -> (amp: i64)
    requires
        sample_rate >= 1,
        freq_mhz < MAX_FREQ_MHZ,
    ensures
        amp == square_amp(s as int, freq_mhz as int, sample_rate as int),
        amp == MAX_AMPLITUDE || amp == -MAX_AMPLITUDE,
{
    proof {
        lemma_phase_product_bounded(s as int, freq_mhz as int);
    }
    let pn: u128 = (s as u128) * (freq_mhz as u128);
    let pd: u128 = 1000 * (sample_rate as u128);
    let r: u128 = pn % pd;
    if 2 * r < pd {
        MAX_AMPLITUDE
    } else {
        -MAX_AMPLITUDE
    }
}

/// Sawtooth-wave sample: a linear ramp over `[-MAX_AMPLITUDE, MAX_AMPLITUDE)`
/// that crosses zero at the start of each period, so the very first sample
/// of a tone is silent.
pub fn sawtooth_sample(s: usize, freq_mhz: u64, sample_rate: u32) -> (amp: i64)
    requires
        sample_rate >= 1,
        freq_mhz < MAX_FREQ_MHZ,
    ensures
        amp == sawtooth_amp(s as int, freq_mhz as int, sample_rate as int),
        -MAX_AMPLITUDE <= amp < MAX_AMPLITUDE,
        s == 0 ==> amp == 0,
{
    proof {
        lemma_phase_product_bounded(s as int, freq_mhz as int);
        lemma_sawtooth_amp_range(s as int, freq_mhz as int, sample_rate as int);
    }
    let pn: u128 = (s as u128) * (freq_mhz as u128);
    let pd: u128 = 1000 * (sample_rate as u128);
    let c: u128 = (2 * pn + pd) % (2 * pd);
    proof {
        lemma_mod_division_less_than_divisor(2 * (pn as int) + pd as int, 2 * (pd as int));
        lemma_div_pos_is_pos((MAX_AMPLITUDE * c) as int, pd as int);
        assert((MAX_AMPLITUDE as int) * (c as int) < (pd as int) * (2 * MAX_AMPLITUDE))
            by (nonlinear_arith)
            requires
                (c as int) < 2 * (pd as int),
                pd as int >= 1,
        ;
        lemma_multiply_divide_lt(
            (MAX_AMPLITUDE as int) * (c as int),
            pd as int,
            2 * MAX_AMPLITUDE,
        );
        if s == 0 {
            lemma_small_mod(pd as nat, (2 * pd) as nat);
            lemma_div_by_multiple(MAX_AMPLITUDE as int, pd as int);
        }
    }
    let q: u128 = ((MAX_AMPLITUDE as u128) * c) / pd;
    (q as i64) - MAX_AMPLITUDE
}

/// Triangle-wave sample: a ramp up and down across each period, starting at
/// `-MAX_AMPLITUDE` on the first sample of a tone.
pub fn triangle_sample(s: usize, freq_mhz: u64, sample_rate: u32) -> (amp: i64)
    requires
        sample_rate >= 1,
        freq_mhz < MAX_FREQ_MHZ,
    ensures
        amp == triangle_amp(s as int, freq_mhz as int, sample_rate as int),
        -MAX_AMPLITUDE <= amp <= MAX_AMPLITUDE,
        s == 0 ==> amp == -MAX_AMPLITUDE,
{
    proof {
        lemma_phase_product_bounded(s as int, freq_mhz as int);
        lemma_triangle_amp_range(s as int, freq_mhz as int, sample_rate as int);
    }
    let pn: u128 = (s as u128) * (freq_mhz as u128);
    let pd: u128 = 1000 * (sample_rate as u128);
    let c: u128 = (2 * pn + pd) % (2 * pd);
    proof {
        lemma_mod_division_less_than_divisor(2 * (pn as int) + pd as int, 2 * (pd as int));
    }
    let d: u128 = if c >= pd {
        c - pd
    } else {
        pd - c
    };
    proof {
        lemma_div_pos_is_pos((2 * MAX_AMPLITUDE * d) as int, pd as int);
        assert(2 * (MAX_AMPLITUDE as int) * (d as int) <= (pd as int) * (2 * MAX_AMPLITUDE))
            by (nonlinear_arith)
            requires
                (d as int) <= (pd as int),
                pd as int >= 1,
        ;
        lemma_multiply_divide_le(
            2 * (MAX_AMPLITUDE as int) * (d as int),
            pd as int,
            2 * MAX_AMPLITUDE,
        );
        if s == 0 {
            assert(phase_num(0, freq_mhz as int) == 0) by (nonlinear_arith);
            assert(pn == 0);
            lemma_small_mod(pd as nat, (2 * pd) as nat);
            assert(c == pd);
            assert(d == 0);
            lemma_basic_div(0, pd as int);
        }
    }
    let q: u128 = ((2 * MAX_AMPLITUDE) as u128 * d) / pd;
    (q as i64) - MAX_AMPLITUDE
}

/// Amplitude of the given wave shape at sample `s`, dispatching to the
/// matching oscillator.
pub fn wave_sample(shape: WaveShape, s: usize, freq_mhz: u64, sample_rate: u32) -> (amp: i64)
    requires
        sample_rate >= 1,
        freq_mhz < MAX_FREQ_MHZ,
    ensures
        amp == wave_amp(shape, s as int, freq_mhz as int, sample_rate as int),
        -MAX_AMPLITUDE <= amp <= MAX_AMPLITUDE,
{
    match shape {
        WaveShape::Square => square_sample(s, freq_mhz, sample_rate),
        WaveShape::Sawtooth => sawtooth_sample(s, freq_mhz, sample_rate),
        WaveShape::Triangle => triangle_sample(s, freq_mhz, sample_rate),
    }
}

/// The 128-bit phase numerator `s * freq_mhz` cannot overflow, and neither
/// can doubling it, for any sample index and any accepted frequency.
proof fn lemma_phase_product_bounded(s: int, freq_mhz: int)
    requires
        0 <= s <= u64::MAX,
        0 <= freq_mhz < MAX_FREQ_MHZ,
    ensures
        0 <= s * freq_mhz,
        2 * (s * freq_mhz) + 0x2000000000000 < u128::MAX,
{
    assert(0 <= s * freq_mhz) by (nonlinear_arith)
        requires
            0 <= s,
            0 <= freq_mhz,
    ;
    assert(s * freq_mhz <= u64::MAX * (MAX_FREQ_MHZ - 1)) by (nonlinear_arith)
        requires
            0 <= s <= u64::MAX,
            0 <= freq_mhz <= MAX_FREQ_MHZ - 1,
    ;
}

} // verus!
