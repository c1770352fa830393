//! Equal-tempered pitch-to-frequency mapping.
//!
//! A pitch is a signed number of semitones from the reference A4 = 440 Hz;
//! the frequency is `440 * 2^(pitch / 12)` Hz. Frequencies are returned in
//! millihertz, computed exactly from a fixed-point table of the twelve
//! semitone ratios `2^(r/12)` scaled by `2^32`, with the final quotient
//! rounded toward negative infinity.

use crate::oscillator::MAX_FREQ_MHZ;
use vstd::arithmetic::div_mod::{
    lemma_basic_div, lemma_div_denominator, lemma_div_nonincreasing, lemma_div_pos_is_pos,
    lemma_fundamental_div_mod, lemma_fundamental_div_mod_converse, lemma_multiply_divide_lt,
};
use vstd::arithmetic::power2::{
    lemma2_to64, lemma2_to64_rest, lemma_pow2_adds, lemma_pow2_pos, lemma_pow2_strictly_increases,
    pow2,
};
use vstd::prelude::*;

verus! {

/// Largest pitch, in semitones above A4, whose millihertz value the
/// fixed-point computation can represent; roughly forty octaves above the
/// audible range.
pub const MAX_PITCH_SEMITONES: i32 = 500;

/// Reference frequency in millihertz: A4 = 440 Hz.
pub const REFERENCE_FREQ_MHZ: u64 = 440000;

/// `2^(r/12) * 2^32`, rounded to the nearest integer, for `r` in `[0, 12)`:
/// the twelve equal-tempered semitone ratios in 32-bit fixed point.
pub open spec fn semitone_ratio(r: int) -> int {
    if r == 0 {
        4294967296
    } else if r == 1 {
        4550359342
    } else if r == 2 {
        4820937788
    } else if r == 3 {
        5107605667
    } else if r == 4 {
        5411319705
    } else if r == 5 {
        5733093519
    } else if r == 6 {
        6074001000
    } else if r == 7 {
        6435179895
    } else if r == 8 {
        6817835604
    } else if r == 9 {
        7223245206
    } else if r == 10 {
        7652761717
    } else {
        8107818609
    }
}

/// Frequency in millihertz of the pitch `pitch` semitones from A4:
/// `floor(440000 * 2^(pitch/12))`, computed as the octave shift of the
/// fixed-point semitone ratio. The quotient `pitch / 12` here is the
/// floor (the remainder is always in `[0, 12)`).
pub open spec fn frequency_millihertz_spec(pitch: int) -> int {
    let q = pitch / 12;
    let base = REFERENCE_FREQ_MHZ * semitone_ratio(pitch % 12);
    if q >= 0 {
        (base * pow2(q as nat)) / 0x100000000
    } else {
        base / (0x100000000 * pow2((-q) as nat) as int)
    }
}

/// Fixed-point semitone ratio for a remainder `r` in `[0, 12)`.
fn semitone_ratio_val(r: u32) -> (v: u64)
    requires
        r < 12,
    ensures
        v == semitone_ratio(r as int),
{
    match r {
        0 => 4294967296,
        1 => 4550359342,
        2 => 4820937788,
        3 => 5107605667,
        4 => 5411319705,
        5 => 5733093519,
        6 => 6074001000,
        7 => 6435179895,
        8 => 6817835604,
        9 => 7223245206,
        10 => 7652761717,
        _ => 8107818609,
    }
}

/// Millihertz frequency of a pitch given in semitones from A4 = 440 Hz:
/// exactly `floor(440000 * semitone_ratio(pitch mod 12) * 2^(pitch div 12) / 2^32)`.
/// The result always stays below `MAX_FREQ_MHZ`, so it can be handed
/// directly to the oscillators.
pub fn frequency_millihertz(pitch: i32) -> (freq: u64)
    requires
        pitch <= MAX_PITCH_SEMITONES,
    ensures
        freq == frequency_millihertz_spec(pitch as int),
        freq < MAX_FREQ_MHZ,
{
    let (q, r): (i32, u32) = euclid_div_mod_12(pitch);
    let ratio: u64 = semitone_ratio_val(r);
    let base: u128 = (REFERENCE_FREQ_MHZ as u128) * (ratio as u128);
    assert(base <= 3567440187960000) by (nonlinear_arith)
        requires
            base == REFERENCE_FREQ_MHZ * (ratio as int),
            ratio <= 8107818609,
    ;
    if q >= 0 {
        proof {
            lemma2_to64();
            lemma_pitch_quotient_bound(pitch as int);
        }
        let qn: u32 = q as u32;
        let mut x: u128 = base;
        let mut k: u32 = 0;
        while k < qn
            invariant
                k <= qn,
                qn <= 41,
                base <= 3567440187960000,
                x == base * pow2(k as nat),
            decreases qn - k,
        {
            proof {
                lemma_pow2_adds(k as nat, 1);
                lemma2_to64();
                lemma2_to64_rest();
                if (k as nat) < 40 {
                    lemma_pow2_strictly_increases(k as nat, 40);
                }
                assert(pow2(k as nat) <= 0x10000000000);
                assert(base * pow2(k as nat) * 2 == base * (pow2(k as nat) * 2))
                    by (nonlinear_arith);
                assert(x <= 3922441968057418996776960000) by (nonlinear_arith)
                    requires
                        x == base * pow2(k as nat),
                        0 <= base <= 3567440187960000,
                        0 <= pow2(k as nat) <= 0x10000000000,
                ;
            }
            x = x * 2;
            k = k + 1;
        }
        proof {
            lemma2_to64_rest();
            assert(x == base * pow2(qn as nat));
            if (qn as nat) < 41 {
                lemma_pow2_strictly_increases(qn as nat, 41);
            }
            assert(base * pow2(qn as nat) < 0x100000000 * (MAX_FREQ_MHZ as int))
                by (nonlinear_arith)
                requires
                    0 <= base <= 3567440187960000,
                    0 <= pow2(qn as nat) <= pow2(41),
                    pow2(41) == 0x20000000000,
            ;
            lemma_multiply_divide_lt(x as int, 0x100000000, MAX_FREQ_MHZ as int);
            lemma_div_pos_is_pos(x as int, 0x100000000);
        }
        let f: u128 = x / 0x100000000;
        f as u64
    } else {
        let n: u32 = (-(q as i64)) as u32;
        if n > 95 {
            proof {
                lemma2_to64_rest();
                lemma_pow2_pos(n as nat);
                lemma_pow2_strictly_increases(52, n as nat);
                assert(0x100000000 * pow2(n as nat) >= pow2(n as nat)) by (nonlinear_arith)
                    requires
                        pow2(n as nat) >= 0,
                ;
                assert(base < 0x100000000 * pow2(n as nat) as int);
                lemma_basic_div(base as int, 0x100000000 * pow2(n as nat) as int);
            }
            0
        } else {
            let shift: u32 = n + 32;
            proof {
                lemma2_to64();
            }
            let mut x: u128 = base;
            let mut k: u32 = 0;
            while k < shift
                invariant
                    k <= shift,
                    base <= 3567440187960000,
                    x == base as int / pow2(k as nat) as int,
                decreases shift - k,
            {
                proof {
                    lemma_pow2_pos(k as nat);
                    lemma_div_denominator(base as int, pow2(k as nat) as int, 2);
                    lemma_pow2_adds(k as nat, 1);
                    lemma2_to64();
                }
                x = x / 2;
                k = k + 1;
            }
            proof {
                lemma_pow2_adds(32, n as nat);
                lemma2_to64();
                lemma_pow2_pos(shift as nat);
                lemma_div_nonincreasing(base as int, pow2(shift as nat) as int);
            }
            x as u64
        }
    }
}

/// Floor quotient of `pitch / 12` stays at or below 41 when the pitch is at
/// most `MAX_PITCH_SEMITONES`.
proof fn lemma_pitch_quotient_bound(pitch: int)
    requires
        pitch <= 500,
        pitch / 12 >= 0,
    ensures
        pitch / 12 <= 41,
{
    lemma_fundamental_div_mod(pitch, 12);
    assert(pitch == 12 * (pitch / 12) + pitch % 12);
    assert(0 <= pitch % 12 < 12);
}

/// Euclidean quotient and remainder of a pitch by 12: the remainder is in
/// `[0, 12)` and matches the spec-level `/` and `%`.
fn euclid_div_mod_12(pitch: i32) -> (qr: (i32, u32))
    ensures
        qr.0 == pitch as int / 12,
        qr.1 == pitch as int % 12,
        qr.1 < 12,
{
    if pitch >= 0 {
        let p: u32 = pitch as u32;
        let q: u32 = p / 12;
        let r: u32 = p % 12;
        proof {
            lemma_fundamental_div_mod(p as int, 12);
            lemma_fundamental_div_mod_converse(pitch as int, 12, q as int, r as int);
        }
        (q as i32, r)
    } else {
        let m: u64 = (-(pitch as i64)) as u64;
        let qm: u64 = m / 12;
        let rm: u64 = m % 12;
        proof {
            lemma_fundamental_div_mod(m as int, 12);
        }
        if rm == 0 {
            let q: i32 = -(qm as i32);
            proof {
                lemma_fundamental_div_mod_converse(pitch as int, 12, q as int, 0);
            }
            (q, 0)
        } else {
            let q: i32 = -(qm as i32) - 1;
            let r: u32 = 12 - (rm as u32);
            proof {
                lemma_fundamental_div_mod_converse(pitch as int, 12, q as int, r as int);
            }
            (q, r)
        }
    }
}

} // verus!
