//! Pitch-synchronous overlap-add (PSOLA) voice resynthesis on fixed-point
//! sample buffers: periodicity analysis, pitch marks, grain extraction,
//! resynthesis, phase-aligned crossfading, and phoneme scheduling.
//!
//! Samples are Q15 fixed-point integers: the value 1.0 is [`SCALE`].

use vstd::prelude::*;

pub mod buffer;
pub mod crossfade;
pub mod ipa;
pub mod nice;
pub mod pitch;
pub mod psola;
pub mod samples;
pub mod scheduling;
pub mod stretch;
pub mod wav;
pub mod window;
pub mod window_calc;

verus! {

/// One unit of full scale, in Q15 fixed point: the sample value 1.0.
pub const SCALE: i64 = 32768;

/// Largest sample magnitude a well-formed buffer may hold (4.0 in Q15),
/// chosen so that windowed products and correlation sums fit in `i64`.
pub const MAX_ABS: i64 = 131072;

/// Largest sample count a well-formed buffer may hold, chosen so that
/// positions advanced by a pitch lag never overflow `usize` and that
/// overlap-add accumulators stay within `i64`.
pub const MAX_LEN: usize = 0x4000_0000;

/// Smallest accepted pitch ratio or time stretch, in Q15 (1/1024).
pub const RATIO_MIN: i64 = 32;

/// Largest accepted pitch ratio or time stretch, in Q15 (1024.0).
pub const RATIO_MAX: i64 = 33554432;

/// Magnitude of an integer.
pub open spec fn iabs(x: int) -> int {
    if x >= 0 {
        x
    } else {
        -x
    }
}

/// Division truncated toward zero, as Rust's `/` computes it.
pub open spec fn div_trunc(a: int, b: int) -> int {
    if a >= 0 {
        a / b
    } else {
        -((-a) / b)
    }
}

/// Quotient of `a` by a positive `b`, truncated toward zero.
pub fn div_pos(a: i64, b: i64) -> (r: i64)
    requires
        a > i64::MIN,
        b > 0,
    ensures
        r == div_trunc(a as int, b as int),
{
    if a >= 0 {
        a / b
    } else {
        -((-a) / b)
    }
}

/// Rescale out of Q15: divide by [`SCALE`], truncating toward zero.
pub fn div_scale(a: i64) -> (r: i64)
    requires
        a > i64::MIN,
    ensures
        r == div_trunc(a as int, SCALE as int),
{
    div_pos(a, SCALE)
}

/// Truncated division never grows the magnitude of a bounded dividend:
/// if `|a| <= m * b` then `|a / b| <= m`.
pub proof fn lemma_div_trunc_bound(a: int, b: int, m: int)
    requires
        b > 0,
        m >= 0,
        -(m * b) <= a <= m * b,
    ensures
        -m <= div_trunc(a, b) <= m,
{
    vstd::arithmetic::div_mod::lemma_div_basics(b);
    vstd::arithmetic::div_mod::lemma_div_multiples_vanish(m, b);
    assert(m * b == b * m) by (nonlinear_arith);
    if a >= 0 {
        vstd::arithmetic::div_mod::lemma_div_is_ordered(a, m * b, b);
        vstd::arithmetic::div_mod::lemma_div_is_ordered(0, a, b);
    } else {
        vstd::arithmetic::div_mod::lemma_div_is_ordered(-a, m * b, b);
        vstd::arithmetic::div_mod::lemma_div_is_ordered(0, -a, b);
    }
}

/// Scaling back a truncated quotient never exceeds the dividend's magnitude:
/// `|a / b| * b <= |a|`.
pub proof fn lemma_div_trunc_mag(a: int, b: int)
    requires
        b > 0,
    ensures
        iabs(div_trunc(a, b)) * b <= iabs(a),
        0 <= iabs(div_trunc(a, b)) * b,
{
    vstd::arithmetic::div_mod::lemma_div_pos_is_pos(iabs(a), b);
    vstd::arithmetic::div_mod::lemma_fundamental_div_mod(iabs(a), b);
    vstd::arithmetic::div_mod::lemma_mod_bound(iabs(a), b);
    assert(b * (iabs(a) / b) == (iabs(a) / b) * b) by (nonlinear_arith);
}

/// Add two values together.
///
/// # Errors
/// This is an example that does not error.
pub fn add(a: i64, b: i64) -> (r: Result<i64, crate::samples::SynthError>)
    requires
        i64::MIN <= a + b <= i64::MAX,
    ensures
        r == Ok::<i64, crate::samples::SynthError>((a + b) as i64),
{
    Ok(a + b)
}

} // verus!
