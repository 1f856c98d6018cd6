//! Small numeric conveniences.

use vstd::prelude::*;

use crate::{div_trunc, MAX_ABS, SCALE};

verus! {

/// Linear interpolation between `x` and `y` by the Q15 weight `t`,
/// truncated toward zero: `((1 - t) * x + t * y) / 1.0` in Q15.
pub open spec fn spec_lerp(x: int, y: int, t: int) -> int {
    div_trunc((SCALE - t) * x + t * y, SCALE as int)
}

/// Linear interpolation
pub fn lerp(x: i64, y: i64, t: i64) -> (r: i64)
    requires
        0 <= t <= SCALE,
        -MAX_ABS <= x <= MAX_ABS,
        -MAX_ABS <= y <= MAX_ABS,
    ensures
        r == spec_lerp(x as int, y as int, t as int),
        -MAX_ABS <= r <= MAX_ABS,
{
    proof {
        assert((SCALE - t) * x <= SCALE * MAX_ABS && (SCALE - t) * x >= -(SCALE * MAX_ABS)
            && t * y <= SCALE * MAX_ABS && t * y >= -(SCALE * MAX_ABS)) by (nonlinear_arith)
            requires
                0 <= t <= SCALE,
                -MAX_ABS <= x <= MAX_ABS,
                -MAX_ABS <= y <= MAX_ABS,
        ;
    }
    let n: i64 = (SCALE - t) * x + t * y;
    proof {
        lemma_lerp_num_bound(x as int, y as int, t as int);
        crate::lemma_div_trunc_bound(n as int, SCALE as int, MAX_ABS as int);
    }
    crate::div_scale(n)
}

/// The interpolation numerator stays within one scale unit of the headroom.
proof fn lemma_lerp_num_bound(x: int, y: int, t: int)
    requires
        0 <= t <= SCALE,
        -MAX_ABS <= x <= MAX_ABS,
        -MAX_ABS <= y <= MAX_ABS,
    ensures
        -(MAX_ABS * SCALE) <= (SCALE - t) * x + t * y <= MAX_ABS * SCALE,
{
    assert(-(MAX_ABS * SCALE) <= (SCALE - t) * x + t * y <= MAX_ABS * SCALE)
        by (nonlinear_arith)
        requires
            0 <= t <= SCALE,
            -MAX_ABS <= x <= MAX_ABS,
            -MAX_ABS <= y <= MAX_ABS,
    ;
}

/// Two to a small nonnegative power.
pub open spec fn spec_pow2(e: int) -> int
    decreases e,
{
    if e <= 0 {
        1
    } else {
        2 * spec_pow2(e - 1)
    }
}

/// Splitting an exponent multiplies the powers.
pub proof fn lemma_pow2_add(a: int, b: int)
    requires
        a >= 0,
        b >= 0,
    ensures
        spec_pow2(a + b) == spec_pow2(a) * spec_pow2(b),
    decreases b,
{
    if b > 0 {
        lemma_pow2_add(a, b - 1);
        assert(spec_pow2(a) * spec_pow2(b) == 2 * (spec_pow2(a) * spec_pow2(b - 1)))
            by (nonlinear_arith)
            requires
                spec_pow2(b) == 2 * spec_pow2(b - 1),
        ;
    }
}

/// Powers of two grow monotonically.
pub proof fn lemma_pow2_bound(e: int, cap: int)
    requires
        0 <= e <= cap,
    ensures
        1 <= spec_pow2(e) <= spec_pow2(cap),
    decreases cap,
{
    if cap > 0 {
        if e == cap {
            lemma_pow2_bound(0, cap - 1);
        } else {
            lemma_pow2_bound(e, cap - 1);
        }
    }
}

/// Two to a small nonnegative power, exactly.
pub fn pow2_i64(e: u32) -> (r: i64)
    requires
        e <= 62,
    ensures
        r == spec_pow2(e as int),
        1 <= r,
{
    proof {
        lemma_pow2_bound(e as int, 62);
        lemma_pow2_bound(62, 62);
        assert(spec_pow2(62) == 0x4000_0000_0000_0000) by { reveal_with_fuel(spec_pow2, 64); }
    }
    let mut r: i64 = 1;
    let mut i: u32 = 0;
    while i < e
        invariant
            i <= e <= 62,
            r == spec_pow2(i as int),
            1 <= r <= spec_pow2(62),
            spec_pow2(62) == 0x4000_0000_0000_0000,
        decreases e - i,
    {
        proof {
            lemma_pow2_bound(i + 1, 62);
        }
        r = r * 2;
        i += 1;
    }
    r
}

/// The number of doublings in `x`: the floor of its base-two logarithm.
pub open spec fn spec_ilog2(x: int) -> int
    decreases x,
{
    if x < 2 {
        0
    } else {
        1 + spec_ilog2(x / 2)
    }
}

/// One squaring step of the fractional base-two logarithm: square the
/// mantissa and emit a bit for each renormalizing halving. The pair is the
/// mantissa and the fraction bits accumulated after `i` steps.
pub open spec fn spec_log_iter(m0: int, i: int) -> (int, int)
    decreases i,
{
    if i <= 0 {
        (m0, 0)
    } else {
        let prev = spec_log_iter(m0, i - 1);
        let sq = prev.0 * prev.0 / (SCALE as int);
        if sq >= 2 * SCALE {
            (sq / 2, prev.1 * 2 + 1)
        } else {
            (sq, prev.1 * 2)
        }
    }
}

/// The Q15 base-two logarithm of `x` taken as a Q15 value: the integer part
/// from the leading bit, the fraction from fifteen squaring steps.
pub open spec fn spec_log2(x: int) -> int {
    let k = spec_ilog2(x);
    let m0 = x * spec_pow2(15) / spec_pow2(k);
    (k - 15) * SCALE + spec_log_iter(m0, 15).1
}

/// The squaring walk keeps its mantissa normalized and its fraction below
/// one.
pub proof fn lemma_log_iter_range(m0: int, i: int)
    requires
        SCALE <= m0 < 2 * SCALE,
        0 <= i <= 15,
    ensures
        SCALE <= spec_log_iter(m0, i).0 < 2 * SCALE,
        0 <= spec_log_iter(m0, i).1 < spec_pow2(i),
    decreases i,
{
    if i > 0 {
        lemma_log_iter_range(m0, i - 1);
        let prev = spec_log_iter(m0, i - 1);
        let m = prev.0;
        assert(SCALE * SCALE <= m * m < 4 * (SCALE * SCALE)) by (nonlinear_arith)
            requires
                SCALE <= m < 2 * SCALE,
                SCALE == 32768,
        ;
        let sq = m * m / (SCALE as int);
        assert(SCALE <= sq < 4 * SCALE) by {
            vstd::arithmetic::div_mod::lemma_div_is_ordered(SCALE * SCALE, m * m, SCALE as int);
            vstd::arithmetic::div_mod::lemma_div_multiples_vanish(SCALE as int, SCALE as int);
            vstd::arithmetic::div_mod::lemma_div_multiples_vanish(4 * SCALE, SCALE as int);
            assert(m * m <= (SCALE as int) * (4 * SCALE) - 1) by (nonlinear_arith)
                requires
                    m * m < 4 * (SCALE * SCALE),
                    SCALE == 32768,
            ;
            vstd::arithmetic::div_mod::lemma_div_is_ordered(
                m * m,
                (SCALE as int) * (4 * SCALE) - 1,
                SCALE as int,
            );
            vstd::arithmetic::div_mod::lemma_fundamental_div_mod(
                (SCALE as int) * (4 * SCALE) - 1,
                SCALE as int,
            );
            vstd::arithmetic::div_mod::lemma_mod_bound(
                (SCALE as int) * (4 * SCALE) - 1,
                SCALE as int,
            );
            assert(((SCALE as int) * (4 * SCALE) - 1) / (SCALE as int) < 4 * SCALE)
                by (nonlinear_arith)
                requires
                    (SCALE as int) * (4 * SCALE) - 1 == SCALE * (((SCALE as int) * (4 * SCALE) - 1)
                        / (SCALE as int)) + ((SCALE as int) * (4 * SCALE) - 1) % (SCALE as int),
                    0 <= ((SCALE as int) * (4 * SCALE) - 1) % (SCALE as int) < SCALE,
                    SCALE == 32768,
            ;
        }
    }
}

/// The Q15 base-two logarithm of `x` taken as a Q15 value
/// (see [`spec_log2`]): `log2_q15(SCALE) == 0`.
pub fn log2_q15(x: i64) -> (r: i64)
    requires
        1 <= x <= 0x8000_0000_0000,
    ensures
        r == spec_log2(x as int),
        -15 * SCALE <= r <= 48 * SCALE,
{
    let mut t: i64 = x;
    let mut k: u32 = 0;
    while t >= 2
        invariant
            1 <= t,
            1 <= x <= 0x8000_0000_0000,
            k <= 47,
            t == x as int / spec_pow2(k as int),
            spec_ilog2(x as int) == k + spec_ilog2(t as int),
        decreases t,
    {
        proof {
            lemma_pow2_add(k as int, 1);
            lemma_pow2_bound(k as int, k as int);
            vstd::arithmetic::div_mod::lemma_fundamental_div_mod(x as int, spec_pow2(k as int));
            vstd::arithmetic::div_mod::lemma_mod_bound(x as int, spec_pow2(k as int));
            assert(x as int >= spec_pow2(k + 1)) by (nonlinear_arith)
                requires
                    x as int == spec_pow2(k as int) * t + x as int % spec_pow2(k as int),
                    x as int % spec_pow2(k as int) >= 0,
                    t >= 2,
                    spec_pow2(k + 1) == spec_pow2(k as int) * 2,
                    spec_pow2(k as int) >= 1,
            ;
            if k + 1 > 47 {
                lemma_pow2_bound(48, k + 1);
                assert(spec_pow2(48) == 0x1_0000_0000_0000) by { reveal_with_fuel(spec_pow2, 64); }
            }
            vstd::arithmetic::div_mod::lemma_div_denominator(
                x as int,
                spec_pow2(k as int),
                2,
            );
        }
        t = t / 2;
        k += 1;
    }
    proof {
        assert(spec_ilog2(t as int) == 0);
        assert(spec_ilog2(x as int) == k as int);
    }
    let m0: i64 = if k >= 15 {
        let p = pow2_i64(k - 15);
        proof {
            lemma_pow2_add(15, k as int - 15);
            lemma_pow2_bound(15, 15);
            lemma_pow2_bound(k as int - 15, 47);
            assert(x as int * spec_pow2(15) >= 0) by (nonlinear_arith)
                requires
                    x as int >= 1,
                    spec_pow2(15) >= 1,
            ;
            vstd::arithmetic::div_mod::lemma_div_denominator(
                x as int * spec_pow2(15),
                spec_pow2(15),
                spec_pow2(k as int - 15),
            );
            vstd::arithmetic::div_mod::lemma_div_multiples_vanish(x as int, spec_pow2(15));
            assert(x as int * spec_pow2(15) == spec_pow2(15) * (x as int)) by (nonlinear_arith);
        }
        x / p
    } else {
        let p = pow2_i64(15 - k);
        proof {
            lemma_pow2_add(k as int, 15 - k as int);
            lemma_pow2_bound(15 - k as int, 15);
            lemma_pow2_bound(k as int, 15);
            assert(spec_pow2(15) == 32768) by { reveal_with_fuel(spec_pow2, 64); }
            vstd::arithmetic::div_mod::lemma_fundamental_div_mod(x as int, spec_pow2(k as int));
            vstd::arithmetic::div_mod::lemma_mod_bound(x as int, spec_pow2(k as int));
            assert((x as int) < 2 * spec_pow2(k as int) && x as int >= spec_pow2(k as int))
                by (nonlinear_arith)
                requires
                    x as int == spec_pow2(k as int) * (x as int / spec_pow2(k as int)) + x as int
                        % spec_pow2(k as int),
                    x as int / spec_pow2(k as int) == 1,
                    0 <= x as int % spec_pow2(k as int) < spec_pow2(k as int),
            ;
            assert(x as int * spec_pow2(15 - k as int) >= 0) by (nonlinear_arith)
                requires
                    x as int >= 1,
                    spec_pow2(15 - k as int) >= 1,
            ;
            assert((x as int * spec_pow2(15)) / spec_pow2(k as int) == x as int * spec_pow2(
                15 - k as int,
            )) by {
                assert(x as int * spec_pow2(15) == (x as int * spec_pow2(15 - k as int))
                    * spec_pow2(k as int)) by (nonlinear_arith)
                    requires
                        spec_pow2(15) == spec_pow2(k as int) * spec_pow2(15 - k as int),
                ;
                vstd::arithmetic::div_mod::lemma_div_by_multiple(
                    x as int * spec_pow2(15 - k as int),
                    spec_pow2(k as int),
                );
            }
            assert(SCALE <= x as int * spec_pow2(15 - k as int) < 2 * SCALE) by (nonlinear_arith)
                requires
                    spec_pow2(k as int) <= x as int,
                    (x as int) < 2 * spec_pow2(k as int),
                    spec_pow2(15 - k as int) >= 1,
                    spec_pow2(15) == spec_pow2(k as int) * spec_pow2(15 - k as int),
                    spec_pow2(15) == 32768,
                    SCALE == 32768,
            ;
        }
        x * p
    };
    proof {
        vstd::arithmetic::div_mod::lemma_fundamental_div_mod(x as int, spec_pow2(k as int));
        vstd::arithmetic::div_mod::lemma_mod_bound(x as int, spec_pow2(k as int));
        assert(SCALE <= m0 < 2 * SCALE) by {
            assert(spec_pow2(15) == 32768) by { reveal_with_fuel(spec_pow2, 64); }
            lemma_pow2_bound(k as int, k as int);
            assert((x as int * 32768) / spec_pow2(k as int) >= SCALE && (x as int * 32768)
                / spec_pow2(k as int) < 2 * SCALE) by {
                assert(x as int * 32768 >= SCALE * spec_pow2(k as int) && x as int * 32768 < 2
                    * SCALE * spec_pow2(k as int)) by (nonlinear_arith)
                    requires
                        x as int == spec_pow2(k as int) * (x as int / spec_pow2(k as int)) + x as int
                            % spec_pow2(k as int),
                        x as int / spec_pow2(k as int) == 1,
                        0 <= x as int % spec_pow2(k as int) < spec_pow2(k as int),
                        spec_pow2(k as int) >= 1,
                        SCALE == 32768,
                ;
                vstd::arithmetic::div_mod::lemma_div_multiples_vanish_quotient(
                    SCALE as int,
                    spec_pow2(k as int),
                    spec_pow2(k as int),
                );
                vstd::arithmetic::div_mod::lemma_div_is_ordered(
                    SCALE * spec_pow2(k as int),
                    x as int * 32768,
                    spec_pow2(k as int),
                );
                vstd::arithmetic::div_mod::lemma_div_multiples_vanish(SCALE as int, spec_pow2(k as int));
                assert(SCALE * spec_pow2(k as int) == spec_pow2(k as int) * (SCALE as int))
                    by (nonlinear_arith);
                vstd::arithmetic::div_mod::lemma_fundamental_div_mod(
                    x as int * 32768,
                    spec_pow2(k as int),
                );
                vstd::arithmetic::div_mod::lemma_mod_bound(
                    x as int * 32768,
                    spec_pow2(k as int),
                );
                assert((x as int * 32768) / spec_pow2(k as int) < 2 * SCALE) by (nonlinear_arith)
                    requires
                        x as int * 32768 == spec_pow2(k as int) * ((x as int * 32768) / spec_pow2(
                            k as int,
                        )) + (x as int * 32768) % spec_pow2(k as int),
                        0 <= (x as int * 32768) % spec_pow2(k as int) < spec_pow2(k as int),
                        x as int * 32768 < 2 * SCALE * spec_pow2(k as int),
                        spec_pow2(k as int) >= 1,
                ;
            }
        }
        lemma_log_iter_range(m0 as int, 15);
    }

    let mut m: i64 = m0;
    let mut frac: i64 = 0;
    let mut i: u32 = 0;
    while i < 15
        invariant
            SCALE <= m0 < 2 * SCALE,
            i <= 15,
            (m as int, frac as int) == spec_log_iter(m0 as int, i as int),
            SCALE <= m < 2 * SCALE,
            0 <= frac < spec_pow2(i as int),
            spec_pow2(i as int) <= 32768,
        decreases 15 - i,
    {
        proof {
            lemma_log_iter_range(m0 as int, i as int);
            lemma_log_iter_range(m0 as int, i + 1);
            lemma_pow2_bound(i + 1, 15);
            assert(spec_pow2(15) == 32768) by { reveal_with_fuel(spec_pow2, 64); }
            assert(SCALE * SCALE <= m * m < 4 * (SCALE * SCALE)) by (nonlinear_arith)
                requires
                    SCALE <= m < 2 * SCALE,
                    SCALE == 32768,
            ;
        }
        let sq = m * m / SCALE;
        if sq >= 2 * SCALE {
            m = sq / 2;
            frac = frac * 2 + 1;
        } else {
            m = sq;
            frac = frac * 2;
        }
        i += 1;
    }
    (k as i64 - 15) * SCALE + frac
}

/// The Q15 multiplier for one fractional-exponent bit: `2` to the power
/// `1 / 2^i`, rounded to Q15.
pub open spec fn spec_exp_factor(i: int) -> int {
    if i == 1 {
        46341
    } else if i == 2 {
        38968
    } else if i == 3 {
        35734
    } else if i == 4 {
        34219
    } else if i == 5 {
        33486
    } else if i == 6 {
        33125
    } else if i == 7 {
        32946
    } else if i == 8 {
        32857
    } else if i == 9 {
        32812
    } else if i == 10 {
        32790
    } else if i == 11 {
        32779
    } else if i == 12 {
        32774
    } else if i == 13 {
        32771
    } else if i == 14 {
        32769
    } else {
        32769
    }
}

/// The Q15 multiplier for one fractional-exponent bit
/// (see [`spec_exp_factor`]).
pub fn exp_factor(i: u32) -> (r: i64)
    requires
        1 <= i <= 15,
    ensures
        r == spec_exp_factor(i as int),
        SCALE <= r <= 46341,
{
    if i == 1 {
        46341
    } else if i == 2 {
        38968
    } else if i == 3 {
        35734
    } else if i == 4 {
        34219
    } else if i == 5 {
        33486
    } else if i == 6 {
        33125
    } else if i == 7 {
        32946
    } else if i == 8 {
        32857
    } else if i == 9 {
        32812
    } else if i == 10 {
        32790
    } else if i == 11 {
        32779
    } else if i == 12 {
        32774
    } else if i == 13 {
        32771
    } else if i == 14 {
        32769
    } else {
        32769
    }
}

/// The fractional power of two after `i` bits of the Q15 fraction `f` are
/// applied, scanning from the most significant: multiply in each set bit's
/// factor, capped at twice full scale.
pub open spec fn spec_exp_iter(f: int, i: int) -> int
    decreases i,
{
    if i <= 0 {
        SCALE as int
    } else {
        let prev = spec_exp_iter(f, i - 1);
        if (f / spec_pow2(15 - i)) % 2 == 1 {
            let grown = prev * spec_exp_factor(i) / (SCALE as int);
            if grown > 2 * SCALE {
                2 * SCALE as int
            } else {
                grown
            }
        } else {
            prev
        }
    }
}

/// The fractional power stays between one and two in Q15.
pub proof fn lemma_exp_iter_range(f: int, i: int)
    requires
        0 <= i <= 15,
    ensures
        SCALE <= spec_exp_iter(f, i) <= 2 * SCALE,
    decreases i,
{
    if i > 0 {
        lemma_exp_iter_range(f, i - 1);
        let prev = spec_exp_iter(f, i - 1);
        let c = spec_exp_factor(i);
        assert(prev * (SCALE as int) <= prev * c <= 2 * SCALE * 46341) by (nonlinear_arith)
            requires
                SCALE <= prev <= 2 * SCALE,
                SCALE <= c <= 46341,
                SCALE == 32768,
        ;
        vstd::arithmetic::div_mod::lemma_div_is_ordered(
            prev * (SCALE as int),
            prev * c,
            SCALE as int,
        );
        vstd::arithmetic::div_mod::lemma_div_multiples_vanish(prev, SCALE as int);
        assert(prev * (SCALE as int) == (SCALE as int) * prev) by (nonlinear_arith);
    }
}

/// The saturating Q15 power of two: the exponent is clamped to ten octaves
/// either way, the fraction applied bit by bit, and the result clamped to
/// the accepted ratio range.
pub open spec fn spec_exp2_sat(x: int) -> int {
    if x >= 10 * SCALE {
        crate::RATIO_MAX as int
    } else if x <= -10 * SCALE {
        crate::RATIO_MIN as int
    } else {
        let k = x / (SCALE as int);
        let f = x % (SCALE as int);
        let base = spec_exp_iter(f, 15);
        let r0 = if k >= 0 {
            base * spec_pow2(k)
        } else {
            base / spec_pow2(-k)
        };
        if r0 < crate::RATIO_MIN {
            crate::RATIO_MIN as int
        } else if r0 > crate::RATIO_MAX {
            crate::RATIO_MAX as int
        } else {
            r0
        }
    }
}

/// The saturating Q15 power of two (see [`spec_exp2_sat`]): exactly one at
/// a zero exponent, doubling per whole octave, clamped to the accepted
/// ratio range.
pub fn exp2_q15(x: i64) -> (r: i64)
    ensures
        r == spec_exp2_sat(x as int),
        crate::RATIO_MIN <= r <= crate::RATIO_MAX,
{
    proof {
        assert(spec_exp_iter(0, 0) == SCALE);
    }
    if x >= 10 * SCALE {
        return crate::RATIO_MAX;
    }
    if x <= -10 * SCALE {
        return crate::RATIO_MIN;
    }
    let k: i64 = if x >= 0 {
        x / SCALE
    } else {
        -((-x + SCALE - 1) / SCALE)
    };
    proof {
        if x >= 0 {
            vstd::arithmetic::div_mod::lemma_fundamental_div_mod(x as int, SCALE as int);
            vstd::arithmetic::div_mod::lemma_mod_bound(x as int, SCALE as int);
        } else {
            vstd::arithmetic::div_mod::lemma_fundamental_div_mod(-x + SCALE - 1, SCALE as int);
            vstd::arithmetic::div_mod::lemma_mod_bound(-x + SCALE - 1, SCALE as int);
            vstd::arithmetic::div_mod::lemma_fundamental_div_mod_converse(
                x as int,
                SCALE as int,
                k as int,
                x - k * SCALE,
            );
        }
        assert(k == x as int / (SCALE as int));
        vstd::arithmetic::div_mod::lemma_fundamental_div_mod(x as int, SCALE as int);
        vstd::arithmetic::div_mod::lemma_mod_bound(x as int, SCALE as int);
    }
    let f: i64 = x - k * SCALE;
    proof {
        assert(f == x as int % (SCALE as int));
        assert(-10 <= k <= 9);
    }

    let mut base: i64 = SCALE;
    let mut i: u32 = 1;
    while i <= 15
        invariant
            0 <= f < SCALE,
            1 <= i <= 16,
            base == spec_exp_iter(f as int, i - 1),
            SCALE <= base <= 2 * SCALE,
        decreases 16 - i,
    {
        proof {
            lemma_exp_iter_range(f as int, i as int);
            lemma_pow2_bound(15 - i as int, 15);
            assert(spec_pow2(15) == 32768) by { reveal_with_fuel(spec_pow2, 64); }
        }
        let p = pow2_i64(15 - i);
        let bit = (f / p) % 2;
        proof {
            vstd::arithmetic::div_mod::lemma_div_pos_is_pos(f as int, p as int);
        }
        if bit == 1 {
            let c = exp_factor(i);
            proof {
                assert(base * c <= 2 * SCALE * 46341 && base * c >= 0) by (nonlinear_arith)
                    requires
                        SCALE <= base <= 2 * SCALE,
                        SCALE <= c <= 46341,
                        SCALE == 32768,
                ;
                vstd::arithmetic::div_mod::lemma_div_pos_is_pos(base * c, SCALE as int);
            }
            let grown = base * c / SCALE;
            if grown > 2 * SCALE {
                base = 2 * SCALE;
            } else {
                base = grown;
            }
            proof {
                lemma_exp_iter_range(f as int, i as int);
            }
        }
        i += 1;
    }

    let r0: i64 = if k >= 0 {
        let p2 = pow2_i64(k as u32);
        proof {
            lemma_pow2_bound(k as int, 9);
            assert(spec_pow2(9) == 512) by { reveal_with_fuel(spec_pow2, 64); }
            assert(0 <= base * p2 <= 2 * SCALE * 512) by (nonlinear_arith)
                requires
                    SCALE <= base <= 2 * SCALE,
                    1 <= p2 <= 512,
                    SCALE == 32768,
            ;
        }
        base * p2
    } else {
        let p2 = pow2_i64((-k) as u32);
        proof {
            lemma_pow2_bound(-k as int, 10);
            assert(spec_pow2(10) == 1024) by { reveal_with_fuel(spec_pow2, 64); }
            vstd::arithmetic::div_mod::lemma_div_pos_is_pos(base as int, spec_pow2(-k as int));
        }
        base / p2
    };
    if r0 < crate::RATIO_MIN {
        crate::RATIO_MIN
    } else if r0 > crate::RATIO_MAX {
        crate::RATIO_MAX
    } else {
        r0
    }
}

/// The first-order smoothed value at index `i`: each step moves from the
/// previous output toward the input by the Q15 fraction `alpha`.
pub open spec fn spec_low_pass_at(vs: Seq<i64>, alpha: int, i: int) -> int
    decreases i,
{
    if i <= 0 {
        vs[0] as int
    } else {
        let p = spec_low_pass_at(vs, alpha, i - 1);
        p + div_trunc(alpha * (vs[i] - p), SCALE as int)
    }
}

/// Smoothed values stay within any interval that contains every input.
pub proof fn lemma_low_pass_bounded(vs: Seq<i64>, alpha: int, i: int, lo: int, hi: int)
    requires
        0 <= alpha <= SCALE,
        lo <= hi,
        forall|k: int| 0 <= k < vs.len() ==> lo <= #[trigger] vs[k] <= hi,
        0 <= i < vs.len(),
    ensures
        lo <= spec_low_pass_at(vs, alpha, i) <= hi,
    decreases i,
{
    if i > 0 {
        lemma_low_pass_bounded(vs, alpha, i - 1, lo, hi);
        let p = spec_low_pass_at(vs, alpha, i - 1);
        let d = vs[i] - p;
        assert(crate::iabs(alpha * d) <= SCALE * crate::iabs(d)) by (nonlinear_arith)
            requires
                0 <= alpha <= SCALE,
        ;
        crate::lemma_div_trunc_bound(alpha * d, SCALE as int, crate::iabs(d));
        if d >= 0 {
            vstd::arithmetic::div_mod::lemma_div_pos_is_pos(alpha * d, SCALE as int);
            assert(0 <= alpha * d) by (nonlinear_arith)
                requires
                    0 <= alpha,
                    0 <= d,
            ;
        } else {
            vstd::arithmetic::div_mod::lemma_div_pos_is_pos(alpha * (-d), SCALE as int);
            assert(0 <= alpha * (-d) && alpha * d == -(alpha * (-d))) by (nonlinear_arith)
                requires
                    0 <= alpha,
                    d < 0,
            ;
        }
    }
}

/// First-order low-pass smoothing: each output moves from the previous
/// output toward the input by the Q15 fraction `alpha`
/// (see [`spec_low_pass_at`]).
pub fn low_pass(values: &Vec<i64>, alpha: i64) -> (r: Vec<i64>)
    requires
        values@.len() > 0,
        0 <= alpha <= SCALE,
        forall|k: int| 0 <= k < values@.len() ==> -0x2000000 <= #[trigger] values@[k] <= 0x2000000,
    ensures
        r@.len() == values@.len(),
        forall|i: int|
            0 <= i < r@.len() ==> #[trigger] r@[i] == spec_low_pass_at(
                values@,
                alpha as int,
                i,
            ),
        forall|i: int| 0 <= i < r@.len() ==> -0x2000000 <= #[trigger] r@[i] <= 0x2000000,
{
    let n = values.len();
    let mut out: Vec<i64> = Vec::new();
    out.push(values[0]);
    let mut i: usize = 1;
    while i < n
        invariant
            n == values@.len(),
            0 <= alpha <= SCALE,
            forall|k: int|
                0 <= k < values@.len() ==> -0x2000000 <= #[trigger] values@[k] <= 0x2000000,
            1 <= i <= n,
            out@.len() == i,
            forall|k: int|
                0 <= k < i ==> #[trigger] out@[k] == spec_low_pass_at(values@, alpha as int, k),
            forall|k: int| 0 <= k < i ==> -0x2000000 <= #[trigger] out@[k] <= 0x2000000,
        decreases n - i,
    {
        let p = out[i - 1];
        proof {
            lemma_low_pass_bounded(values@, alpha as int, i - 1, -0x2000000, 0x2000000);
            assert(-(32768 * 0x4000000) <= alpha * (values@[i as int] - p) <= 32768 * 0x4000000)
                by (nonlinear_arith)
                requires
                    0 <= alpha <= 32768,
                    -0x4000000 <= values@[i as int] - p <= 0x4000000,
            ;
            lemma_low_pass_bounded(values@, alpha as int, i as int, -0x2000000, 0x2000000);
        }
        let v = values[i];
        let step = crate::div_scale(alpha * (v - p));
        out.push(p + step);
        i += 1;
    }
    out
}

} // verus!
