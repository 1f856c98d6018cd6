//! Audio windows.

use vstd::prelude::*;

use crate::SCALE;

verus! {

/// Largest window length [`hann`] accepts; grain spans, at two analysis
/// periods, stay far below it.
pub const HANN_MAX: usize = 0x1ffffff;

/// The Q15 Hann window value at position `n` of a length-`len` window:
/// `sin^2(pi * n / (len - 1))`, with the sine taken from the Bhaskara
/// rational approximation `16 x (1 - x) / (5 - 4 x (1 - x))` on `[0, 1]`.
/// Zero at both ends, full scale at the middle, symmetric exactly.
pub open spec fn spec_hann(len: int, n: int) -> int {
    let d = len - 1;
    if n < 0 || n >= len || d <= 0 {
        0
    } else {
        let q = n * (d - n);
        let p = q * SCALE / (d * d);
        let s = 16 * p * SCALE / (5 * SCALE - 4 * p);
        s * s / SCALE as int
    }
}

/// Range facts about every intermediate of the Hann formula, for positions
/// inside a window of spread `d` at most [`HANN_MAX`] minus one.
proof fn lemma_hann_parts(d: int, n: int)
    requires
        1 <= d <= HANN_MAX - 1,
        0 <= n <= d,
    ensures
        0 <= n * (d - n),
        4 * (n * (d - n)) <= d * d,
        0 < d * d <= (HANN_MAX - 1) * (HANN_MAX - 1),
        (n * (d - n)) * SCALE < 0x7fff_ffff_ffff_ffff,
        0 <= (n * (d - n)) * SCALE / (d * d) <= SCALE / 4,
        0 <= 16 * ((n * (d - n)) * SCALE / (d * d)) * SCALE <= 0x1_0000_0000,
        0 <= 16 * ((n * (d - n)) * SCALE / (d * d)) * SCALE / (5 * SCALE - 4 * ((n * (d - n))
            * SCALE / (d * d))) <= SCALE,
{
    let q = n * (d - n);
    assert(0 <= q && 4 * q <= d * d && 0 < d * d <= 0x1fffffe * 0x1fffffe)
        by (nonlinear_arith)
        requires
            1 <= d <= 0x1fffffe,
            0 <= n <= d,
            q == n * (d - n),
    ;
    assert(q * SCALE < 0x7fff_ffff_ffff_ffff && q * SCALE <= (d * d) * (SCALE / 4))
        by (nonlinear_arith)
        requires
            0 <= q,
            4 * q <= d * d,
            0 < d * d <= 0x1fffffe * 0x1fffffe,
    ;
    let p = q * SCALE / (d * d);
    assert(0 <= p <= SCALE / 4) by {
        vstd::arithmetic::div_mod::lemma_div_pos_is_pos(q * SCALE, d * d);
        vstd::arithmetic::div_mod::lemma_div_is_ordered(q * SCALE, (d * d) * (SCALE / 4), d * d);
        vstd::arithmetic::div_mod::lemma_div_multiples_vanish(SCALE / 4, d * d);
    }
    assert(0 <= 16 * p * SCALE <= 0x1_0000_0000) by (nonlinear_arith)
        requires
            0 <= p <= SCALE / 4,
    ;
    let s = 16 * p * SCALE / (5 * SCALE - 4 * p);
    assert(0 <= s <= SCALE) by {
        vstd::arithmetic::div_mod::lemma_div_pos_is_pos(16 * p * SCALE, 5 * SCALE - 4 * p);
        assert(16 * p * SCALE <= (5 * SCALE - 4 * p) * SCALE) by (nonlinear_arith)
            requires
                0 <= p <= SCALE / 4,
        ;
        vstd::arithmetic::div_mod::lemma_div_is_ordered(
            16 * p * SCALE,
            (5 * SCALE - 4 * p) * SCALE,
            5 * SCALE - 4 * p,
        );
        vstd::arithmetic::div_mod::lemma_div_multiples_vanish(SCALE as int, 5 * SCALE - 4 * p);
    }
}

/// The square of a Q15 weight, rescaled, is again a Q15 weight.
proof fn lemma_square_weight(s: int)
    requires
        0 <= s <= SCALE,
    ensures
        0 <= s * s / SCALE as int <= SCALE,
{
    assert(0 <= s * s <= SCALE * SCALE) by (nonlinear_arith)
        requires
            0 <= s <= SCALE,
    ;
    vstd::arithmetic::div_mod::lemma_div_pos_is_pos(s * s, SCALE as int);
    vstd::arithmetic::div_mod::lemma_div_is_ordered(s * s, SCALE * SCALE, SCALE as int);
    vstd::arithmetic::div_mod::lemma_div_multiples_vanish(SCALE as int, SCALE as int);
}

/// The Hann window is symmetric: position `n` weighs as much as the
/// mirrored position `len - 1 - n`.
pub proof fn lemma_hann_symmetric(len: int, n: int)
    requires
        0 <= n < len,
    ensures
        spec_hann(len, n) == spec_hann(len, len - 1 - n),
{
    let d = len - 1;
    assert(n * (d - n) == (d - n) * (d - (d - n))) by (nonlinear_arith);
}

/// The Q15 Hann window of length `len` (see [`spec_hann`]). A length of one
/// is refused, as the window's single position has no defined scale.
pub fn hann(len: usize) -> (r: Vec<i64>)
    requires
        len != 1,
        len <= HANN_MAX,
    ensures
        r@.len() == len,
        forall|n: int| 0 <= n < len ==> r@[n] == spec_hann(len as int, n),
        forall|n: int| 0 <= n < len ==> 0 <= #[trigger] r@[n] <= SCALE,
{
    let mut out: Vec<i64> = Vec::new();
    if len == 0 {
        return out;
    }
    let d: i64 = len as i64 - 1;
    let mut n: usize = 0;
    while n < len
        invariant
            2 <= len <= HANN_MAX,
            d == len - 1,
            n <= len,
            out@.len() == n,
            forall|i: int| 0 <= i < n ==> out@[i] == spec_hann(len as int, i),
            forall|i: int| 0 <= i < n ==> 0 <= #[trigger] out@[i] <= SCALE,
        decreases len - n,
    {
        let ni: i64 = n as i64;
        proof {
            lemma_hann_parts(d as int, ni as int);
        }
        let q: i64 = ni * (d - ni);
        let p: i64 = (q * SCALE) / (d * d);
        let s: i64 = (16 * p * SCALE) / (5 * SCALE - 4 * p);
        proof {
            lemma_square_weight(s as int);
        }
        let w: i64 = (s * s) / SCALE;
        out.push(w);
        n += 1;
    }
    out
}

} // verus!
