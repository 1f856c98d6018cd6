//! Pitch adjustment by naive resampling.

use vstd::prelude::*;

use crate::buffer::{samples_bounded, AudioBuffer};
use crate::nice::spec_lerp;
use crate::{RATIO_MAX, RATIO_MIN, SCALE};

verus! {

/// The resampled value at output position `i`: the input linearly
/// interpolated at the Q15 position `i * ratio`, holding the last sample
/// past the end.
pub open spec fn spec_resample_at(s: Seq<i64>, ratio: int, i: int) -> int {
    let pos = i * ratio;
    let idx = pos / (SCALE as int);
    let frac = pos - idx * SCALE;
    let s0 = s[idx] as int;
    let s1 = if idx + 1 < s.len() {
        s[idx + 1] as int
    } else {
        s0
    };
    spec_lerp(s0, s1, frac)
}

/// Naive pitch shift: resample the buffer at `ratio` times its own rate by
/// linear interpolation, shortening it by the same factor
/// (see [`spec_resample_at`]).
pub fn pitch_shift(input: &AudioBuffer, ratio: i64) -> (r: AudioBuffer)
    requires
        input.wf(),
        RATIO_MIN <= ratio <= RATIO_MAX,
        input.samples@.len() * SCALE / (ratio as int) <= crate::MAX_LEN,
    ensures
        r.sample_rate == input.sample_rate,
        r.samples@.len() == input.samples@.len() * SCALE / (ratio as int),
        forall|i: int|
            0 <= i < r.samples@.len() ==> #[trigger] r.samples@[i] == spec_resample_at(
                input.samples@,
                ratio as int,
                i,
            ),
        samples_bounded(r.samples@),
{
    let in_len = input.samples.len();
    proof {
        assert(0 <= (in_len as int) * SCALE <= 0x4000_0000int * 32768) by (nonlinear_arith)
            requires
                0 <= in_len <= 0x4000_0000,
                SCALE == 32768,
        ;
        vstd::arithmetic::div_mod::lemma_div_pos_is_pos(in_len as int * SCALE, ratio as int);
        vstd::arithmetic::div_mod::lemma_div_is_ordered_by_denominator(
            in_len as int * SCALE,
            32,
            ratio as int,
        );
    }
    let out_len = ((in_len as i64) * SCALE / ratio) as usize;

    let mut out: Vec<i64> = Vec::new();
    let mut i: usize = 0;
    while i < out_len
        invariant
            input.wf(),
            in_len == input.samples@.len(),
            RATIO_MIN <= ratio <= RATIO_MAX,
            out_len == in_len * SCALE / (ratio as int),
            out_len <= crate::MAX_LEN,
            i <= out_len,
            out@.len() == i,
            forall|k: int|
                0 <= k < i ==> #[trigger] out@[k] == spec_resample_at(
                    input.samples@,
                    ratio as int,
                    k,
                ),
            samples_bounded(out@),
        decreases out_len - i,
    {
        proof {
            assert(0 <= (i as int) * ratio < (out_len as int) * ratio) by (nonlinear_arith)
                requires
                    0 <= i < out_len as int,
                    ratio >= 32,
            ;
            assert((out_len as int) * ratio <= in_len as int * SCALE) by {
                vstd::arithmetic::div_mod::lemma_fundamental_div_mod(
                    in_len as int * SCALE,
                    ratio as int,
                );
                vstd::arithmetic::div_mod::lemma_mod_bound(in_len as int * SCALE, ratio as int);
                assert((out_len as int) * ratio <= (ratio as int) * (in_len as int * SCALE / (
                ratio as int))) by (nonlinear_arith)
                    requires
                        out_len as int == in_len as int * SCALE / (ratio as int),
                        ratio >= 32,
                ;
            }
        }
        let pos: i64 = (i as i64) * ratio;
        let idx_i: i64 = pos / SCALE;
        proof {
            vstd::arithmetic::div_mod::lemma_div_pos_is_pos(pos as int, SCALE as int);
            vstd::arithmetic::div_mod::lemma_fundamental_div_mod(pos as int, SCALE as int);
            vstd::arithmetic::div_mod::lemma_mod_bound(pos as int, SCALE as int);
            assert(idx_i < in_len) by {
                assert(pos < in_len as int * SCALE);
                if idx_i >= in_len as int {
                    assert(pos >= (in_len as int) * SCALE) by (nonlinear_arith)
                        requires
                            pos as int == SCALE * (pos as int / (SCALE as int)) + pos as int % (
                            SCALE as int),
                            pos as int / (SCALE as int) >= in_len as int,
                            pos as int % (SCALE as int) >= 0,
                            SCALE == 32768,
                    ;
                }
            }
        }
        let idx = idx_i as usize;
        let frac: i64 = pos - idx_i * SCALE;

        let s0 = input.samples[idx];
        let s1 = if idx + 1 < in_len {
            input.samples[idx + 1]
        } else {
            s0
        };
        out.push(crate::nice::lerp(s0, s1, frac));
        i += 1;
    }
    AudioBuffer { sample_rate: input.sample_rate, samples: out }
}

/// The Q15 smoothing fraction applied to a requested glide curve.
pub const GLIDE_ALPHA: i64 = 6554;

/// The samples a glide walk emits from Q15 position `pos` with curve values
/// from `pi` on: advance by the current curve value, then interpolate the
/// input there; stop at the buffer end, when the curve is exhausted, or on
/// a non-positive curve value.
pub open spec fn glide_from(s: Seq<i64>, vals: Seq<i64>, pos: int, pi: int) -> Seq<i64>
    decreases crate::psola::clamp0(s.len() * SCALE - pos),
{
    if pos < 0 || pos >= s.len() * SCALE {
        Seq::empty()
    } else if pi < 0 || pi >= vals.len() {
        Seq::empty()
    } else if vals[pi] <= 0 {
        Seq::empty()
    } else {
        let pos2 = pos + vals[pi];
        let idx = pos2 / (SCALE as int);
        if idx >= s.len() {
            Seq::empty()
        } else {
            let frac = pos2 - idx * SCALE;
            let s0 = s[idx] as int;
            let s1 = if idx + 1 < s.len() {
                s[idx + 1] as int
            } else {
                s0
            };
            seq![spec_lerp(s0, s1, frac) as i64] + glide_from(s, vals, pos2, pi + 1)
        }
    }
}

/// What a pitch glide over a requested Q15 ratio curve returns: the curve
/// is low-pass smoothed, then the input is resampled at positions that
/// advance by one smoothed ratio per output sample.
pub open spec fn spec_pitch_glide(s: Seq<i64>, curve: Seq<i64>) -> Seq<i64> {
    glide_from(
        s,
        Seq::new(
            curve.len(),
            |i: int| crate::nice::spec_low_pass_at(curve, GLIDE_ALPHA as int, i) as i64,
        ),
        0,
        0,
    )
}

/// Pitch shift where the ratio changes over time: the caller samples its
/// ratio curve into Q15 values, one per output sample to come; the curve is
/// smoothed and the input interpolated at curve-driven positions
/// (see [`spec_pitch_glide`]). The walk stops at the buffer end or when the
/// curve runs out.
pub fn pitch_glide(input: &AudioBuffer, curve: &Vec<i64>) -> (r: AudioBuffer)
    requires
        input.wf(),
        curve@.len() > 0,
        forall|k: int| 0 <= k < curve@.len() ==> RATIO_MIN <= #[trigger] curve@[k] <= RATIO_MAX,
    ensures
        r.sample_rate == input.sample_rate,
        r.samples@ == spec_pitch_glide(input.samples@, curve@),
        samples_bounded(r.samples@),
{
    let ghost s = input.samples@;
    proof {
        assert forall|k: int| 0 <= k < curve@.len() implies -0x2000000 <= #[trigger] curve@[k]
            <= 0x2000000 by {}
    }
    let smooth = crate::nice::low_pass(curve, GLIDE_ALPHA);
    let ghost sm = smooth@;
    proof {
        assert(sm =~= Seq::new(
            curve@.len(),
            |i: int| crate::nice::spec_low_pass_at(curve@, GLIDE_ALPHA as int, i) as i64,
        ));
        assert forall|k: int| 0 <= k < sm.len() implies RATIO_MIN <= #[trigger] sm[k]
            <= RATIO_MAX by {
            crate::nice::lemma_low_pass_bounded(
                curve@,
                GLIDE_ALPHA as int,
                k,
                RATIO_MIN as int,
                RATIO_MAX as int,
            );
        }
    }
    let ghost total = glide_from(s, sm, 0, 0);

    let in_len = input.samples.len();
    let end: i64 = (in_len as i64) * SCALE;
    proof {
        assert(0 <= (in_len as int) * SCALE <= 0x4000_0000int * 32768) by (nonlinear_arith)
            requires
                0 <= in_len <= 0x4000_0000,
                SCALE == 32768,
        ;
        assert(Seq::<i64>::empty() + glide_from(s, sm, 0, 0) =~= total);
    }

    let mut out: Vec<i64> = Vec::new();
    let mut pos: i64 = 0;
    let mut pi: usize = 0;
    while pos < end
        invariant_except_break
            input.wf(),
            s == input.samples@,
            in_len == s.len(),
            end == in_len * SCALE,
            end <= 0x4000_0000int * 32768,
            forall|k: int| 0 <= k < sm.len() ==> RATIO_MIN <= #[trigger] sm[k] <= RATIO_MAX,
            smooth@ == sm,
            0 <= pos,
            pi <= sm.len(),
            samples_bounded(out@),
            total == out@ + glide_from(s, sm, pos as int, pi as int),
        ensures
            total == out@ || (total == out@ + glide_from(s, sm, pos as int, pi as int) && pos
                >= end),
            samples_bounded(out@),
        decreases end - pos,
    {
        let ghost pre_pos = pos as int;
        let ghost pre_pi = pi as int;
        if pi >= smooth.len() {
            proof {
                assert(glide_from(s, sm, pre_pos, pre_pi) =~= Seq::<i64>::empty());
                assert(total =~= out@);
            }
            break;
        }
        let ratio = smooth[pi];
        pos = pos + ratio;
        pi = pi + 1;
        let idx_i: i64 = pos / SCALE;
        proof {
            vstd::arithmetic::div_mod::lemma_div_pos_is_pos(pos as int, SCALE as int);
            vstd::arithmetic::div_mod::lemma_fundamental_div_mod(pos as int, SCALE as int);
            vstd::arithmetic::div_mod::lemma_mod_bound(pos as int, SCALE as int);
        }
        if idx_i >= in_len as i64 {
            proof {
                assert(glide_from(s, sm, pre_pos, pre_pi) =~= Seq::<i64>::empty());
                assert(total =~= out@);
            }
            break;
        }
        let idx = idx_i as usize;
        let frac: i64 = pos - idx_i * SCALE;
        let s0 = input.samples[idx];
        let s1 = if idx + 1 < in_len {
            input.samples[idx + 1]
        } else {
            s0
        };
        out.push(crate::nice::lerp(s0, s1, frac));
        proof {
            assert(glide_from(s, sm, pre_pos, pre_pi) == seq![
                spec_lerp(s0 as int, s1 as int, frac as int) as i64,
            ] + glide_from(s, sm, pos as int, pi as int));
            assert(total =~= out@ + glide_from(s, sm, pos as int, pi as int));
        }
    }
    proof {
        if total != out@ {
            assert(glide_from(s, sm, pos as int, pi as int) =~= Seq::<i64>::empty());
            assert(out@ + Seq::<i64>::empty() =~= out@);
        }
    }
    AudioBuffer { sample_rate: input.sample_rate, samples: out }
}

} // verus!
