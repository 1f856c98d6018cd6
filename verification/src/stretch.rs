//! Time-stretch by plain overlap-add.

use vstd::prelude::*;

use crate::buffer::AudioBuffer;
use crate::psola::{deposit, overlap_inv, qmul, zeros};
use crate::window::{hann, spec_hann};
use crate::{RATIO_MAX, RATIO_MIN, SCALE};

verus! {

/// Samples per overlap-add frame.
pub const STRETCH_WINDOW: usize = 1024;

/// Hop between successive analysis frames.
pub const STRETCH_HOP: usize = 256;

/// How many analysis frames the stretch walk takes: one per hop while a
/// full window remains strictly inside the buffer.
pub open spec fn stretch_frames(len: int) -> int {
    if len <= STRETCH_WINDOW {
        0
    } else {
        (len - STRETCH_WINDOW - 1) / STRETCH_HOP as int + 1
    }
}

/// What analysis frame `k`, placed at `k` synthesis hops, adds to output
/// sample `j`: the Hann-windowed source sample, or nothing outside the
/// frame's span.
pub open spec fn stretch_one(s: Seq<i64>, shop: int, k: int, j: int) -> int {
    let start = k * shop;
    if start <= j < start + STRETCH_WINDOW {
        qmul(s[k * STRETCH_HOP + (j - start)] as int, spec_hann(STRETCH_WINDOW as int, j - start))
    } else {
        0
    }
}

/// Output sample `j` after the first `n` frames are overlap-added.
pub open spec fn stretch_out(s: Seq<i64>, shop: int, n: int, j: int) -> int
    decreases n,
{
    if n <= 0 {
        0
    } else {
        stretch_out(s, shop, n - 1, j) + stretch_one(s, shop, n - 1, j)
    }
}

/// A frame strictly inside the buffer is counted.
proof fn lemma_stretch_frame_index(len: int, m: int)
    requires
        0 <= m,
        m * STRETCH_HOP + STRETCH_WINDOW < len,
    ensures
        m < stretch_frames(len),
{
    vstd::arithmetic::div_mod::lemma_div_multiples_vanish(m, STRETCH_HOP as int);
    vstd::arithmetic::div_mod::lemma_div_is_ordered(
        (STRETCH_HOP as int) * m,
        len - STRETCH_WINDOW - 1,
        STRETCH_HOP as int,
    );
    assert((STRETCH_HOP as int) * m == m * STRETCH_HOP) by (nonlinear_arith);
}

/// Naive overlap-add time-stretch: Hann-windowed 1024-sample frames taken
/// every 256 samples are laid back down every `256 * stretch` samples
/// (see [`stretch_out`]). Superseded by PSOLA resynthesis, which avoids its
/// artifacts.
pub fn time_stretch(input: &AudioBuffer, stretch: i64) -> (r: AudioBuffer)
    requires
        input.wf(),
        RATIO_MIN <= stretch <= RATIO_MAX,
        (input.samples@.len() * stretch + SCALE - 1) / (SCALE as int) <= crate::MAX_LEN,
    ensures
        r.sample_rate == input.sample_rate,
        r.samples@.len() == (input.samples@.len() * stretch + SCALE - 1) / (SCALE as int),
        forall|j: int|
            0 <= j < r.samples@.len() ==> #[trigger] r.samples@[j] == stretch_out(
                input.samples@,
                STRETCH_HOP as int * stretch / (SCALE as int),
                stretch_frames(input.samples@.len() as int),
                j,
            ),
{
    let ghost s = input.samples@;
    let in_len = input.samples.len();
    proof {
        assert(0 <= (in_len as int) * stretch + SCALE - 1 <= 0x4000_0000int * 0x2000000 + 32767)
            by (nonlinear_arith)
            requires
                0 <= in_len <= 0x4000_0000,
                0 < stretch <= 0x2000000,
                SCALE == 32768,
        ;
        vstd::arithmetic::div_mod::lemma_div_pos_is_pos(
            in_len as int * stretch + SCALE - 1,
            SCALE as int,
        );
    }
    let out_len = (((in_len as i64) * stretch + (SCALE - 1)) / SCALE) as usize;
    let synthesis_hop = ((STRETCH_HOP as i64) * stretch / SCALE) as usize;
    proof {
        vstd::arithmetic::div_mod::lemma_div_pos_is_pos(
            STRETCH_HOP as int * stretch,
            SCALE as int,
        );
        vstd::arithmetic::div_mod::lemma_div_is_ordered(
            STRETCH_HOP as int * stretch,
            STRETCH_HOP as int * 0x2000000,
            SCALE as int,
        );
    }

    let window = hann(STRETCH_WINDOW);

    let mut out = zeros(out_len);
    let mut acc = zeros(out_len);
    let ghost nf = stretch_frames(in_len as int);

    let mut in_pos: usize = 0;
    let mut out_pos: i64 = 0;
    let mut k: usize = 0;
    while in_pos + STRETCH_WINDOW < in_len
        invariant
            input.wf(),
            s == input.samples@,
            in_len == s.len(),
            RATIO_MIN <= stretch <= RATIO_MAX,
            synthesis_hop == STRETCH_HOP as int * stretch / (SCALE as int),
            synthesis_hop <= 0x2000000int * STRETCH_HOP / (SCALE as int),
            nf == stretch_frames(in_len as int),
            out_len <= crate::MAX_LEN,
            window@.len() == STRETCH_WINDOW,
            forall|n: int| 0 <= n < STRETCH_WINDOW ==> window@[n] == spec_hann(
                STRETCH_WINDOW as int,
                n,
            ),
            forall|n: int| 0 <= n < STRETCH_WINDOW ==> 0 <= #[trigger] window@[n] <= SCALE,
            in_pos == k * STRETCH_HOP,
            out_pos == k * (synthesis_hop as int),
            0 <= out_pos <= 0x1_0000_0000_0000,
            synthesis_hop <= 0x40000,
            k <= nf,
            nf <= in_len,
            out@.len() == out_len,
            acc@.len() == out_len,
            overlap_inv(out@, acc@),
            forall|j: int|
                0 <= j < out@.len() ==> #[trigger] out@[j] == stretch_out(
                    s,
                    synthesis_hop as int,
                    k as int,
                    j,
                ),
            forall|j: int| 0 <= j < acc@.len() ==> #[trigger] acc@[j] <= k * SCALE,
        decreases in_len - in_pos,
    {
        proof {
            lemma_stretch_frame_index(in_len as int, k as int);
            assert forall|j: int| 0 <= j < acc@.len() implies #[trigger] acc@[j] <= (
            crate::MAX_LEN - 1) * SCALE by {
                assert(k * SCALE <= (crate::MAX_LEN - 1) * SCALE) by (nonlinear_arith)
                    requires
                        0 <= k <= crate::MAX_LEN - 1,
                        SCALE == 32768,
                ;
            }
        }
        deposit(
            &mut out,
            &mut acc,
            input.samples.as_slice(),
            in_pos,
            &window,
            out_pos,
        );
        proof {
            assert forall|j: int| 0 <= j < out@.len() implies #[trigger] out@[j] == stretch_out(
                s,
                synthesis_hop as int,
                k + 1,
                j,
            ) by {
                assert(stretch_out(s, synthesis_hop as int, k + 1, j) == stretch_out(
                    s,
                    synthesis_hop as int,
                    k as int,
                    j,
                ) + stretch_one(s, synthesis_hop as int, k as int, j));
            }
            assert forall|j: int| 0 <= j < acc@.len() implies #[trigger] acc@[j] <= (k + 1)
                * SCALE by {
                assert(k * SCALE + SCALE == (k + 1) * SCALE) by (nonlinear_arith);
            }
            assert((k + 1) * STRETCH_HOP == k * STRETCH_HOP + STRETCH_HOP) by (nonlinear_arith);
            assert((k + 1) * (synthesis_hop as int) == k * (synthesis_hop as int)
                + synthesis_hop) by (nonlinear_arith);
            assert(0 <= (k + 1) * (synthesis_hop as int) <= 0x4000_0000int * 0x40000)
                by (nonlinear_arith)
                requires
                    0 <= k + 1 <= 0x4000_0000,
                    0 <= synthesis_hop <= 0x40000,
            ;
        }
        in_pos += STRETCH_HOP;
        out_pos += synthesis_hop as i64;
        k += 1;
    }
    proof {
        assert(k == nf) by {
            if k < nf {
                let q = (in_len - STRETCH_WINDOW - 1) / STRETCH_HOP as int;
                vstd::arithmetic::div_mod::lemma_fundamental_div_mod(
                    in_len - STRETCH_WINDOW - 1,
                    STRETCH_HOP as int,
                );
                vstd::arithmetic::div_mod::lemma_mod_bound(
                    in_len - STRETCH_WINDOW - 1,
                    STRETCH_HOP as int,
                );
                assert(k * STRETCH_HOP <= q * STRETCH_HOP) by (nonlinear_arith)
                    requires
                        k <= q,
                        STRETCH_HOP == 256,
                ;
                assert(q * STRETCH_HOP <= in_len - STRETCH_WINDOW - 1) by (nonlinear_arith)
                    requires
                        (STRETCH_HOP as int) * q <= in_len - STRETCH_WINDOW - 1,
                ;
            }
        }
    }
    AudioBuffer { sample_rate: input.sample_rate, samples: out }
}

/// The Q15 smoothing fraction applied to a requested stretch curve.
pub const STRETCH_ALPHA: i64 = 1638;

/// A requested stretch curve after smoothing.
pub open spec fn tg_vals(curve: Seq<i64>) -> Seq<i64> {
    Seq::new(
        curve.len(),
        |i: int| crate::nice::spec_low_pass_at(curve, STRETCH_ALPHA as int, i) as i64,
    )
}

/// The synthesis hop after frame `k`: the analysis hop scaled by that
/// frame's smoothed stretch value.
pub open spec fn tg_hop(vals: Seq<i64>, k: int) -> int {
    STRETCH_HOP as int * vals[k] / (SCALE as int)
}

/// Where frame `k` is laid down: the sum of the synthesis hops before it.
pub open spec fn tg_pos(vals: Seq<i64>, k: int) -> int
    decreases k,
{
    if k <= 0 {
        0
    } else {
        tg_pos(vals, k - 1) + tg_hop(vals, k - 1)
    }
}

/// What analysis frame `k` adds to output sample `j` under a glide.
pub open spec fn tg_one(s: Seq<i64>, vals: Seq<i64>, k: int, j: int) -> int {
    let start = tg_pos(vals, k);
    if start <= j < start + STRETCH_WINDOW {
        qmul(s[k * STRETCH_HOP + (j - start)] as int, spec_hann(STRETCH_WINDOW as int, j - start))
    } else {
        0
    }
}

/// Output sample `j` after the first `n` frames of a glide.
pub open spec fn tg_out(s: Seq<i64>, vals: Seq<i64>, n: int, j: int) -> int
    decreases n,
{
    if n <= 0 {
        0
    } else {
        tg_out(s, vals, n - 1, j) + tg_one(s, vals, n - 1, j)
    }
}

/// A glide's output length: the input length, extended to cover the last
/// frame's span when the stretch pushed it further out.
pub open spec fn spec_tg_len(s_len: int, vals: Seq<i64>, nf: int) -> int {
    if nf <= 0 {
        s_len
    } else {
        let e = tg_pos(vals, nf - 1) + STRETCH_WINDOW;
        if e > s_len {
            e
        } else {
            s_len
        }
    }
}

/// Frame positions grow monotonically and at most one maximal hop per
/// frame, for nonnegative bounded stretch values.
pub proof fn lemma_tg_pos_bounds(vals: Seq<i64>, k: int)
    requires
        forall|i: int| 0 <= i < vals.len() ==> 0 <= #[trigger] vals[i] <= RATIO_MAX,
        0 <= k <= vals.len(),
    ensures
        0 <= tg_pos(vals, k) <= k * 0x40000,
        forall|a: int| 0 <= a <= k ==> 0 <= #[trigger] tg_pos(vals, a) <= tg_pos(vals, k),
    decreases k,
{
    if k > 0 {
        lemma_tg_pos_bounds(vals, k - 1);
        vstd::arithmetic::div_mod::lemma_div_pos_is_pos(
            STRETCH_HOP as int * vals[k - 1],
            SCALE as int,
        );
        assert(0 <= STRETCH_HOP as int * vals[k - 1] <= 256 * 0x2000000) by (nonlinear_arith)
            requires
                0 <= vals[k - 1] <= 0x2000000,
        ;
        vstd::arithmetic::div_mod::lemma_div_is_ordered(
            STRETCH_HOP as int * vals[k - 1],
            256 * 0x2000000int,
            SCALE as int,
        );
        assert((k - 1) * 0x40000 + 0x40000 == k * 0x40000) by (nonlinear_arith);
    }
}

/// Time-stretch where the stretch changes over time: the caller samples its
/// stretch curve into Q15 values, one per analysis frame; the curve is
/// smoothed, and each Hann-windowed frame is laid down at a cursor that
/// advances by that frame's scaled hop (see [`tg_out`]). Superseded by
/// PSOLA resynthesis, which avoids its artifacts.
pub fn time_glide(input: &AudioBuffer, curve: &Vec<i64>) -> (r: AudioBuffer)
    requires
        input.wf(),
        curve@.len() > 0,
        curve@.len() >= stretch_frames(input.samples@.len() as int),
        forall|k: int| 0 <= k < curve@.len() ==> RATIO_MIN <= #[trigger] curve@[k] <= RATIO_MAX,
        spec_tg_len(
            input.samples@.len() as int,
            tg_vals(curve@),
            stretch_frames(input.samples@.len() as int),
        ) <= crate::MAX_LEN,
    ensures
        r.sample_rate == input.sample_rate,
        r.samples@.len() == spec_tg_len(
            input.samples@.len() as int,
            tg_vals(curve@),
            stretch_frames(input.samples@.len() as int),
        ),
        forall|j: int|
            0 <= j < r.samples@.len() ==> #[trigger] r.samples@[j] == tg_out(
                input.samples@,
                tg_vals(curve@),
                stretch_frames(input.samples@.len() as int),
                j,
            ),
{
    let ghost s = input.samples@;
    let in_len = input.samples.len();

    let smooth = crate::nice::low_pass(curve, STRETCH_ALPHA);
    let ghost vals = smooth@;
    proof {
        assert(vals =~= tg_vals(curve@));
        assert forall|k: int| 0 <= k < vals.len() implies RATIO_MIN <= #[trigger] vals[k]
            <= RATIO_MAX by {
            crate::nice::lemma_low_pass_bounded(
                curve@,
                STRETCH_ALPHA as int,
                k,
                RATIO_MIN as int,
                RATIO_MAX as int,
            );
        }
    }

    let nframes: usize = if in_len <= STRETCH_WINDOW {
        0
    } else {
        (in_len - STRETCH_WINDOW - 1) / STRETCH_HOP + 1
    };
    proof {
        assert(nframes == stretch_frames(in_len as int));
        if in_len > STRETCH_WINDOW {
            vstd::arithmetic::div_mod::lemma_div_nonincreasing(
                in_len - STRETCH_WINDOW - 1,
                STRETCH_HOP as int,
            );
            vstd::arithmetic::div_mod::lemma_div_pos_is_pos(
                in_len - STRETCH_WINDOW - 1,
                STRETCH_HOP as int,
            );
        }
        lemma_tg_pos_bounds(vals, if nframes > 0 { nframes - 1 } else { 0 });
    }

    let mut last_pos: i64 = 0;
    if nframes > 0 {
        let mut k: usize = 0;
        while k + 1 < nframes
            invariant
                vals == smooth@,
                nframes <= vals.len() + 1,
                nframes - 1 <= vals.len(),
                forall|i: int| 0 <= i < vals.len() ==> RATIO_MIN <= #[trigger] vals[i] <= RATIO_MAX,
                k <= nframes - 1,
                nframes <= in_len,
                in_len <= 0x4000_0000,
                last_pos == tg_pos(vals, k as int),
                0 <= last_pos <= k * 0x40000,
            decreases nframes - k,
        {
            proof {
                lemma_tg_pos_bounds(vals, k + 1);
                vstd::arithmetic::div_mod::lemma_div_pos_is_pos(
                    STRETCH_HOP as int * smooth@[k as int],
                    SCALE as int,
                );
                assert(0 <= (STRETCH_HOP as int) * smooth@[k as int] <= 256 * 0x2000000)
                    by (nonlinear_arith)
                    requires
                        0 <= smooth@[k as int] <= 0x2000000,
                ;
                vstd::arithmetic::div_mod::lemma_div_is_ordered(
                    STRETCH_HOP as int * smooth@[k as int],
                    256 * 0x2000000int,
                    SCALE as int,
                );
                assert(k * 0x40000 + 0x40000 == (k + 1) * 0x40000) by (nonlinear_arith);
                assert((k + 1) * 0x40000 <= 0x4000_0000int * 0x40000) by (nonlinear_arith)
                    requires
                        0 <= k + 1 <= 0x4000_0000,
                ;
            }
            let hop = (STRETCH_HOP as i64) * smooth[k] / SCALE;
            last_pos = last_pos + hop;
            k += 1;
        }
    }

    let out_len: usize = if nframes == 0 {
        in_len
    } else {
        let e = last_pos + (STRETCH_WINDOW as i64);
        if e > in_len as i64 {
            e as usize
        } else {
            in_len
        }
    };
    proof {
        assert(out_len == spec_tg_len(in_len as int, vals, nframes as int));
    }

    let window = hann(STRETCH_WINDOW);
    let mut out = zeros(out_len);
    let mut acc = zeros(out_len);

    let mut pos: i64 = 0;
    let mut k: usize = 0;
    while k < nframes
        invariant
            input.wf(),
            s == input.samples@,
            in_len == s.len(),
            vals == smooth@,
            nframes == stretch_frames(in_len as int),
            nframes <= vals.len(),
            nframes <= in_len,
            forall|i: int| 0 <= i < vals.len() ==> RATIO_MIN <= #[trigger] vals[i] <= RATIO_MAX,
            out_len == spec_tg_len(in_len as int, vals, nframes as int),
            out_len <= crate::MAX_LEN,
            window@.len() == STRETCH_WINDOW,
            forall|n: int| 0 <= n < STRETCH_WINDOW ==> window@[n] == spec_hann(
                STRETCH_WINDOW as int,
                n,
            ),
            forall|n: int| 0 <= n < STRETCH_WINDOW ==> 0 <= #[trigger] window@[n] <= SCALE,
            k <= nframes,
            pos == tg_pos(vals, k as int),
            0 <= pos <= k * 0x40000,
            out@.len() == out_len,
            acc@.len() == out_len,
            overlap_inv(out@, acc@),
            forall|j: int|
                0 <= j < out@.len() ==> #[trigger] out@[j] == tg_out(s, vals, k as int, j),
            forall|j: int| 0 <= j < acc@.len() ==> #[trigger] acc@[j] <= k * SCALE,
        decreases nframes - k,
    {
        proof {
            lemma_stretch_frame_index(in_len as int, k as int);
            lemma_tg_pos_bounds(vals, nframes - 1 as int);
            assert(pos + STRETCH_WINDOW <= out_len);
            assert forall|j: int| 0 <= j < acc@.len() implies #[trigger] acc@[j] <= (
            crate::MAX_LEN - 1) * SCALE by {
                assert(k * SCALE <= (crate::MAX_LEN - 1) * SCALE) by (nonlinear_arith)
                    requires
                        0 <= k <= crate::MAX_LEN - 1,
                        SCALE == 32768,
                ;
            }
        }
        deposit(&mut out, &mut acc, input.samples.as_slice(), k * STRETCH_HOP, &window, pos);
        proof {
            assert forall|j: int| 0 <= j < out@.len() implies #[trigger] out@[j] == tg_out(
                s,
                vals,
                k + 1,
                j,
            ) by {
                assert(tg_out(s, vals, k + 1, j) == tg_out(s, vals, k as int, j) + tg_one(
                    s,
                    vals,
                    k as int,
                    j,
                ));
            }
            assert forall|j: int| 0 <= j < acc@.len() implies #[trigger] acc@[j] <= (k + 1)
                * SCALE by {
                assert(k * SCALE + SCALE == (k + 1) * SCALE) by (nonlinear_arith);
            }
            assert((k + 1) * STRETCH_HOP == k * STRETCH_HOP + STRETCH_HOP) by (nonlinear_arith);
            lemma_tg_pos_bounds(vals, k + 1);
            vstd::arithmetic::div_mod::lemma_div_pos_is_pos(
                STRETCH_HOP as int * smooth@[k as int],
                SCALE as int,
            );
            assert(0 <= (STRETCH_HOP as int) * smooth@[k as int] <= 256 * 0x2000000)
                by (nonlinear_arith)
                requires
                    0 <= smooth@[k as int] <= 0x2000000,
            ;
            vstd::arithmetic::div_mod::lemma_div_is_ordered(
                STRETCH_HOP as int * smooth@[k as int],
                256 * 0x2000000int,
                SCALE as int,
            );
            assert(k * 0x40000 + 0x40000 == (k + 1) * 0x40000) by (nonlinear_arith);
            assert((k + 1) * 0x40000 <= 0x4000_0000int * 0x40000) by (nonlinear_arith)
                requires
                    0 <= k + 1 <= 0x4000_0000,
            ;
        }
        let hop = (STRETCH_HOP as i64) * smooth[k] / SCALE;
        pos = pos + hop;
        k += 1;
    }
    AudioBuffer { sample_rate: input.sample_rate, samples: out }
}

} // verus!
