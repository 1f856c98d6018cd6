//! Crossfade between two buffers.

use vstd::prelude::*;

use crate::buffer::AudioBuffer;
use crate::window_calc::dot_range;
use crate::SCALE;

verus! {

/// Default crossfade length in samples (50 ms at 44.1 kHz).
pub const CROSSFADE_TIME: usize = 2205;

/// Grain-level interpolation.
#[derive(Clone, Copy, Debug, PartialEq, Eq, Structural)]
pub struct GrainInterp {
    /// Grain index within the target phoneme
    pub target_grain: usize,
    pub fade_len: usize,
}

/// The energy-detection window: 10 ms of samples.
pub open spec fn spec_vwin(sample_rate: u32) -> int {
    sample_rate as int / 100
}

/// The energy-detection hop: 5 ms of samples, and at least one sample so
/// the scan always advances.
pub open spec fn spec_vhop(sample_rate: u32) -> int {
    if sample_rate as int / 200 >= 1 {
        sample_rate as int / 200
    } else {
        1
    }
}

/// How many detection frames fit: one per hop while a full window remains.
pub open spec fn spec_vframes(len: int, win: int, hop: int) -> int {
    if win <= 0 || len < win {
        0
    } else {
        (len - win) / hop + 1
    }
}

/// The energy (sum of squared samples) of detection frame `k`.
pub open spec fn energy_at(s: Seq<i64>, win: int, hop: int, k: int) -> int {
    dot_range(s, k * hop, k * hop, win)
}

/// The largest frame energy among the first `n` detection frames.
pub open spec fn max_energy_upto(s: Seq<i64>, win: int, hop: int, n: int) -> int
    decreases n,
{
    if n <= 0 {
        0
    } else if energy_at(s, win, hop, n - 1) > max_energy_upto(s, win, hop, n - 1) {
        energy_at(s, win, hop, n - 1)
    } else {
        max_energy_upto(s, win, hop, n - 1)
    }
}

/// Whether detection frame `k` is voiced: its RMS reaches 5% of the peak
/// frame RMS, compared exactly on energies (squares of 1/20 scale).
pub open spec fn voiced_frame(s: Seq<i64>, win: int, hop: int, nf: int, k: int) -> bool {
    400 * energy_at(s, win, hop, k) >= max_energy_upto(s, win, hop, nf)
}

/// The first voiced frame index at or after `k`; `nf` if none.
pub open spec fn first_voiced_from(s: Seq<i64>, win: int, hop: int, nf: int, k: int) -> int
    decreases nf - k,
{
    if k < 0 || k >= nf {
        nf
    } else if voiced_frame(s, win, hop, nf, k) {
        k
    } else {
        first_voiced_from(s, win, hop, nf, k + 1)
    }
}

/// The last voiced frame index at or before `k`; `-1` if none.
pub open spec fn last_voiced_upto(s: Seq<i64>, win: int, hop: int, nf: int, k: int) -> int
    decreases k + 1,
{
    if k < 0 {
        -1
    } else if voiced_frame(s, win, hop, nf, k) {
        k
    } else {
        last_voiced_upto(s, win, hop, nf, k - 1)
    }
}

/// What voiced-region detection returns on a buffer: the span from the
/// first voiced frame's start to the last voiced frame's end, or nothing
/// when not even one detection window fits.
pub open spec fn spec_voiced_region(s: Seq<i64>, sample_rate: u32) -> Option<(usize, usize)> {
    let win = spec_vwin(sample_rate);
    let hop = spec_vhop(sample_rate);
    let nf = spec_vframes(s.len() as int, win, hop);
    if nf <= 0 {
        None
    } else {
        let f = first_voiced_from(s, win, hop, nf, 0);
        let l = last_voiced_upto(s, win, hop, nf, nf - 1);
        Some(((f * hop) as usize, (l * hop + win) as usize))
    }
}

/// A sum of squared samples is never negative.
pub proof fn lemma_self_dot_nonneg(s: Seq<i64>, a: int, n: int)
    ensures
        dot_range(s, a, a, n) >= 0,
    decreases n,
{
    if n > 0 {
        lemma_self_dot_nonneg(s, a, n - 1);
        let x = s[a + n - 1] as int;
        assert(x * x >= 0) by (nonlinear_arith);
    }
}

/// A maximum over frames is at least each frame's energy, and some frame
/// attains it (so whenever frames exist, a voiced frame exists).
pub proof fn lemma_max_energy(s: Seq<i64>, win: int, hop: int, n: int)
    requires
        n > 0,
        forall|k: int| 0 <= k < n ==> energy_at(s, win, hop, k) >= 0,
    ensures
        max_energy_upto(s, win, hop, n) >= 0,
        forall|k: int| 0 <= k < n ==> energy_at(s, win, hop, k) <= max_energy_upto(s, win, hop, n),
        exists|k: int|
            0 <= k < n && energy_at(s, win, hop, k) == max_energy_upto(s, win, hop, n),
    decreases n,
{
    if n == 1 {
        assert(max_energy_upto(s, win, hop, 0) == 0);
        assert(energy_at(s, win, hop, 0) == max_energy_upto(s, win, hop, 1));
    } else {
        lemma_max_energy(s, win, hop, n - 1);
        if energy_at(s, win, hop, n - 1) > max_energy_upto(s, win, hop, n - 1) {
            assert(energy_at(s, win, hop, n - 1) == max_energy_upto(s, win, hop, n));
        } else {
            let k0 = choose|k: int|
                0 <= k < n - 1 && energy_at(s, win, hop, k) == max_energy_upto(s, win, hop, n - 1);
            assert(0 <= k0 < n && energy_at(s, win, hop, k0) == max_energy_upto(s, win, hop, n));
        }
    }
}

/// A frame whose window still fits the buffer is counted.
pub proof fn lemma_frame_index(len: int, win: int, hop: int, m: int)
    requires
        win >= 1,
        hop >= 1,
        0 <= m,
        m * hop + win <= len,
    ensures
        m < spec_vframes(len, win, hop),
{
    vstd::arithmetic::div_mod::lemma_div_multiples_vanish(m, hop);
    vstd::arithmetic::div_mod::lemma_div_is_ordered(hop * m, len - win, hop);
    assert(hop * m == m * hop) by (nonlinear_arith);
}

/// The first voiced frame at or after `k` is voiced, and nothing voiced
/// precedes it (from `k` on).
pub proof fn lemma_first_voiced(s: Seq<i64>, win: int, hop: int, nf: int, k: int)
    requires
        0 <= k <= nf,
    ensures
        k <= first_voiced_from(s, win, hop, nf, k) <= nf,
        first_voiced_from(s, win, hop, nf, k) < nf ==> voiced_frame(
            s,
            win,
            hop,
            nf,
            first_voiced_from(s, win, hop, nf, k),
        ),
        forall|i: int|
            k <= i < first_voiced_from(s, win, hop, nf, k) ==> !voiced_frame(s, win, hop, nf, i),
    decreases nf - k,
{
    if k < nf && !voiced_frame(s, win, hop, nf, k) {
        lemma_first_voiced(s, win, hop, nf, k + 1);
    }
}

/// The last voiced frame at or before `k` is voiced, and nothing voiced
/// follows it (up to `k`).
pub proof fn lemma_last_voiced(s: Seq<i64>, win: int, hop: int, nf: int, k: int)
    requires
        -1 <= k < nf,
    ensures
        -1 <= last_voiced_upto(s, win, hop, nf, k) <= k,
        last_voiced_upto(s, win, hop, nf, k) >= 0 ==> voiced_frame(
            s,
            win,
            hop,
            nf,
            last_voiced_upto(s, win, hop, nf, k),
        ),
        forall|i: int|
            last_voiced_upto(s, win, hop, nf, k) < i <= k ==> !voiced_frame(s, win, hop, nf, i),
    decreases k + 1,
{
    if k >= 0 && !voiced_frame(s, win, hop, nf, k) {
        lemma_last_voiced(s, win, hop, nf, k - 1);
    }
}

/// The energy of `win` bounded samples starting at `pos`.
fn energy_sum(samples: &Vec<i64>, pos: usize, win: usize) -> (r: i64)
    requires
        crate::buffer::samples_bounded(samples@),
        pos + win <= samples@.len(),
        win <= 0x4000000,
    ensures
        r == dot_range(samples@, pos as int, pos as int, win as int),
        0 <= r <= win * (crate::MAX_ABS * crate::MAX_ABS),
{
    let total = samples.len();
    let mut sum: i64 = 0;
    let mut i: usize = 0;
    while i < win
        invariant
            total == samples@.len(),
            crate::buffer::samples_bounded(samples@),
            pos + win <= samples@.len(),
            win <= 0x4000000,
            i <= win,
            sum == dot_range(samples@, pos as int, pos as int, i as int),
            0 <= sum <= i * (crate::MAX_ABS * crate::MAX_ABS),
        decreases win - i,
    {
        let x = samples[pos + i];
        proof {
            assert(0 <= x * x <= crate::MAX_ABS * crate::MAX_ABS) by (nonlinear_arith)
                requires
                    -crate::MAX_ABS <= x <= crate::MAX_ABS,
            ;
            assert(i * (crate::MAX_ABS * crate::MAX_ABS) + crate::MAX_ABS * crate::MAX_ABS == (i
                + 1) * (crate::MAX_ABS * crate::MAX_ABS)) by (nonlinear_arith);
            assert((i + 1) * (crate::MAX_ABS * crate::MAX_ABS) <= 0x4000000int * (crate::MAX_ABS
                * crate::MAX_ABS)) by (nonlinear_arith)
                requires
                    0 <= i + 1 <= 0x4000000,
            ;
        }
        sum = sum + x * x;
        i += 1;
    }
    sum
}

/// Find the sample range carrying significant energy: short-time energy
/// over 10 ms windows at 5 ms hops, thresholded at 5% of the peak frame
/// RMS. `None` when the buffer is shorter than one window.
pub fn find_voiced_region(buf: &AudioBuffer) -> (r: Option<(usize, usize)>)
    requires
        buf.wf(),
    ensures
        r == spec_voiced_region(buf.samples@, buf.sample_rate),
        match r {
            Some(p) => 0 <= p.0 < p.1 <= buf.samples@.len(),
            None => spec_vframes(
                buf.samples@.len() as int,
                spec_vwin(buf.sample_rate),
                spec_vhop(buf.sample_rate),
            ) == 0,
        },
{
    let ghost s = buf.samples@;
    let win = (buf.sample_rate / 100) as usize;
    let hop_raw = (buf.sample_rate / 200) as usize;
    let hop = if hop_raw >= 1 {
        hop_raw
    } else {
        1
    };
    let len = buf.samples.len();
    proof {
        vstd::arithmetic::div_mod::lemma_div_is_ordered(
            buf.sample_rate as int,
            4294967295,
            100,
        );
    }
    if win == 0 || len < win {
        return None;
    }

    let ghost nf = spec_vframes(len as int, win as int, hop as int);
    proof {
        assert(nf >= 1) by {
            vstd::arithmetic::div_mod::lemma_div_pos_is_pos(len - win, hop as int);
        }
    }

    let mut energies: Vec<i64> = Vec::new();
    let mut max_e: i64 = 0;
    let mut pos: usize = 0;
    let mut k: usize = 0;
    while pos + win <= len
        invariant
            buf.wf(),
            s == buf.samples@,
            len == s.len(),
            1 <= win <= 0x4000000,
            win <= len,
            hop >= 1,
            win == spec_vwin(buf.sample_rate),
            hop == spec_vhop(buf.sample_rate),
            nf == spec_vframes(len as int, win as int, hop as int),
            pos == k * hop,
            pos <= len + hop,
            k <= nf,
            energies@.len() == k,
            forall|i: int|
                0 <= i < k ==> #[trigger] energies@[i] == energy_at(s, win as int, hop as int, i),
            max_e == max_energy_upto(s, win as int, hop as int, k as int),
        decreases len - pos,
    {
        proof {
            lemma_frame_index(len as int, win as int, hop as int, k as int);
        }
        let e = energy_sum(&buf.samples, pos, win);
        energies.push(e);
        if e > max_e {
            max_e = e;
        }
        proof {
            assert((k + 1) * hop == k * hop + hop) by (nonlinear_arith);
        }
        pos += hop;
        k += 1;
    }
    proof {
        assert(k == nf) by {
            if k < nf {
                let q = (len - win) / hop as int;
                vstd::arithmetic::div_mod::lemma_fundamental_div_mod(len - win, hop as int);
                vstd::arithmetic::div_mod::lemma_mod_bound(len - win, hop as int);
                assert(k * hop <= q * hop) by (nonlinear_arith)
                    requires
                        k <= q,
                        hop > 0,
                ;
                assert(q * hop <= len - win) by (nonlinear_arith)
                    requires
                        (hop as int) * q <= len - win,
                ;
            }
        }
    }

    let nframes = k;
    let mut first: usize = 0;
    while first < nframes && !(400i128 * (energies[first] as i128) >= max_e as i128)
        invariant
            nframes == nf,
            energies@.len() == nf,
            forall|i: int|
                0 <= i < nf ==> #[trigger] energies@[i] == energy_at(s, win as int, hop as int, i),
            max_e == max_energy_upto(s, win as int, hop as int, nf),
            first <= nf,
            first_voiced_from(s, win as int, hop as int, nf, 0) == first_voiced_from(
                s,
                win as int,
                hop as int,
                nf,
                first as int,
            ),
        decreases nframes - first,
    {
        first += 1;
    }
    let mut last: usize = nframes;
    while last > 0 && !(400i128 * (energies[last - 1] as i128) >= max_e as i128)
        invariant
            nframes == nf,
            energies@.len() == nf,
            forall|i: int|
                0 <= i < nf ==> #[trigger] energies@[i] == energy_at(s, win as int, hop as int, i),
            max_e == max_energy_upto(s, win as int, hop as int, nf),
            last <= nf,
            last_voiced_upto(s, win as int, hop as int, nf, nf - 1) == last_voiced_upto(
                s,
                win as int,
                hop as int,
                nf,
                last - 1,
            ),
        decreases last,
    {
        last -= 1;
    }
    proof {
        assert forall|kk: int| 0 <= kk < nf implies energy_at(s, win as int, hop as int, kk)
            >= 0 by {
            lemma_self_dot_nonneg(s, kk * (hop as int), win as int);
        }
        lemma_max_energy(s, win as int, hop as int, nf);
        lemma_first_voiced(s, win as int, hop as int, nf, 0);
        lemma_last_voiced(s, win as int, hop as int, nf, nf - 1);
        let mk = choose|k: int|
            0 <= k < nf && energy_at(s, win as int, hop as int, k) == max_energy_upto(
                s,
                win as int,
                hop as int,
                nf,
            );
        assert(voiced_frame(s, win as int, hop as int, nf, mk));
        assert(first < nframes);
        assert(last >= 1);
        assert(first as int == first_voiced_from(s, win as int, hop as int, nf, 0));
        assert(last - 1 as int == last_voiced_upto(s, win as int, hop as int, nf, nf - 1));
        assert(first <= last - 1);
        assert((first * hop) + win <= len) by {
            assert(first <= nf - 1);
            assert((nf - 1) * hop <= len - win) by {
                vstd::arithmetic::div_mod::lemma_fundamental_div_mod(len - win, hop as int);
                vstd::arithmetic::div_mod::lemma_mod_bound(len - win, hop as int);
                assert((nf - 1) * hop <= (hop as int) * ((len - win) / hop as int))
                    by (nonlinear_arith)
                    requires
                        nf - 1 == (len - win) / hop as int,
                        hop >= 1,
                ;
            }
            assert((first as int) * hop <= (nf - 1) * hop) by (nonlinear_arith)
                requires
                    0 <= first as int <= nf - 1,
                    hop >= 1,
            ;
        }
        assert(((last - 1) * hop) + win <= len) by {
            assert(last - 1 <= nf - 1);
            assert((nf - 1) * hop <= len - win) by {
                vstd::arithmetic::div_mod::lemma_fundamental_div_mod(len - win, hop as int);
                vstd::arithmetic::div_mod::lemma_mod_bound(len - win, hop as int);
                assert((nf - 1) * hop <= (hop as int) * ((len - win) / hop as int))
                    by (nonlinear_arith)
                    requires
                        nf - 1 == (len - win) / hop as int,
                        hop >= 1,
                ;
            }
            assert((last - 1) * hop <= (nf - 1) * hop) by (nonlinear_arith)
                requires
                    0 <= last - 1 <= nf - 1,
                    hop >= 1,
            ;
        }
        assert(first * hop <= (last - 1) * hop) by (nonlinear_arith)
            requires
                0 <= first as int <= last - 1,
                hop >= 1,
        ;
    }
    let start = first * hop;
    let end = (last - 1) * hop + win;
    Some((start, end))
}

/// The transition weight for fade grain `k` of `len`: a smoothstep from
/// favoring the first buffer (0) to favoring the second (full scale), with
/// the two grains nearest the midpoint pinned to exactly one half.
pub open spec fn spec_transition(k: int, len: int) -> int {
    let mid = len / 2;
    if k == mid || k == mid - 1 {
        SCALE / 2
    } else {
        let x = k * SCALE / (len - 1);
        (x * x / (SCALE as int)) * (3 * SCALE - 2 * x) / (SCALE as int)
    }
}

/// Transition weights are Q15 weights: between zero and full scale.
pub proof fn lemma_transition_bounds(k: int, len: int)
    requires
        0 <= k < len,
    ensures
        0 <= spec_transition(k, len) <= SCALE,
{
    let mid = len / 2;
    if !(k == mid || k == mid - 1) {
        if len == 1 {
            assert(len / 2 == 0 && k == 0);
        }
        let x = k * SCALE / (len - 1);
        assert(0 <= k * SCALE <= (len - 1) * SCALE) by (nonlinear_arith)
            requires
                0 <= k <= len - 1,
                SCALE == 32768,
        ;
        assert(0 <= x <= SCALE) by {
            vstd::arithmetic::div_mod::lemma_div_pos_is_pos(k * SCALE, len - 1);
            vstd::arithmetic::div_mod::lemma_div_is_ordered(k * SCALE, (len - 1) * SCALE, len - 1);
            vstd::arithmetic::div_mod::lemma_div_multiples_vanish(SCALE as int, len - 1);
        }
        let a = x * x / (SCALE as int);
        let m = 3 * SCALE - 2 * x;
        assert(0 <= x * x) by (nonlinear_arith);
        vstd::arithmetic::div_mod::lemma_div_pos_is_pos(x * x, SCALE as int);
        vstd::arithmetic::div_mod::lemma_fundamental_div_mod(x * x, SCALE as int);
        vstd::arithmetic::div_mod::lemma_mod_bound(x * x, SCALE as int);
        assert(a * SCALE <= x * x) by (nonlinear_arith)
            requires
                x * x == SCALE * a + x * x % (SCALE as int),
                0 <= x * x % (SCALE as int),
        ;
        assert((SCALE - x) * (SCALE - x) * (SCALE + 2 * x) >= 0) by (nonlinear_arith)
            requires
                0 <= x <= SCALE,
        ;
        assert(x * x * m <= SCALE * SCALE * SCALE) by (nonlinear_arith)
            requires
                (SCALE - x) * (SCALE - x) * (SCALE + 2 * x) >= 0,
                m == 3 * SCALE - 2 * x,
                SCALE == 32768,
        ;
        assert(a * m * SCALE <= x * x * m) by (nonlinear_arith)
            requires
                a * SCALE <= x * x,
                m >= 0,
        ;
        assert(a * m <= SCALE * SCALE) by (nonlinear_arith)
            requires
                a * m * SCALE <= SCALE * SCALE * SCALE,
                SCALE == 32768,
        ;
        assert(0 <= a * m) by (nonlinear_arith)
            requires
                0 <= a,
                0 <= m,
        ;
        vstd::arithmetic::div_mod::lemma_div_pos_is_pos(a * m, SCALE as int);
        vstd::arithmetic::div_mod::lemma_div_is_ordered(a * m, SCALE * SCALE, SCALE as int);
        vstd::arithmetic::div_mod::lemma_div_multiples_vanish(SCALE as int, SCALE as int);
    }
}

/// The transition weight favors the first buffer entirely at the start of
/// a fade longer than four grains, the second entirely at its end, and sits
/// at exactly one half on the two grains nearest the midpoint.
pub proof fn lemma_transition_boundary(len: int)
    requires
        len > 4,
    ensures
        spec_transition(0, len) == 0,
        spec_transition(len - 1, len) == SCALE,
        spec_transition(len / 2, len) == SCALE / 2,
        spec_transition(len / 2 - 1, len) == SCALE / 2,
{
    let mid = len / 2;
    vstd::arithmetic::div_mod::lemma_fundamental_div_mod(len, 2);
    vstd::arithmetic::div_mod::lemma_mod_bound(len, 2);
    assert(2 <= mid <= len - 2);
    assert(spec_transition(0, len) == 0) by {
        vstd::arithmetic::div_mod::lemma_div_multiples_vanish(0, len - 1);
        vstd::arithmetic::div_mod::lemma_div_multiples_vanish(0, SCALE as int);
        let x = 0 * SCALE / (len - 1);
        assert(x == 0);
        assert(x * x == 0) by (nonlinear_arith)
            requires
                x == 0,
        ;
        assert(x * x / (SCALE as int) == 0);
        assert((x * x / (SCALE as int)) * (3 * SCALE - 2 * x) == 0) by (nonlinear_arith)
            requires
                x * x / (SCALE as int) == 0,
        ;
    }
    assert(spec_transition(len - 1, len) == SCALE) by {
        vstd::arithmetic::div_mod::lemma_div_multiples_vanish(SCALE as int, len - 1);
        assert((len - 1) * SCALE == (len - 1) * SCALE) by (nonlinear_arith);
        let x = (len - 1) * SCALE / (len - 1);
        assert((len - 1) * SCALE == SCALE * (len - 1)) by (nonlinear_arith);
        assert(x == SCALE);
        vstd::arithmetic::div_mod::lemma_div_multiples_vanish(SCALE as int, SCALE as int);
        assert(x * x == SCALE * (SCALE as int)) by (nonlinear_arith)
            requires
                x == SCALE,
        ;
        assert(x * x / (SCALE as int) == SCALE);
        assert((SCALE as int) * (3 * SCALE - 2 * x) == SCALE * (SCALE as int)) by (nonlinear_arith)
            requires
                x == SCALE,
        ;
    }
}

/// The last pitch mark usable as the cut point in the first buffer: at
/// least one period before the voiced end and no earlier than the fade
/// length, scanning from the end.
pub open spec fn spec_find_cut(ms: Seq<usize>, voiced_end: int, fade_len: int, period: int) -> Option<
    usize,
>
    decreases ms.len(),
{
    if ms.len() == 0 {
        None
    } else if ms.last() + period <= voiced_end && ms.last() >= fade_len {
        Some(ms.last())
    } else {
        spec_find_cut(ms.drop_last(), voiced_end, fade_len, period)
    }
}

/// A found cut mark is a mark and satisfies both constraints.
pub proof fn lemma_find_cut_props(ms: Seq<usize>, voiced_end: int, fade_len: int, period: int)
    ensures
        match spec_find_cut(ms, voiced_end, fade_len, period) {
            Some(m) => exists|i: int| 0 <= i < ms.len() && ms[i] == m && m + period <= voiced_end
                && m >= fade_len,
            None => true,
        },
    decreases ms.len(),
{
    if ms.len() > 0 {
        if !(ms.last() + period <= voiced_end && ms.last() >= fade_len) {
            lemma_find_cut_props(ms.drop_last(), voiced_end, fade_len, period);
            if spec_find_cut(ms.drop_last(), voiced_end, fade_len, period) is Some {
                let m = spec_find_cut(ms.drop_last(), voiced_end, fade_len, period)->Some_0;
                let i = choose|i: int|
                    0 <= i < ms.drop_last().len() && ms.drop_last()[i] == m && m + period
                        <= voiced_end && m >= fade_len;
                assert(ms[i] == m);
            }
        } else {
            assert(ms[ms.len() - 1] == ms.last());
        }
    }
}

/// Last pitch mark in the first buffer fit to cut at: at least one period
/// of voiced signal after it and a full fade length before it.
pub fn find_cut_a(marks: &[usize], voiced_end: usize, fade_len: usize, period: usize) -> (r:
    Option<usize>)
    requires
        forall|i: int| 0 <= i < marks@.len() ==> #[trigger] marks@[i] <= crate::MAX_LEN,
        period <= crate::window_calc::LAG_CAP,
    ensures
        r == spec_find_cut(marks@, voiced_end as int, fade_len as int, period as int),
{
    let mut i = marks.len();
    proof {
        assert(marks@.take(i as int) =~= marks@);
    }
    while i > 0
        invariant_except_break
            i <= marks@.len(),
            forall|k: int| 0 <= k < marks@.len() ==> #[trigger] marks@[k] <= crate::MAX_LEN,
            period <= crate::window_calc::LAG_CAP,
            spec_find_cut(marks@, voiced_end as int, fade_len as int, period as int)
                == spec_find_cut(
                marks@.take(i as int),
                voiced_end as int,
                fade_len as int,
                period as int,
            ),
        ensures
            i <= marks@.len(),
            spec_find_cut(marks@, voiced_end as int, fade_len as int, period as int) == (if i > 0 {
                Some(marks@[i - 1])
            } else {
                Option::<usize>::None
            }),
        decreases i,
    {
        let m = marks[i - 1];
        proof {
            assert(marks@.take(i as int).last() == m);
            assert(marks@.take(i as int).drop_last() =~= marks@.take(i - 1 as int));
        }
        if m + period <= voiced_end && m >= fade_len {
            break;
        }
        i -= 1;
    }
    proof {
        if i == 0 {
            assert(marks@.take(0) =~= Seq::<usize>::empty());
        }
    }
    if i > 0 {
        Some(marks[i - 1])
    } else {
        None
    }
}

/// The first pitch mark usable as the start point in the second buffer: at
/// or after the voiced start, with a fade length and one period of room
/// before the buffer end.
pub open spec fn spec_find_start(
    ms: Seq<usize>,
    voiced_start: int,
    fade_len: int,
    period: int,
    buffer_len: int,
) -> Option<usize>
    decreases ms.len(),
{
    if ms.len() == 0 {
        None
    } else if ms[0] >= voiced_start && ms[0] + fade_len + period <= buffer_len {
        Some(ms[0])
    } else {
        spec_find_start(ms.drop_first(), voiced_start, fade_len, period, buffer_len)
    }
}

/// A found start mark is a mark and satisfies both constraints.
pub proof fn lemma_find_start_props(
    ms: Seq<usize>,
    voiced_start: int,
    fade_len: int,
    period: int,
    buffer_len: int,
)
    ensures
        match spec_find_start(ms, voiced_start, fade_len, period, buffer_len) {
            Some(m) => exists|i: int| 0 <= i < ms.len() && ms[i] == m && m >= voiced_start && m
                + fade_len + period <= buffer_len,
            None => true,
        },
    decreases ms.len(),
{
    if ms.len() > 0 {
        if !(ms[0] >= voiced_start && ms[0] + fade_len + period <= buffer_len) {
            lemma_find_start_props(ms.drop_first(), voiced_start, fade_len, period, buffer_len);
            if spec_find_start(ms.drop_first(), voiced_start, fade_len, period, buffer_len)
                is Some {
                let m = spec_find_start(
                    ms.drop_first(),
                    voiced_start,
                    fade_len,
                    period,
                    buffer_len,
                )->Some_0;
                let i = choose|i: int|
                    0 <= i < ms.drop_first().len() && ms.drop_first()[i] == m && m >= voiced_start
                        && m + fade_len + period <= buffer_len;
                assert(ms[i + 1] == m);
            }
        }
    }
}

/// First pitch mark in the second buffer fit to start at: inside the voiced
/// region, with room for the fade and one period before the buffer end.
pub fn find_start_b(
    marks: &[usize],
    voiced_start: usize,
    fade_len: usize,
    period: usize,
    buffer_len: usize,
) -> (r: Option<usize>)
    requires
        forall|i: int| 0 <= i < marks@.len() ==> #[trigger] marks@[i] <= crate::MAX_LEN,
        fade_len <= crate::MAX_LEN,
        period <= crate::window_calc::LAG_CAP,
    ensures
        r == spec_find_start(
            marks@,
            voiced_start as int,
            fade_len as int,
            period as int,
            buffer_len as int,
        ),
{
    let n = marks.len();
    let mut i: usize = 0;
    proof {
        assert(marks@.skip(0) =~= marks@);
    }
    while i < n
        invariant_except_break
            n == marks@.len(),
            i <= n,
            forall|k: int| 0 <= k < marks@.len() ==> #[trigger] marks@[k] <= crate::MAX_LEN,
            fade_len <= crate::MAX_LEN,
            period <= crate::window_calc::LAG_CAP,
            spec_find_start(
                marks@,
                voiced_start as int,
                fade_len as int,
                period as int,
                buffer_len as int,
            ) == spec_find_start(
                marks@.skip(i as int),
                voiced_start as int,
                fade_len as int,
                period as int,
                buffer_len as int,
            ),
        ensures
            i <= n,
            n == marks@.len(),
            spec_find_start(
                marks@,
                voiced_start as int,
                fade_len as int,
                period as int,
                buffer_len as int,
            ) == (if i < n {
                Some(marks@[i as int])
            } else {
                Option::<usize>::None
            }),
        decreases n - i,
    {
        let m = marks[i];
        proof {
            assert(marks@.skip(i as int)[0] == m);
            assert(marks@.skip(i as int).drop_first() =~= marks@.skip(i + 1 as int));
        }
        if m >= voiced_start && m + fade_len + period <= buffer_len {
            break;
        }
        i += 1;
    }
    proof {
        if i == n {
            assert(marks@.skip(n as int) =~= Seq::<usize>::empty());
        }
    }
    if i < n {
        Some(marks[i])
    } else {
        None
    }
}

/// The raw correlation of two equal-length spans, element by element.
pub open spec fn cross_corr(a: Seq<i64>, b: Seq<i64>, ai: int, bi: int, n: int) -> int
    decreases n,
{
    if n <= 0 {
        0
    } else {
        cross_corr(a, b, ai, bi, n - 1) + a[ai + n - 1] * b[bi + n - 1]
    }
}

/// A correlation over subranges equals the correlation over the parents at
/// the corresponding offsets.
pub proof fn lemma_cross_corr_subrange(
    a: Seq<i64>,
    b: Seq<i64>,
    ai: int,
    bi: int,
    n: int,
    m: int,
)
    requires
        0 <= ai,
        0 <= bi,
        0 <= m <= n,
        ai + n <= a.len(),
        bi + n <= b.len(),
    ensures
        cross_corr(a.subrange(ai, ai + n), b.subrange(bi, bi + n), 0, 0, m) == cross_corr(
            a,
            b,
            ai,
            bi,
            m,
        ),
    decreases m,
{
    if m > 0 {
        lemma_cross_corr_subrange(a, b, ai, bi, n, m - 1);
    }
}

/// Raw dot-product correlation of two equal-length sample spans.
pub fn corr(a: &[i64], b: &[i64]) -> (r: i64)
    requires
        a@.len() == b@.len(),
        a@.len() <= crate::window_calc::LAG_CAP,
        crate::buffer::samples_bounded(a@),
        crate::buffer::samples_bounded(b@),
    ensures
        r == cross_corr(a@, b@, 0, 0, a@.len() as int),
{
    let n = a.len();
    let mut sum: i64 = 0;
    let mut i: usize = 0;
    while i < n
        invariant
            n == a@.len(),
            a@.len() == b@.len(),
            n <= crate::window_calc::LAG_CAP,
            crate::buffer::samples_bounded(a@),
            crate::buffer::samples_bounded(b@),
            i <= n,
            sum == cross_corr(a@, b@, 0, 0, i as int),
            -(i * (crate::MAX_ABS * crate::MAX_ABS)) <= sum <= i * (crate::MAX_ABS
                * crate::MAX_ABS),
        decreases n - i,
    {
        let x = a[i];
        let y = b[i];
        proof {
            assert(-(crate::MAX_ABS * crate::MAX_ABS) <= x * y <= crate::MAX_ABS * crate::MAX_ABS)
                by (nonlinear_arith)
                requires
                    -crate::MAX_ABS <= x <= crate::MAX_ABS,
                    -crate::MAX_ABS <= y <= crate::MAX_ABS,
            ;
            assert(i * (crate::MAX_ABS * crate::MAX_ABS) + crate::MAX_ABS * crate::MAX_ABS == (i
                + 1) * (crate::MAX_ABS * crate::MAX_ABS)) by (nonlinear_arith);
            assert((i + 1) * (crate::MAX_ABS * crate::MAX_ABS) <= 0x1000000int * (crate::MAX_ABS
                * crate::MAX_ABS)) by (nonlinear_arith)
                requires
                    0 <= i + 1 <= 0x1000000,
            ;
        }
        sum = sum + x * y;
        i += 1;
    }
    sum
}

/// The transition weight for fade grain `k` of `len`
/// (see [`spec_transition`]).
pub fn transition_t(k: usize, len: usize) -> (r: i64)
    requires
        k < len,
        len <= crate::MAX_LEN,
    ensures
        r == spec_transition(k as int, len as int),
        0 <= r <= SCALE,
{
    proof {
        lemma_transition_bounds(k as int, len as int);
    }
    let mid = len / 2;
    if k == mid || (mid >= 1 && k == mid - 1) {
        SCALE / 2
    } else {
        proof {
            if len < 2 {
                assert(len == 1 && len as int / 2 == 0 && k == 0);
            }
            assert(0 <= (k as int) * SCALE <= (len - 1) * SCALE) by (nonlinear_arith)
                requires
                    0 <= k as int <= len - 1,
                    SCALE == 32768,
            ;
            assert((len - 1) * SCALE <= 0x4000_0000int * 32768) by (nonlinear_arith)
                requires
                    0 <= len - 1 <= 0x4000_0000,
                    SCALE == 32768,
            ;
        }
        let x: i64 = (k as i64) * SCALE / (len as i64 - 1);
        proof {
            vstd::arithmetic::div_mod::lemma_div_pos_is_pos((k as int) * SCALE, len - 1 as int);
            vstd::arithmetic::div_mod::lemma_div_is_ordered(
                (k as int) * SCALE,
                (len - 1) * SCALE,
                len - 1 as int,
            );
            vstd::arithmetic::div_mod::lemma_div_multiples_vanish(SCALE as int, len - 1 as int);
            assert((len - 1) * SCALE == (len - 1 as int) * (SCALE as int)) by (nonlinear_arith);
            assert(0 <= x * x <= SCALE * SCALE) by (nonlinear_arith)
                requires
                    0 <= x <= SCALE,
            ;
            vstd::arithmetic::div_mod::lemma_div_pos_is_pos(x * x, SCALE as int);
            vstd::arithmetic::div_mod::lemma_div_is_ordered(x * x, SCALE * SCALE, SCALE as int);
            vstd::arithmetic::div_mod::lemma_div_multiples_vanish(SCALE as int, SCALE as int);
        }
        let a: i64 = x * x / SCALE;
        let m: i64 = 3 * SCALE - 2 * x;
        proof {
            assert(0 <= a * m <= SCALE * (3 * SCALE)) by (nonlinear_arith)
                requires
                    0 <= a <= SCALE,
                    0 <= m <= 3 * SCALE,
            ;
            vstd::arithmetic::div_mod::lemma_div_pos_is_pos(a * m, SCALE as int);
        }
        let t: i64 = a * m / SCALE;
        t
    }
}

/// One alignment scan step: candidate `start_b - period + i - 1` replaces
/// the incumbent when it is in range and strictly raises the correlation
/// against the reference span ending at `cut_a`. The pair tracks the best
/// offset so far and whether any candidate scored yet.
pub open spec fn spec_align_iter(
    a: Seq<i64>,
    b: Seq<i64>,
    cut_a: int,
    start_b: int,
    n: int,
    period: int,
    i: int,
) -> (int, bool)
    decreases i,
{
    if i <= 0 {
        (start_b, false)
    } else {
        let prev = spec_align_iter(a, b, cut_a, start_b, n, period, i - 1);
        let cand = start_b - period + i - 1;
        if cand < 0 || cand + n > b.len() {
            prev
        } else if !prev.1 || cross_corr(a, b, cut_a - n, cand, n) > cross_corr(
            a,
            b,
            cut_a - n,
            prev.0,
            n,
        ) {
            (cand, true)
        } else {
            prev
        }
    }
}

/// Where the second buffer's splice point lands after phase alignment: the
/// offset within one period of `start_b` whose `n`-sample span correlates
/// best with the span ending at `cut_a`; `start_b` itself when too close to
/// an edge for the search.
pub open spec fn spec_align(a: Seq<i64>, b: Seq<i64>, cut_a: int, start_b: int, period: int) -> int {
    let n = if period >= 1 {
        period
    } else {
        1
    };
    if cut_a < n || start_b + n >= b.len() {
        start_b
    } else {
        spec_align_iter(a, b, cut_a, start_b, n, period, 2 * period + 1).0
    }
}

/// The alignment scan stays within one period of the requested start and,
/// once it scored scored a candidate, within the buffer.
pub proof fn lemma_align_iter_range(
    a: Seq<i64>,
    b: Seq<i64>,
    cut_a: int,
    start_b: int,
    n: int,
    period: int,
    i: int,
)
    requires
        period >= 0,
        n >= 0,
        i <= 2 * period + 1,
    ensures
        spec_align_iter(a, b, cut_a, start_b, n, period, i).1 ==> 0 <= spec_align_iter(
            a,
            b,
            cut_a,
            start_b,
            n,
            period,
            i,
        ).0 + n <= b.len() && start_b - period <= spec_align_iter(a, b, cut_a, start_b, n, period, i).0
            <= start_b + period,
        !spec_align_iter(a, b, cut_a, start_b, n, period, i).1 ==> spec_align_iter(
            a,
            b,
            cut_a,
            start_b,
            n,
            period,
            i,
        ).0 == start_b,
    decreases i,
{
    if i > 0 {
        lemma_align_iter_range(a, b, cut_a, start_b, n, period, i - 1);
    }
}

/// Refine the second buffer's start: search offsets within one period of
/// `start_b` for the span that best correlates with the span of the first
/// buffer ending at `cut_a`; fall back to `start_b` unchanged when either
/// span would cross a buffer edge.
pub fn align_b_start(a: &[i64], b: &[i64], cut_a: usize, start_b: usize, period: usize) -> (r:
    usize)
    requires
        crate::buffer::samples_bounded(a@),
        crate::buffer::samples_bounded(b@),
        cut_a <= a@.len(),
        a@.len() <= crate::MAX_LEN,
        b@.len() <= crate::MAX_LEN,
        start_b <= crate::MAX_LEN,
        period <= crate::window_calc::LAG_CAP,
    ensures
        r == spec_align(a@, b@, cut_a as int, start_b as int, period as int),
        start_b - period <= r <= start_b + period,
{
    let n = if period >= 1 {
        period
    } else {
        1
    };
    proof {
        lemma_align_iter_range(
            a@,
            b@,
            cut_a as int,
            start_b as int,
            n as int,
            period as int,
            2 * period + 1,
        );
    }

    if cut_a < n || start_b + n >= b.len() {
        return start_b;
    }

    let a_ref = &a[cut_a - n..cut_a];

    let mut best: usize = start_b;
    let mut scored: bool = false;
    let mut best_score: i64 = 0;
    let mut i: usize = 0;
    let steps = 2 * period + 1;
    while i < steps
        invariant
            crate::buffer::samples_bounded(a@),
            crate::buffer::samples_bounded(b@),
            n >= 1,
            n <= crate::window_calc::LAG_CAP,
            n <= cut_a <= a@.len(),
            a@.len() <= crate::MAX_LEN,
            b@.len() <= crate::MAX_LEN,
            start_b + n < b@.len(),
            start_b <= crate::MAX_LEN,
            period <= crate::window_calc::LAG_CAP,
            n == (if period >= 1 { period as int } else { 1 }),
            steps == 2 * period + 1,
            i <= steps,
            a_ref@ == a@.subrange(cut_a - n, cut_a as int),
            (best as int, scored) == spec_align_iter(
                a@,
                b@,
                cut_a as int,
                start_b as int,
                n as int,
                period as int,
                i as int,
            ),
            scored ==> best + n <= b@.len() && best_score == cross_corr(
                a@,
                b@,
                cut_a - n,
                best as int,
                n as int,
            ),
            !scored ==> best == start_b,
        decreases steps - i,
    {
        let cand_i: i64 = start_b as i64 - period as i64 + i as i64;
        if cand_i >= 0 && (cand_i as usize) + n <= b.len() {
            let cand = cand_i as usize;
            let b_ref = &b[cand..cand + n];
            let score = corr(a_ref, b_ref);
            proof {
                lemma_cross_corr_subrange(a@, b@, cut_a - n, cand as int, n as int, n as int);
                assert(a_ref@ == a@.subrange(cut_a - n, cut_a as int));
                assert(b_ref@ == b@.subrange(cand as int, cand + n as int));
            }
            if !scored || score > best_score {
                best = cand;
                best_score = score;
                scored = true;
            }
        }
        i += 1;
    }
    best
}

/// The grain sequence a phase-aligned crossfade renders: the first buffer's
/// grains before the fade, the two buffers' grains blended across the fade,
/// and the second buffer's grains after it.
pub open spec fn spec_blend_list(
    s1: Seq<i64>,
    s2: Seq<i64>,
    gs_a: Seq<crate::psola::Grain>,
    gs_b: Seq<crate::psola::Grain>,
    a_start_g: int,
    fade_g: int,
) -> Seq<Seq<i64>> {
    Seq::new(
        (a_start_g + gs_b.len()) as nat,
        |i: int|
            if i < a_start_g {
                s1.subrange(
                    gs_a[i].center - gs_a[i].period,
                    gs_a[i].center + gs_a[i].period,
                )
            } else if i < a_start_g + fade_g {
                crate::psola::spec_lerp_grain(
                    s1,
                    gs_a[i],
                    s2,
                    gs_b[i - a_start_g],
                    spec_transition(i - a_start_g, fade_g),
                )
            } else {
                s2.subrange(
                    gs_b[i - a_start_g].center - gs_b[i - a_start_g].period,
                    gs_b[i - a_start_g].center + gs_b[i - a_start_g].period,
                )
            },
    )
}

/// What a phase-aligned crossfade returns, given the already-located cut
/// point, start point and period: the start is alignment-refined, both
/// buffers' grains are re-extracted, the splice points are converted to
/// grain counts, and the pre-fade, blended and post-fade grains are
/// overlap-added along both buffers' concatenated pitch marks. Fails when
/// either buffer has too few grains for the requested fade.
pub open spec fn spec_phase_aligned(
    s1: Seq<i64>,
    s2: Seq<i64>,
    sample_rate: u32,
    cut_a: int,
    b_start: int,
    period: int,
    fade_len: int,
) -> Result<Seq<i64>, crate::samples::SynthError> {
    let b_start2 = spec_align(s1, s2, cut_a, b_start, period);
    let a_start = cut_a - fade_len;
    let ws_a = crate::window_calc::spec_analysis(s1, sample_rate);
    let ms_a = crate::psola::spec_marks(s1.len() as int, ws_a);
    let gs_a = crate::psola::spec_grains(s1.len() as int, ms_a, ws_a);
    let ws_b = crate::window_calc::spec_analysis(s2, sample_rate);
    let ms_b = crate::psola::spec_marks(s2.len() as int, ws_b);
    let gs_b = crate::psola::spec_grains(s2.len() as int, ms_b, ws_b);
    let fade_g = fade_len / (period + 1);
    let a_start_g = a_start / (period + 1);
    let b_start_g = b_start2 / (period + 1);
    if a_start_g + fade_g > gs_a.len() || b_start_g + fade_g > gs_b.len() {
        Err(crate::samples::SynthError::UnsatisfiableSplice)
    } else {
        let out_len = a_start + fade_len + (s2.len() - (b_start2 + fade_len));
        Ok(
            crate::psola::spec_overlap_add(
                spec_blend_list(s1, s2, gs_a, gs_b, a_start_g, fade_g),
                ms_a + ms_b,
                out_len,
            ),
        )
    }
}

/// Splice two buffers at the located cut and start points: refine the start
/// by correlation, convert the splice to grain counts, blend the fade
/// grains under the transition weights, and overlap-add the result along
/// both buffers' pitch marks (see [`spec_phase_aligned`]).
pub fn phase_aligned_crossfade(
    buf1: &AudioBuffer,
    buf2: &AudioBuffer,
    cut_a: usize,
    b_start: usize,
    period: usize,
    interp: GrainInterp,
) -> (r: Result<AudioBuffer, crate::samples::SynthError>)
    requires
        buf1.wf(),
        buf2.wf(),
        buf1.sample_rate == buf2.sample_rate,
        buf1.samples@.len() + buf2.samples@.len() <= crate::MAX_LEN,
        interp.fade_len <= cut_a,
        cut_a <= buf1.samples@.len(),
        b_start + interp.fade_len + period <= buf2.samples@.len(),
        period <= crate::window_calc::LAG_CAP,
    ensures
        match r {
            Ok(out) => out.sample_rate == buf1.sample_rate && Ok::<Seq<i64>, crate::samples::SynthError>(out.samples@)
                == spec_phase_aligned(
                buf1.samples@,
                buf2.samples@,
                buf1.sample_rate,
                cut_a as int,
                b_start as int,
                period as int,
                interp.fade_len as int,
            ) && out.samples@.len() == cut_a + buf2.samples@.len() - spec_align(
                buf1.samples@,
                buf2.samples@,
                cut_a as int,
                b_start as int,
                period as int,
            ) - interp.fade_len,
            Err(e) => Err::<Seq<i64>, crate::samples::SynthError>(e) == spec_phase_aligned(
                buf1.samples@,
                buf2.samples@,
                buf1.sample_rate,
                cut_a as int,
                b_start as int,
                period as int,
                interp.fade_len as int,
            ),
        },
{
    let ghost s1 = buf1.samples@;
    let ghost s2 = buf2.samples@;
    let fade_len = interp.fade_len;

    let b_start2 = align_b_start(
        buf1.samples.as_slice(),
        buf2.samples.as_slice(),
        cut_a,
        b_start,
        period,
    );

    let a_start = cut_a - fade_len;

    let windows_a = crate::window_calc::find_window(buf1);
    let marks_a = crate::psola::generate_pitch_marks(buf1, windows_a.as_slice());
    proof {
        if windows_a@.len() > 0 {
            crate::psola::lemma_marks_from_count(s1.len() as int, windows_a@, windows_a@[0].0 as int, 0);
        }
    }
    let grains_a = crate::psola::extract_grains(buf1, marks_a.as_slice(), windows_a.as_slice());

    let windows_b = crate::window_calc::find_window(buf2);
    let marks_b = crate::psola::generate_pitch_marks(buf2, windows_b.as_slice());
    proof {
        if windows_b@.len() > 0 {
            crate::psola::lemma_marks_from_count(s2.len() as int, windows_b@, windows_b@[0].0 as int, 0);
        }
    }
    let grains_b = crate::psola::extract_grains(buf2, marks_b.as_slice(), windows_b.as_slice());

    let fade_g = fade_len / (period + 1);
    let a_start_g = a_start / (period + 1);
    let b_start_g = b_start2 / (period + 1);

    if a_start_g + fade_g > grains_a.len() || b_start_g + fade_g > grains_b.len() {
        return Err(crate::samples::SynthError::UnsatisfiableSplice);
    }

    let ghost gs_a = grains_a@;
    let ghost gs_b = grains_b@;
    let ghost blend = spec_blend_list(s1, s2, gs_a, gs_b, a_start_g as int, fade_g as int);

    let mut out: Vec<Vec<i64>> = Vec::new();

    let mut i: usize = 0;
    while i < a_start_g
        invariant
            buf1.wf(),
            s1 == buf1.samples@,
            gs_a == grains_a@,
            crate::psola::grains_fit(gs_a, s1.len() as int),
            i <= a_start_g,
            a_start_g + fade_g <= gs_a.len(),
            blend == spec_blend_list(s1, s2, gs_a, gs_b, a_start_g as int, fade_g as int),
            blend.len() == a_start_g + gs_b.len(),
            out@.len() == i,
            forall|k: int| 0 <= k < i ==> (#[trigger] out@[k])@ == blend[k],
            forall|idx: int|
                0 <= idx < out@.len() ==> (#[trigger] out@[idx])@.len() != 1 && out@[idx]@.len()
                    <= crate::window::HANN_MAX && crate::buffer::samples_bounded(out@[idx]@),
        decreases a_start_g - i,
    {
        let g = grains_a[i];
        out.push(crate::psola::grain_samples(&buf1.samples, g));
        i += 1;
    }

    let mut k: usize = 0;
    while k < fade_g
        invariant
            buf1.wf(),
            buf2.wf(),
            s1 == buf1.samples@,
            s2 == buf2.samples@,
            gs_a == grains_a@,
            gs_b == grains_b@,
            crate::psola::grains_fit(gs_a, s1.len() as int),
            crate::psola::grains_fit(gs_b, s2.len() as int),
            k <= fade_g,
            fade_g <= crate::MAX_LEN,
            a_start_g + fade_g <= gs_a.len(),
            fade_g <= gs_b.len(),
            blend == spec_blend_list(s1, s2, gs_a, gs_b, a_start_g as int, fade_g as int),
            blend.len() == a_start_g + gs_b.len(),
            out@.len() == a_start_g + k,
            gs_a.len() <= crate::MAX_LEN,
            forall|j: int| 0 <= j < a_start_g + k ==> (#[trigger] out@[j])@ == blend[j],
            forall|idx: int|
                0 <= idx < out@.len() ==> (#[trigger] out@[idx])@.len() != 1 && out@[idx]@.len()
                    <= crate::window::HANN_MAX && crate::buffer::samples_bounded(out@[idx]@),
        decreases fade_g - k,
    {
        let t = transition_t(k, fade_g);
        let ga = grains_a[a_start_g + k];
        let gb = grains_b[k];
        out.push(crate::psola::lerp_grain(&buf1.samples, ga, &buf2.samples, gb, t));
        k += 1;
    }

    let mut j: usize = fade_g;
    while j < grains_b.len()
        invariant
            buf2.wf(),
            s2 == buf2.samples@,
            gs_b == grains_b@,
            crate::psola::grains_fit(gs_b, s2.len() as int),
            fade_g <= j <= gs_b.len(),
            blend == spec_blend_list(s1, s2, gs_a, gs_b, a_start_g as int, fade_g as int),
            blend.len() == a_start_g + gs_b.len(),
            out@.len() == a_start_g + j,
            forall|m: int| 0 <= m < a_start_g + j ==> (#[trigger] out@[m])@ == blend[m],
            forall|idx: int|
                0 <= idx < out@.len() ==> (#[trigger] out@[idx])@.len() != 1 && out@[idx]@.len()
                    <= crate::window::HANN_MAX && crate::buffer::samples_bounded(out@[idx]@),
        decreases gs_b.len() - j,
    {
        let g = grains_b[j];
        out.push(crate::psola::grain_samples(&buf2.samples, g));
        j += 1;
    }

    let mut marks_cat: Vec<usize> = Vec::new();
    let mut m: usize = 0;
    while m < marks_a.len()
        invariant
            m <= marks_a@.len(),
            marks_cat@ == marks_a@.take(m as int),
        decreases marks_a@.len() - m,
    {
        marks_cat.push(marks_a[m]);
        proof {
            assert(marks_cat@ =~= marks_a@.take(m + 1 as int));
        }
        m += 1;
    }
    let mut m2: usize = 0;
    while m2 < marks_b.len()
        invariant
            m2 <= marks_b@.len(),
            marks_cat@ == marks_a@.take(marks_a@.len() as int) + marks_b@.take(m2 as int),
        decreases marks_b@.len() - m2,
    {
        marks_cat.push(marks_b[m2]);
        proof {
            assert(marks_cat@ =~= marks_a@.take(marks_a@.len() as int) + marks_b@.take(
                m2 + 1 as int,
            ));
        }
        m2 += 1;
    }
    proof {
        assert(marks_cat@ =~= marks_a@ + marks_b@);
    }

    let out_len = a_start + fade_len + (buf2.samples.len() - (b_start2 + fade_len));
    proof {
        assert(out@.map_values(|v: Vec<i64>| v@) =~= blend);
    }
    let samples = crate::psola::overlap_add_grain(&out, marks_cat.as_slice(), out_len);
    Ok(AudioBuffer { sample_rate: buf1.sample_rate, samples })
}

/// What crossfading two buffers returns. Fade lengths of one or less are
/// refused outright; a first buffer with no usable periodicity, a buffer
/// with no voiced region, and splice constraints no pitch mark satisfies
/// each surface their own failure; otherwise the result is the
/// phase-aligned splice at the located points, with the fade widened to at
/// least five pitch periods.
pub open spec fn spec_crossfade(
    s1: Seq<i64>,
    s2: Seq<i64>,
    sample_rate: u32,
    interp: GrainInterp,
) -> Result<Seq<i64>, crate::samples::SynthError> {
    if interp.fade_len <= 1 {
        Err(crate::samples::SynthError::InvalidParameter)
    } else if crate::psola::spec_buffer_grains(s1, sample_rate).len() == 0 {
        Err(crate::samples::SynthError::NoPeriodicSignal)
    } else {
        let period = crate::psola::spec_avg_period(s1, sample_rate);
        let fade_len = if interp.fade_len >= 5 * period {
            interp.fade_len as int
        } else {
            5 * period
        };
        let ws_a = crate::window_calc::spec_analysis(s1, sample_rate);
        let ms_a = crate::psola::spec_marks(s1.len() as int, ws_a);
        if spec_voiced_region(s1, sample_rate) is None {
            Err(crate::samples::SynthError::NoVoicedRegion)
        } else {
            let voiced_end_a = spec_voiced_region(s1, sample_rate)->Some_0.1;
            if spec_find_cut(ms_a, voiced_end_a as int, fade_len, period) is None {
                Err(crate::samples::SynthError::UnsatisfiableSplice)
            } else {
                let cut_a = spec_find_cut(ms_a, voiced_end_a as int, fade_len, period)->Some_0;
                let ws_b = crate::window_calc::spec_analysis(s2, sample_rate);
                let ms_b = crate::psola::spec_marks(s2.len() as int, ws_b);
                if spec_voiced_region(s2, sample_rate) is None {
                    Err(crate::samples::SynthError::NoVoicedRegion)
                } else {
                    let voiced_start_b = spec_voiced_region(s2, sample_rate)->Some_0.0;
                    if spec_find_start(
                        ms_b,
                        voiced_start_b as int,
                        fade_len,
                        period,
                        s2.len() as int,
                    ) is None {
                        Err(crate::samples::SynthError::UnsatisfiableSplice)
                    } else {
                        let start_b = spec_find_start(
                            ms_b,
                            voiced_start_b as int,
                            fade_len,
                            period,
                            s2.len() as int,
                        )->Some_0;
                        spec_phase_aligned(
                            s1,
                            s2,
                            sample_rate,
                            cut_a as int,
                            start_b as int,
                            period,
                            fade_len,
                        )
                    }
                }
            }
        }
    }
}

/// Splice the end of the first buffer's voiced region onto the start of the
/// second buffer's, blending grains across a fade of at least five pitch
/// periods (see [`spec_crossfade`]).
pub fn crossfade(buf1: &AudioBuffer, buf2: &AudioBuffer, interp: &GrainInterp) -> (r: Result<
    AudioBuffer,
    crate::samples::SynthError,
>)
    requires
        buf1.wf(),
        buf2.wf(),
        buf1.sample_rate == buf2.sample_rate,
        buf1.samples@.len() + buf2.samples@.len() <= crate::MAX_LEN,
    ensures
        match r {
            Ok(out) => out.sample_rate == buf1.sample_rate && Ok::<Seq<i64>, crate::samples::SynthError>(out.samples@)
                == spec_crossfade(buf1.samples@, buf2.samples@, buf1.sample_rate, *interp),
            Err(e) => Err::<Seq<i64>, crate::samples::SynthError>(e) == spec_crossfade(
                buf1.samples@,
                buf2.samples@,
                buf1.sample_rate,
                *interp,
            ),
        },
{
    let ghost s1 = buf1.samples@;
    let ghost s2 = buf2.samples@;

    if interp.fade_len <= 1 {
        return Err(crate::samples::SynthError::InvalidParameter);
    }

    let windows_a = crate::window_calc::find_window(buf1);
    let marks_a = crate::psola::generate_pitch_marks(buf1, windows_a.as_slice());
    proof {
        if windows_a@.len() > 0 {
            crate::psola::lemma_marks_from_count(s1.len() as int, windows_a@, windows_a@[0].0 as int, 0);
        }
    }
    let grains_a = crate::psola::extract_grains(buf1, marks_a.as_slice(), windows_a.as_slice());
    if grains_a.len() == 0 {
        return Err(crate::samples::SynthError::NoPeriodicSignal);
    }

    let period = crate::psola::get_avg_period(buf1);

    let fade_len = if interp.fade_len >= 5 * period {
        interp.fade_len
    } else {
        5 * period
    };

    let voiced_a = find_voiced_region(buf1);
    let (_voiced_start_a, voiced_end_a) = match voiced_a {
        Some(p) => p,
        None => {
            return Err(crate::samples::SynthError::NoVoicedRegion);
        },
    };

    let cut_a = match find_cut_a(marks_a.as_slice(), voiced_end_a, fade_len, period) {
        Some(m) => m,
        None => {
            return Err(crate::samples::SynthError::UnsatisfiableSplice);
        },
    };
    proof {
        lemma_find_cut_props(marks_a@, voiced_end_a as int, fade_len as int, period as int);
        assert(fade_len <= cut_a && cut_a < s1.len());
    }

    let voiced_b = find_voiced_region(buf2);
    let (voiced_start_b, _voiced_end_b) = match voiced_b {
        Some(p) => p,
        None => {
            return Err(crate::samples::SynthError::NoVoicedRegion);
        },
    };

    let windows_b = crate::window_calc::find_window(buf2);
    let marks_b = crate::psola::generate_pitch_marks(buf2, windows_b.as_slice());
    let start_b = match find_start_b(
        marks_b.as_slice(),
        voiced_start_b,
        fade_len,
        period,
        buf2.samples.len(),
    ) {
        Some(m) => m,
        None => {
            return Err(crate::samples::SynthError::UnsatisfiableSplice);
        },
    };

    proof {
        lemma_find_start_props(
            marks_b@,
            voiced_start_b as int,
            fade_len as int,
            period as int,
            s2.len() as int,
        );
    }

    phase_aligned_crossfade(
        buf1,
        buf2,
        cut_a,
        start_b,
        period,
        GrainInterp { target_grain: interp.target_grain, fade_len },
    )
}

/// A detected voiced region starts on a frame whose energy meets the
/// 5%-of-peak RMS threshold, and lies inside the buffer.
pub proof fn lemma_voiced_region_energy(s: Seq<i64>, sample_rate: u32)
    requires
        spec_voiced_region(s, sample_rate) is Some,
        s.len() <= crate::MAX_LEN,
    ensures
        ({
            let p = spec_voiced_region(s, sample_rate)->Some_0;
            let win = spec_vwin(sample_rate);
            let hop = spec_vhop(sample_rate);
            let nf = spec_vframes(s.len() as int, win, hop);
            exists|k: int|
                0 <= k < nf && p.0 == k * hop && voiced_frame(s, win, hop, nf, k)
        }),
{
    let win = spec_vwin(sample_rate);
    let hop = spec_vhop(sample_rate);
    let nf = spec_vframes(s.len() as int, win, hop);
    assert forall|kk: int| 0 <= kk < nf implies energy_at(s, win, hop, kk) >= 0 by {
        lemma_self_dot_nonneg(s, kk * hop, win);
    }
    lemma_max_energy(s, win, hop, nf);
    lemma_first_voiced(s, win, hop, nf, 0);
    let f = first_voiced_from(s, win, hop, nf, 0);
    let mk = choose|k: int|
        0 <= k < nf && energy_at(s, win, hop, k) == max_energy_upto(s, win, hop, nf);
    assert(voiced_frame(s, win, hop, nf, mk));
    assert(f < nf);
    assert(f * hop + win <= s.len()) by {
        vstd::arithmetic::div_mod::lemma_fundamental_div_mod(s.len() - win, hop);
        vstd::arithmetic::div_mod::lemma_mod_bound(s.len() - win, hop);
        assert((nf - 1) * hop <= hop * ((s.len() - win) / hop)) by (nonlinear_arith)
            requires
                nf - 1 == (s.len() - win) / hop,
                hop >= 1,
        ;
        assert(f * hop <= (nf - 1) * hop) by (nonlinear_arith)
            requires
                0 <= f <= nf - 1,
                hop >= 1,
        ;
    }
    assert(0 <= f * hop <= crate::MAX_LEN) by (nonlinear_arith)
        requires
            0 <= f,
            hop >= 1,
            f * hop + win <= s.len(),
            win >= 1,
            s.len() <= crate::MAX_LEN,
    ;
    assert(0 <= f < nf && spec_voiced_region(s, sample_rate)->Some_0.0 == f * hop && voiced_frame(
        s,
        win,
        hop,
        nf,
        f,
    ));
}

/// Whether two buffers admit the requested splice: the fade is not
/// degenerate, the first buffer has grains, both have voiced regions, a
/// pitch mark of each satisfies its splice constraint, and both buffers
/// hold enough grains for the fade region.
pub open spec fn crossfade_viable(
    s1: Seq<i64>,
    s2: Seq<i64>,
    sample_rate: u32,
    interp: GrainInterp,
) -> bool {
    let period = crate::psola::spec_avg_period(s1, sample_rate);
    let fade_len = if interp.fade_len >= 5 * period {
        interp.fade_len as int
    } else {
        5 * period
    };
    let ws_a = crate::window_calc::spec_analysis(s1, sample_rate);
    let ms_a = crate::psola::spec_marks(s1.len() as int, ws_a);
    let gs_a = crate::psola::spec_grains(s1.len() as int, ms_a, ws_a);
    let ws_b = crate::window_calc::spec_analysis(s2, sample_rate);
    let ms_b = crate::psola::spec_marks(s2.len() as int, ws_b);
    let gs_b = crate::psola::spec_grains(s2.len() as int, ms_b, ws_b);
    &&& interp.fade_len > 1
    &&& gs_a.len() > 0
    &&& spec_voiced_region(s1, sample_rate) is Some
    &&& spec_voiced_region(s2, sample_rate) is Some
    &&& ({
        let voiced_end_a = spec_voiced_region(s1, sample_rate)->Some_0.1;
        let voiced_start_b = spec_voiced_region(s2, sample_rate)->Some_0.0;
        &&& spec_find_cut(ms_a, voiced_end_a as int, fade_len, period) is Some
        &&& spec_find_start(ms_b, voiced_start_b as int, fade_len, period, s2.len() as int)
            is Some
        &&& ({
            let cut_a = spec_find_cut(ms_a, voiced_end_a as int, fade_len, period)->Some_0;
            let start_b = spec_find_start(
                ms_b,
                voiced_start_b as int,
                fade_len,
                period,
                s2.len() as int,
            )->Some_0;
            let b_start2 = spec_align(s1, s2, cut_a as int, start_b as int, period);
            &&& (cut_a - fade_len) / (period + 1) + fade_len / (period + 1) <= gs_a.len()
            &&& b_start2 / (period + 1) + fade_len / (period + 1) <= gs_b.len()
        })
    })
}

/// Two buffers that admit the requested splice crossfade successfully, and
/// the output's length is the first buffer's cut point plus what remains of
/// the second buffer past its aligned start and the fade.
pub proof fn lemma_crossfade_length(
    s1: Seq<i64>,
    s2: Seq<i64>,
    sample_rate: u32,
    interp: GrainInterp,
)
    requires
        crossfade_viable(s1, s2, sample_rate, interp),
    ensures
        spec_crossfade(s1, s2, sample_rate, interp) is Ok,
        ({
            let period = crate::psola::spec_avg_period(s1, sample_rate);
            let fade_len = if interp.fade_len >= 5 * period {
                interp.fade_len as int
            } else {
                5 * period
            };
            let ws_a = crate::window_calc::spec_analysis(s1, sample_rate);
            let ms_a = crate::psola::spec_marks(s1.len() as int, ws_a);
            let voiced_end_a = spec_voiced_region(s1, sample_rate)->Some_0.1;
            let cut_a = spec_find_cut(ms_a, voiced_end_a as int, fade_len, period)->Some_0;
            let ws_b = crate::window_calc::spec_analysis(s2, sample_rate);
            let ms_b = crate::psola::spec_marks(s2.len() as int, ws_b);
            let voiced_start_b = spec_voiced_region(s2, sample_rate)->Some_0.0;
            let start_b = spec_find_start(
                ms_b,
                voiced_start_b as int,
                fade_len,
                period,
                s2.len() as int,
            )->Some_0;
            let b_start2 = spec_align(s1, s2, cut_a as int, start_b as int, period);
            spec_crossfade(s1, s2, sample_rate, interp)->Ok_0.len() == (cut_a - fade_len)
                + fade_len + (s2.len() - (b_start2 + fade_len))
        }),
{
    let period = crate::psola::spec_avg_period(s1, sample_rate);
    let fade_len = if interp.fade_len >= 5 * period {
        interp.fade_len as int
    } else {
        5 * period
    };
    let ws_a = crate::window_calc::spec_analysis(s1, sample_rate);
    let ms_a = crate::psola::spec_marks(s1.len() as int, ws_a);
    let voiced_end_a = spec_voiced_region(s1, sample_rate)->Some_0.1;
    let cut_a = spec_find_cut(ms_a, voiced_end_a as int, fade_len, period)->Some_0;
    let ws_b = crate::window_calc::spec_analysis(s2, sample_rate);
    let ms_b = crate::psola::spec_marks(s2.len() as int, ws_b);
    let voiced_start_b = spec_voiced_region(s2, sample_rate)->Some_0.0;
    let start_b = spec_find_start(
        ms_b,
        voiced_start_b as int,
        fade_len,
        period,
        s2.len() as int,
    )->Some_0;
    let b_start2 = spec_align(s1, s2, cut_a as int, start_b as int, period);
    crate::psola::lemma_sum_periods_nonneg(crate::psola::spec_buffer_grains(s1, sample_rate));
    vstd::arithmetic::div_mod::lemma_div_pos_is_pos(
        crate::psola::sum_periods(crate::psola::spec_buffer_grains(s1, sample_rate)),
        crate::psola::spec_buffer_grains(s1, sample_rate).len() as int,
    );
    lemma_find_cut_props(ms_a, voiced_end_a as int, fade_len, period);
    lemma_find_start_props(ms_b, voiced_start_b as int, fade_len, period, s2.len() as int);
    let n = if period >= 1 {
        period
    } else {
        1
    };
    if !(cut_a < n || start_b + n >= s2.len()) {
        lemma_align_iter_range(
            s1,
            s2,
            cut_a as int,
            start_b as int,
            n,
            period,
            2 * period + 1,
        );
    }
    let out_len = (cut_a - fade_len) + fade_len + (s2.len() - (b_start2 + fade_len));
    assert(out_len >= 0);
}

} // verus!
