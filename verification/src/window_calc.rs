//! Calculations for finding a good analysis window for PSOLA.

use vstd::prelude::*;

use crate::buffer::{samples_bounded, AudioBuffer};
use crate::MAX_ABS;

verus! {

/// Samples per analysis frame.
pub const ANALYSIS_WINDOW: usize = 1024;

/// Hop between successive frame starts (a quarter frame).
pub const HOP: usize = 256;

/// Largest pitch lag any analysis can report: `max(sample_rate / 300, 1023)`
/// never reaches this, since sample rates fit `u32`.
pub const LAG_CAP: usize = 0x1000000;

/// Sum of `n` products `s[a+i] * s[b+i]`: an unnormalized correlation.
pub open spec fn dot_range(s: Seq<i64>, a: int, b: int, n: int) -> int
    decreases n,
{
    if n <= 0 {
        0
    } else {
        dot_range(s, a, b, n - 1) + s[a + n - 1] * s[b + n - 1]
    }
}

/// Unnormalized autocorrelation of a 1024-sample frame at `lag`,
/// summed over the `1024 - lag` overlapping positions.
pub open spec fn frame_score(frame: Seq<i64>, lag: int) -> int {
    dot_range(frame, 0, lag, ANALYSIS_WINDOW - lag)
}

/// Whether lag `c` beats lag `b` on average autocorrelation
/// `score / (1024 - lag)`, compared exactly by cross-multiplication.
pub open spec fn lag_beats(frame: Seq<i64>, c: int, b: int) -> bool {
    frame_score(frame, c) * (ANALYSIS_WINDOW - b) > frame_score(frame, b) * (ANALYSIS_WINDOW - c)
}

/// Best lag in `[min_lag, l]`, scanning upward and replacing the incumbent
/// only on a strictly better average score.
pub open spec fn best_lag_upto(frame: Seq<i64>, min_lag: int, l: int) -> int
    decreases l - min_lag,
{
    if l <= min_lag {
        min_lag
    } else {
        let prev = best_lag_upto(frame, min_lag, l - 1);
        if lag_beats(frame, l, prev) {
            l
        } else {
            prev
        }
    }
}

/// The lag in `[sample_rate/300, min(sample_rate/80, 1023)]` with the best
/// average autocorrelation; the lower bound itself if the range is empty.
pub open spec fn spec_best_lag(frame: Seq<i64>, sample_rate: u32) -> int {
    let mn = sample_rate as int / 300;
    let mx = if sample_rate as int / 80 < 1023 {
        sample_rate as int / 80
    } else {
        1023
    };
    if mn > mx {
        mn
    } else {
        best_lag_upto(frame, mn, mx)
    }
}

/// How many analysis frames fit a buffer of `len` samples at hop 256.
pub open spec fn spec_window_count(len: int) -> int {
    if len < ANALYSIS_WINDOW {
        0
    } else {
        (len - ANALYSIS_WINDOW) / HOP as int + 1
    }
}

/// The analysis frame starting at `start` within `s`.
pub open spec fn frame_at(s: Seq<i64>, start: int) -> Seq<i64> {
    s.subrange(start, start + ANALYSIS_WINDOW)
}

/// The full analysis result: one `(start, lag)` estimate per frame.
pub open spec fn is_analysis_of(ws: Seq<(usize, usize)>, s: Seq<i64>, sample_rate: u32) -> bool {
    &&& ws.len() == spec_window_count(s.len() as int)
    &&& forall|k: int|
        0 <= k < ws.len() ==> (#[trigger] ws[k]).0 == k * HOP && ws[k].1 == spec_best_lag(
            frame_at(s, k * HOP as int),
            sample_rate,
        )
}

/// Estimates within the analysis lag cap, as every analysis result is.
pub open spec fn lags_capped(ws: Seq<(usize, usize)>) -> bool {
    forall|k: int| 0 <= k < ws.len() ==> (#[trigger] ws[k]).1 < LAG_CAP
}

/// The analysis result as a function of the buffer: what
/// [`find_window`] returns.
pub open spec fn spec_analysis(s: Seq<i64>, sample_rate: u32) -> Seq<(usize, usize)> {
    Seq::new(
        spec_window_count(s.len() as int) as nat,
        |k: int| ((k * HOP) as usize, spec_best_lag(frame_at(s, k * HOP as int), sample_rate) as usize),
    )
}

/// A correlation sum of `n` bounded samples stays within `n` squared units.
pub proof fn lemma_dot_range_bound(s: Seq<i64>, a: int, b: int, n: int)
    requires
        samples_bounded(s),
        0 <= a,
        0 <= b,
        n >= 0,
        a + n <= s.len(),
        b + n <= s.len(),
    ensures
        -(n * (MAX_ABS * MAX_ABS)) <= dot_range(s, a, b, n) <= n * (MAX_ABS * MAX_ABS),
    decreases n,
{
    if n > 0 {
        lemma_dot_range_bound(s, a, b, n - 1);
        let x = s[a + n - 1] as int;
        let y = s[b + n - 1] as int;
        assert(-(MAX_ABS * MAX_ABS) <= x * y <= MAX_ABS * MAX_ABS) by (nonlinear_arith)
            requires
                -MAX_ABS <= x <= MAX_ABS,
                -MAX_ABS <= y <= MAX_ABS,
        ;
        assert((n - 1) * (MAX_ABS * MAX_ABS) + MAX_ABS * MAX_ABS == n * (MAX_ABS * MAX_ABS))
            by (nonlinear_arith);
    }
}

/// The best lag over a scanned range lies within that range.
pub proof fn lemma_best_lag_range(frame: Seq<i64>, min_lag: int, l: int)
    requires
        min_lag <= l,
    ensures
        min_lag <= best_lag_upto(frame, min_lag, l) <= l,
    decreases l - min_lag,
{
    if l > min_lag {
        lemma_best_lag_range(frame, min_lag, l - 1);
    }
}

/// The unnormalized autocorrelation of a 1024-sample frame at `lag`.
fn autocorr_sum(frame: &[i64], lag: usize) -> (r: i64)
    requires
        frame@.len() == ANALYSIS_WINDOW,
        samples_bounded(frame@),
        lag < ANALYSIS_WINDOW,
    ensures
        r == frame_score(frame@, lag as int),
        -(1024 * (MAX_ABS * MAX_ABS)) <= r <= 1024 * (MAX_ABS * MAX_ABS),
{
    let n = ANALYSIS_WINDOW - lag;
    let mut sum: i64 = 0;
    let mut i: usize = 0;
    while i < n
        invariant
            frame@.len() == ANALYSIS_WINDOW,
            samples_bounded(frame@),
            lag < ANALYSIS_WINDOW,
            n == ANALYSIS_WINDOW - lag,
            i <= n,
            sum == dot_range(frame@, 0, lag as int, i as int),
            -(i * (MAX_ABS * MAX_ABS)) <= sum <= i * (MAX_ABS * MAX_ABS),
        decreases n - i,
    {
        let x = frame[i];
        let y = frame[i + lag];
        proof {
            assert(-(MAX_ABS * MAX_ABS) <= x * y <= MAX_ABS * MAX_ABS) by (nonlinear_arith)
                requires
                    -MAX_ABS <= x <= MAX_ABS,
                    -MAX_ABS <= y <= MAX_ABS,
            ;
            assert(i * (MAX_ABS * MAX_ABS) + MAX_ABS * MAX_ABS == (i + 1) * (MAX_ABS * MAX_ABS))
                by (nonlinear_arith);
        }
        sum = sum + x * y;
        i += 1;
    }
    proof {
        lemma_dot_range_bound(frame@, 0, lag as int, n as int);
        assert(n * (MAX_ABS * MAX_ABS) <= 1024 * (MAX_ABS * MAX_ABS)) by (nonlinear_arith)
            requires
                0 <= n <= 1024,
        ;
    }
    sum
}

/// The lag in `[sample_rate/300, min(sample_rate/80, 1023)]` whose average
/// unnormalized autocorrelation over the frame is largest; ties keep the
/// lower lag, and an empty range yields the lower bound itself.
pub fn find_window_single(frame: &[i64], sample_rate: u32) -> (r: usize)
    requires
        frame@.len() == ANALYSIS_WINDOW,
        samples_bounded(frame@),
        sample_rate >= 1,
    ensures
        r == spec_best_lag(frame@, sample_rate),
        r < LAG_CAP,
{
    let min_lag = (sample_rate / 300) as usize;
    let max_lag_raw = (sample_rate / 80) as usize;
    let max_lag = if max_lag_raw < 1023 {
        max_lag_raw
    } else {
        1023
    };
    if min_lag > max_lag {
        return min_lag;
    }

    let mut best_lag = min_lag;
    let mut best_score = autocorr_sum(frame, min_lag);
    let mut lag = min_lag + 1;
    while lag <= max_lag
        invariant
            frame@.len() == ANALYSIS_WINDOW,
            samples_bounded(frame@),
            min_lag < lag <= max_lag + 1,
            max_lag <= 1023,
            best_lag == best_lag_upto(frame@, min_lag as int, lag - 1),
            min_lag <= best_lag <= max_lag,
            best_score == frame_score(frame@, best_lag as int),
            -(1024 * (MAX_ABS * MAX_ABS)) <= best_score <= 1024 * (MAX_ABS * MAX_ABS),
        decreases max_lag + 1 - lag,
    {
        let score = autocorr_sum(frame, lag);
        proof {
            lemma_best_lag_range(frame@, min_lag as int, lag - 1);
            let big = 1024 * (MAX_ABS * MAX_ABS);
            assert(-(1024 * big) <= score * (1024 - best_lag as int) <= 1024 * big
                && -(1024 * big) <= best_score * (1024 - lag as int) <= 1024 * big)
                by (nonlinear_arith)
                requires
                    -big <= score <= big,
                    -big <= best_score <= big,
                    0 <= best_lag <= 1024,
                    0 <= lag <= 1024,
            ;
        }
        if score * (1024 - best_lag as i64) > best_score * (1024 - lag as i64) {
            best_lag = lag;
            best_score = score;
        }
        lag += 1;
    }
    best_lag
}

/// Local pitch-period estimates across the whole buffer: for every frame
/// start `s` with `s + 1024 <= len`, at hop 256, the pair
/// `(s, best lag over that frame)`, in increasing start order.
pub fn find_window(buffer: &AudioBuffer) -> (r: Vec<(usize, usize)>)
    requires
        buffer.wf(),
    ensures
        is_analysis_of(r@, buffer.samples@, buffer.sample_rate),
        lags_capped(r@),
        r@ == spec_analysis(buffer.samples@, buffer.sample_rate),
        r@.len() <= buffer.samples@.len(),
{
    let mut results: Vec<(usize, usize)> = Vec::new();
    let mut start: usize = 0;
    let len = buffer.samples.len();
    let mut k: usize = 0;
    while start + ANALYSIS_WINDOW <= len
        invariant
            buffer.wf(),
            len == buffer.samples@.len(),
            start == k * HOP,
            k == results@.len(),
            spec_window_count(len as int) >= 0,
            k <= spec_window_count(len as int),
            start + ANALYSIS_WINDOW <= len ==> k < spec_window_count(len as int),
            forall|j: int|
                0 <= j < results@.len() ==> (#[trigger] results@[j]).0 == j * HOP
                    && results@[j].1 == spec_best_lag(
                    frame_at(buffer.samples@, j * HOP as int),
                    buffer.sample_rate,
                ) && results@[j].1 < LAG_CAP,
        decreases len - start,
    {
        let frame = &buffer.samples.as_slice()[start..start + ANALYSIS_WINDOW];
        let lag = find_window_single(frame, buffer.sample_rate);
        results.push((start, lag));
        proof {
            assert(frame@ =~= frame_at(buffer.samples@, k * HOP as int));
            assert((k + 1) <= spec_window_count(len as int)) by {
                assert(k * HOP + ANALYSIS_WINDOW <= len);
                assert(k <= (len - ANALYSIS_WINDOW) / HOP as int) by {
                    vstd::arithmetic::div_mod::lemma_div_multiples_vanish(k as int, HOP as int);
                    vstd::arithmetic::div_mod::lemma_div_is_ordered(
                        (HOP as int) * (k as int),
                        len - ANALYSIS_WINDOW,
                        HOP as int,
                    );
                    assert((HOP as int) * (k as int) == k * HOP) by (nonlinear_arith);
                }
            }
        }
        start += HOP;
        k += 1;
    }
    proof {
        if len >= ANALYSIS_WINDOW {
            assert(k == spec_window_count(len as int)) by {
                if k < spec_window_count(len as int) {
                    let q = (len - ANALYSIS_WINDOW) / HOP as int;
                    vstd::arithmetic::div_mod::lemma_fundamental_div_mod(
                        len - ANALYSIS_WINDOW,
                        HOP as int,
                    );
                    vstd::arithmetic::div_mod::lemma_mod_bound(len - ANALYSIS_WINDOW, HOP as int);
                    assert(k * HOP <= q * HOP) by (nonlinear_arith)
                        requires
                            k <= q,
                            HOP > 0,
                    ;
                    assert(q * HOP <= len - ANALYSIS_WINDOW) by (nonlinear_arith)
                        requires
                            (HOP as int) * q <= len - ANALYSIS_WINDOW,
                    ;
                }
            }
        }
        assert(results@ =~= spec_analysis(buffer.samples@, buffer.sample_rate));
        if len >= ANALYSIS_WINDOW {
            vstd::arithmetic::div_mod::lemma_div_nonincreasing(
                len - ANALYSIS_WINDOW,
                HOP as int,
            );
        }
    }
    results
}

/// Analysis is a function of the buffer alone: two results that both
/// satisfy its defining relation for the same buffer are identical.
pub proof fn lemma_analysis_deterministic(
    w1: Seq<(usize, usize)>,
    w2: Seq<(usize, usize)>,
    s: Seq<i64>,
    sample_rate: u32,
)
    requires
        is_analysis_of(w1, s, sample_rate),
        is_analysis_of(w2, s, sample_rate),
    ensures
        w1 == w2,
{
    assert forall|k: int| 0 <= k < w1.len() implies w1[k] == w2[k] by {
        assert(w1[k].0 == k * HOP && w2[k].0 == k * HOP);
    }
    assert(w1 =~= w2);
}

} // verus!
