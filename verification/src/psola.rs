//! PSOLA adjustment: pitch marks, grains, and overlap-add resynthesis.

use vstd::prelude::*;

use crate::buffer::AudioBuffer;
use crate::window::hann;
use crate::window_calc::{find_window, lags_capped, LAG_CAP};
use crate::{MAX_ABS, SCALE};

verus! {

/// `x`, clamped below at zero. Used as a termination measure for walks
/// whose step may overshoot the end.
pub open spec fn clamp0(x: int) -> int {
    if x >= 0 {
        x
    } else {
        0
    }
}

/// The window index the mark walk has advanced to at position `pos`:
/// keep stepping while the next window starts at or before `pos`.
pub open spec fn adv_idx(ws: Seq<(usize, usize)>, widx: int, pos: int) -> int
    decreases ws.len() - widx,
{
    if widx + 1 < ws.len() && ws[widx + 1].0 <= pos {
        adv_idx(ws, widx + 1, pos)
    } else {
        widx
    }
}

/// The advanced window index stays within the window list.
pub proof fn lemma_adv_idx_range(ws: Seq<(usize, usize)>, widx: int, pos: int)
    requires
        0 <= widx < ws.len(),
    ensures
        widx <= adv_idx(ws, widx, pos) < ws.len(),
    decreases ws.len() - widx,
{
    if widx + 1 < ws.len() && ws[widx + 1].0 <= pos {
        lemma_adv_idx_range(ws, widx + 1, pos);
    }
}

/// The pitch marks recorded from position `pos` onward: record `pos`,
/// advance by the period of the nearest-preceding window, and stop at the
/// buffer end or on a zero period.
pub open spec fn marks_from(len: int, ws: Seq<(usize, usize)>, pos: int, widx: int) -> Seq<usize>
    decreases clamp0(len - pos),
{
    if pos < 0 || pos >= len {
        Seq::empty()
    } else {
        let w = adv_idx(ws, widx, pos);
        let lag = if 0 <= w < ws.len() {
            ws[w].1 as int
        } else {
            0
        };
        if lag == 0 {
            seq![pos as usize]
        } else {
            seq![pos as usize] + marks_from(len, ws, pos + lag, w)
        }
    }
}

/// All pitch marks of a buffer of length `len` under the window estimates
/// `ws`: the walk starts at the first window's offset.
pub open spec fn spec_marks(len: int, ws: Seq<(usize, usize)>) -> Seq<usize> {
    if ws.len() == 0 {
        Seq::empty()
    } else {
        marks_from(len, ws, ws[0].0 as int, 0)
    }
}

/// Marks recorded from `pos` onward start at `pos`, stay inside the buffer,
/// and increase strictly.
pub proof fn lemma_marks_from_increasing(len: int, ws: Seq<(usize, usize)>, pos: int, widx: int)
    requires
        len <= crate::MAX_LEN,
    ensures
        forall|i: int|
            0 <= i < marks_from(len, ws, pos, widx).len() ==> pos <= #[trigger] marks_from(
                len,
                ws,
                pos,
                widx,
            )[i] < len,
        forall|i: int, j: int|
            0 <= i < j < marks_from(len, ws, pos, widx).len() ==> marks_from(len, ws, pos, widx)[i]
                < marks_from(len, ws, pos, widx)[j],
    decreases clamp0(len - pos),
{
    if 0 <= pos < len {
        let w = adv_idx(ws, widx, pos);
        let lag = if 0 <= w < ws.len() {
            ws[w].1 as int
        } else {
            0
        };
        if lag != 0 {
            lemma_marks_from_increasing(len, ws, pos + lag, w);
            let s = marks_from(len, ws, pos, widx);
            let rest = marks_from(len, ws, pos + lag, w);
            assert(s == seq![pos as usize] + rest);
            assert(forall|i: int| 1 <= i < s.len() ==> s[i] == rest[i - 1]);
            assert(s[0] == pos as usize);
        }
    }
}

/// Strictly increasing marks below `len` number at most `len`.
pub proof fn lemma_marks_from_count(len: int, ws: Seq<(usize, usize)>, pos: int, widx: int)
    requires
        pos >= 0,
    ensures
        marks_from(len, ws, pos, widx).len() <= clamp0(len - pos),
    decreases clamp0(len - pos),
{
    if 0 <= pos < len {
        let w = adv_idx(ws, widx, pos);
        let lag = if 0 <= w < ws.len() {
            ws[w].1 as int
        } else {
            0
        };
        if lag != 0 {
            lemma_marks_from_count(len, ws, pos + lag, w);
        }
    }
}

/// Walk the buffer forward from the first window's offset, recording a pitch
/// mark at each step and advancing by the period of the nearest-preceding
/// window estimate; a zero period stops the walk after its mark.
pub fn generate_pitch_marks(buffer: &AudioBuffer, windows: &[(usize, usize)]) -> (r: Vec<usize>)
    requires
        buffer.wf(),
        lags_capped(windows@),
        windows@.len() <= crate::MAX_LEN,
    ensures
        r@ == spec_marks(buffer.samples@.len() as int, windows@),
        forall|i: int, j: int| 0 <= i < j < r@.len() ==> r@[i] < r@[j],
        forall|i: int| 0 <= i < r@.len() ==> #[trigger] r@[i] < buffer.samples@.len(),
{
    let ghost len = buffer.samples@.len() as int;
    let ghost total = spec_marks(len, windows@);
    proof {
        if windows@.len() > 0 {
            lemma_marks_from_increasing(len, windows@, windows@[0].0 as int, 0);
        }
    }
    let mut marks: Vec<usize> = Vec::new();
    if windows.len() == 0 {
        return marks;
    }

    let samples_len = buffer.samples.len();

    let mut pos: usize = windows[0].0;
    let mut window_idx: usize = 0;
    let mut current_lag: usize = windows[0].1;

    proof {
        assert(marks@ + marks_from(len, windows@, pos as int, 0) =~= total);
    }
    while pos < samples_len
        invariant_except_break
            buffer.wf(),
            lags_capped(windows@),
            windows@.len() > 0,
            windows@.len() <= crate::MAX_LEN,
            len == buffer.samples@.len() as int,
            samples_len == buffer.samples@.len(),
            window_idx < windows@.len(),
            current_lag == windows@[window_idx as int].1,
            total == marks@ + marks_from(len, windows@, pos as int, window_idx as int),
        ensures
            total == marks@ || (total == marks@ + marks_from(
                len,
                windows@,
                pos as int,
                window_idx as int,
            ) && pos as int >= len),
        decreases clamp0(samples_len as int - pos as int),
    {
        let ghost pre_pos = pos as int;
        let ghost pre_marks = marks@;
        let ghost w0 = window_idx as int;
        marks.push(pos);

        while window_idx + 1 < windows.len() && windows[window_idx + 1].0 <= pos
            invariant
                lags_capped(windows@),
                window_idx < windows@.len(),
                windows@.len() <= crate::MAX_LEN,
                pos as int == pre_pos,
                current_lag == windows@[window_idx as int].1,
                adv_idx(windows@, window_idx as int, pre_pos) == adv_idx(windows@, w0, pre_pos),
            decreases windows@.len() - window_idx,
        {
            window_idx += 1;
            current_lag = windows[window_idx].1;
        }

        proof {
            lemma_adv_idx_range(windows@, window_idx as int, pre_pos);
            assert(window_idx as int == adv_idx(windows@, w0, pre_pos));
        }
        pos += current_lag;

        if current_lag == 0 {
            proof {
                assert(marks_from(len, windows@, pre_pos, w0) =~= seq![pre_pos as usize]);
                assert(total =~= marks@);
            }
            break;
        }
        proof {
            assert(marks_from(len, windows@, pre_pos, w0) == seq![pre_pos as usize] + marks_from(
                len,
                windows@,
                pre_pos + current_lag as int,
                window_idx as int,
            ));
            assert(total =~= marks@ + marks_from(
                len,
                windows@,
                pos as int,
                window_idx as int,
            ));
        }
    }
    proof {
        if total != marks@ {
            assert(marks_from(len, windows@, pos as int, window_idx as int)
                =~= Seq::<usize>::empty());
            assert(marks@ + Seq::<usize>::empty() =~= marks@);
        }
        assert(marks@ == total);
    }
    marks
}

/// A nondecreasing sequence of mark positions.
pub open spec fn marks_sorted(ms: Seq<usize>) -> bool {
    forall|i: int, j: int| 0 <= i <= j < ms.len() ==> ms[i] <= ms[j]
}

/// `r` splits sorted marks at `bound`: everything before `r` is at most
/// `bound`, everything from `r` on is above it.
pub open spec fn is_upper_bound(ms: Seq<usize>, bound: usize, r: int) -> bool {
    &&& 0 <= r <= ms.len()
    &&& forall|i: int| 0 <= i < r ==> #[trigger] ms[i] <= bound
    &&& forall|i: int| r <= i < ms.len() ==> #[trigger] ms[i] > bound
}

/// Return index of first element > bound.
pub fn upper_bound(marks: &[usize], bound: usize) -> (r: usize)
    requires
        marks_sorted(marks@),
        marks@.len() <= crate::MAX_LEN,
    ensures
        is_upper_bound(marks@, bound, r as int),
{
    let mut lo: usize = 0;
    let mut hi: usize = marks.len();
    while lo < hi
        invariant
            0 <= lo <= hi <= marks@.len(),
            marks@.len() <= crate::MAX_LEN,
            marks_sorted(marks@),
            forall|i: int| 0 <= i < lo ==> #[trigger] marks@[i] <= bound,
            forall|i: int| hi <= i < marks@.len() ==> #[trigger] marks@[i] > bound,
        decreases hi - lo,
    {
        let mid = lo + (hi - lo) / 2;
        if marks[mid] <= bound {
            lo = mid + 1;
        } else {
            hi = mid;
        }
    }
    lo
}

/// Last mark <= bound.
pub fn last_mark_leq(marks: &[usize], bound: usize) -> (r: Option<usize>)
    requires
        marks_sorted(marks@),
        marks@.len() <= crate::MAX_LEN,
    ensures
        match r {
            Some(m) => exists|k: int|
                0 <= k < marks@.len() && marks@[k] == m && m <= bound && forall|i: int|
                    k < i < marks@.len() ==> #[trigger] marks@[i] > bound,
            None => forall|i: int| 0 <= i < marks@.len() ==> #[trigger] marks@[i] > bound,
        },
{
    let i = upper_bound(marks, bound);
    if i == 0 {
        None
    } else {
        let m = marks[i - 1];
        proof {
            assert(0 <= i - 1 < marks@.len() && marks@[i - 1] == m && m <= bound && forall|
                j: int,
            |
                i - 1 < j < marks@.len() ==> #[trigger] marks@[j] > bound);
        }
        Some(m)
    }
}

/// First mark >= bound.
pub fn first_mark_geq(marks: &[usize], bound: usize) -> (r: Option<usize>)
    requires
        marks_sorted(marks@),
        marks@.len() <= crate::MAX_LEN,
    ensures
        match r {
            Some(m) => exists|k: int|
                0 <= k < marks@.len() && marks@[k] == m && m >= bound && forall|i: int|
                    0 <= i < k ==> #[trigger] marks@[i] < bound,
            None => forall|i: int| 0 <= i < marks@.len() ==> #[trigger] marks@[i] < bound,
        },
{
    let mut lo: usize = 0;
    let mut hi: usize = marks.len();
    while lo < hi
        invariant
            0 <= lo <= hi <= marks@.len(),
            marks@.len() <= crate::MAX_LEN,
            marks_sorted(marks@),
            forall|i: int| 0 <= i < lo ==> #[trigger] marks@[i] < bound,
            forall|i: int| hi <= i < marks@.len() ==> #[trigger] marks@[i] >= bound,
        decreases hi - lo,
    {
        let mid = lo + (hi - lo) / 2;
        if marks[mid] < bound {
            lo = mid + 1;
        } else {
            hi = mid;
        }
    }
    if lo < marks.len() {
        let m = marks[lo];
        proof {
            assert(0 <= lo < marks@.len() && marks@[lo as int] == m && m >= bound && forall|i: int|
                0 <= i < lo ==> #[trigger] marks@[i] < bound);
        }
        Some(m)
    } else {
        None
    }
}

/// The period estimate in force at `pos`: the lag of the last window
/// starting at or before `pos`, or the first window's lag if every window
/// starts beyond `pos`.
pub open spec fn lag_at_rec(ws: Seq<(usize, usize)>, pos: int, i: int, cur: int) -> int
    decreases ws.len() - i,
{
    if i < 0 || i >= ws.len() {
        cur
    } else if ws[i].0 <= pos {
        lag_at_rec(ws, pos, i + 1, ws[i].1 as int)
    } else {
        cur
    }
}

/// The period estimate in force at `pos` under the window estimates `ws`.
pub open spec fn spec_lag_at(ws: Seq<(usize, usize)>, pos: int) -> int {
    lag_at_rec(ws, pos, 0, ws[0].1 as int)
}

/// The in-force lag is one of the listed lags.
pub proof fn lemma_lag_at_rec_capped(ws: Seq<(usize, usize)>, pos: int, i: int, cur: int)
    requires
        lags_capped(ws),
        0 <= cur < LAG_CAP,
    ensures
        0 <= lag_at_rec(ws, pos, i, cur) < LAG_CAP,
    decreases ws.len() - i,
{
    if 0 <= i < ws.len() && ws[i].0 <= pos {
        lemma_lag_at_rec_capped(ws, pos, i + 1, ws[i].1 as int);
    }
}

/// The period estimate in force at `pos` (see [`spec_lag_at`]).
pub fn lag_at(pos: usize, windows: &[(usize, usize)]) -> (r: usize)
    requires
        windows@.len() > 0,
        windows@.len() <= crate::MAX_LEN,
    ensures
        r == spec_lag_at(windows@, pos as int),
{
    let mut lag: usize = windows[0].1;
    let mut i: usize = 0;
    while i < windows.len()
        invariant_except_break
            windows@.len() > 0,
            windows@.len() <= crate::MAX_LEN,
            i <= windows@.len(),
            spec_lag_at(windows@, pos as int) == lag_at_rec(windows@, pos as int, i as int, lag as int),
        ensures
            lag == spec_lag_at(windows@, pos as int),
        decreases windows@.len() - i,
    {
        if windows[i].0 <= pos {
            lag = windows[i].1;
        } else {
            proof {
                assert(lag_at_rec(windows@, pos as int, i as int, lag as int) == lag);
            }
            break;
        }
        i += 1;
    }
    lag
}

/// One windowed grain: a span of one period on either side of a pitch mark,
/// held as indices into the source buffer.
#[derive(Clone, Copy, Debug, PartialEq, Eq, Structural)]
pub struct Grain {
    /// The pitch mark this grain is centered on.
    pub center: usize,
    /// The period estimate in force at the mark.
    pub period: usize,
}

impl Grain {
    /// First sample index of the grain's span.
    pub open spec fn spec_start(&self) -> int {
        self.center - self.period
    }

    /// First sample index of the grain's span.
    pub fn start(&self) -> (r: usize)
        requires
            self.period <= self.center,
        ensures
            r == self.spec_start(),
    {
        self.center - self.period
    }
}

/// A grain list that fits a buffer of length `len`: every span stays inside
/// the buffer and every period is below the analysis cap.
pub open spec fn grains_fit(gs: Seq<Grain>, len: int) -> bool {
    forall|i: int|
        0 <= i < gs.len() ==> (#[trigger] gs[i]).period <= gs[i].center && gs[i].center
            + gs[i].period < len && gs[i].period < LAG_CAP
}

/// The grains extracted from the first `n` marks: one per mark whose
/// period-wide span fits the buffer, skipping marks too close to an edge.
pub open spec fn grains_upto(len: int, ms: Seq<usize>, ws: Seq<(usize, usize)>, n: int) -> Seq<
    Grain,
>
    decreases n,
{
    if n <= 0 {
        Seq::empty()
    } else {
        let prev = grains_upto(len, ms, ws, n - 1);
        let m = ms[n - 1] as int;
        let p = spec_lag_at(ws, m);
        if p <= m && m + p < len {
            prev.push(Grain { center: ms[n - 1], period: p as usize })
        } else {
            prev
        }
    }
}

/// All grains extracted from marks `ms` under windows `ws` in a buffer of
/// length `len`.
pub open spec fn spec_grains(len: int, ms: Seq<usize>, ws: Seq<(usize, usize)>) -> Seq<Grain> {
    grains_upto(len, ms, ws, ms.len() as int)
}

/// Extracted grains keep their marks as centers, in order, spans inside the
/// buffer, and there are never more grains than marks.
pub proof fn lemma_grains_upto_fit(len: int, ms: Seq<usize>, ws: Seq<(usize, usize)>, n: int)
    requires
        lags_capped(ws),
        ws.len() > 0,
        n <= ms.len(),
    ensures
        grains_upto(len, ms, ws, n).len() <= clamp0(n),
        grains_fit(grains_upto(len, ms, ws, n), len),
        forall|a: int|
            0 <= a < grains_upto(len, ms, ws, n).len() ==> exists|k: int|
                0 <= k < n && ms[k] == (#[trigger] grains_upto(len, ms, ws, n)[a]).center,
    decreases n,
{
    if n > 0 {
        lemma_grains_upto_fit(len, ms, ws, n - 1);
        let m = ms[n - 1] as int;
        lemma_lag_at_rec_capped(ws, m, 0, ws[0].1 as int);
    }
}

/// Cut one grain per pitch mark: the span is one in-force period on either
/// side of the mark, and marks whose span would cross a buffer edge are
/// dropped silently.
pub fn extract_grains(buffer: &AudioBuffer, marks: &[usize], windows: &[(usize, usize)]) -> (r:
    Vec<Grain>)
    requires
        buffer.wf(),
        lags_capped(windows@),
        marks@.len() > 0 ==> windows@.len() > 0,
        windows@.len() <= crate::MAX_LEN,
        marks@.len() <= crate::MAX_LEN,
        forall|i: int| 0 <= i < marks@.len() ==> #[trigger] marks@[i] <= crate::MAX_LEN,
    ensures
        r@ == spec_grains(buffer.samples@.len() as int, marks@, windows@),
        grains_fit(r@, buffer.samples@.len() as int),
        r@.len() <= marks@.len(),
{
    let ghost len = buffer.samples@.len() as int;
    let mut grains: Vec<Grain> = Vec::new();
    let samples_len = buffer.samples.len();

    let mut k: usize = 0;
    while k < marks.len()
        invariant
            buffer.wf(),
            lags_capped(windows@),
            marks@.len() > 0 ==> windows@.len() > 0,
            windows@.len() <= crate::MAX_LEN,
            marks@.len() <= crate::MAX_LEN,
            forall|i: int| 0 <= i < marks@.len() ==> #[trigger] marks@[i] <= crate::MAX_LEN,
            len == buffer.samples@.len() as int,
            samples_len == buffer.samples@.len(),
            k <= marks@.len(),
            grains@ == grains_upto(len, marks@, windows@, k as int),
            grains@.len() <= k,
        decreases marks@.len() - k,
    {
        let mark = marks[k];
        let period = lag_at(mark, windows);
        proof {
            lemma_lag_at_rec_capped(windows@, mark as int, 0, windows@[0].1 as int);
        }

        if !(mark < period || mark + period >= samples_len) {
            grains.push(Grain { center: mark, period });
        }
        k += 1;
    }
    proof {
        if marks@.len() > 0 {
            lemma_grains_upto_fit(len, marks@, windows@, marks@.len() as int);
        } else {
            assert(grains@ =~= spec_grains(len, marks@, windows@));
        }
    }
    grains
}

/// Total of the extracted periods.
pub open spec fn sum_periods(gs: Seq<Grain>) -> int
    decreases gs.len(),
{
    if gs.len() == 0 {
        0
    } else {
        sum_periods(gs.drop_last()) + gs.last().period
    }
}

/// The period total of bounded grains is at most one bound per grain.
pub proof fn lemma_sum_periods_bound(gs: Seq<Grain>, b: int)
    requires
        b >= 0,
        forall|i: int| 0 <= i < gs.len() ==> (#[trigger] gs[i]).period <= b,
    ensures
        0 <= sum_periods(gs) <= gs.len() * b,
    decreases gs.len(),
{
    if gs.len() > 0 {
        lemma_sum_periods_bound(gs.drop_last(), b);
        assert((gs.len() - 1) * b + b == gs.len() * b) by (nonlinear_arith);
    }
}

/// Largest accumulated window weight: one full-scale window per sample of
/// the longest buffer.
pub const WEIGHT_CAP: i64 = 0x2000_0000_0000;

/// A sample scaled by a Q15 window weight, truncated toward zero.
pub open spec fn qmul(a: int, w: int) -> int {
    crate::div_trunc(a * w, SCALE as int)
}

/// The overlap-add accumulator invariant: weights are bounded and each
/// accumulated sample stays within the headroom scaled by its weight.
pub open spec fn overlap_inv(out: Seq<i64>, acc: Seq<i64>) -> bool {
    &&& out.len() == acc.len()
    &&& forall|j: int| 0 <= j < acc.len() ==> 0 <= #[trigger] acc[j] <= WEIGHT_CAP
    &&& forall|j: int|
        0 <= j < out.len() ==> SCALE * crate::iabs(#[trigger] out[j] as int) <= MAX_ABS * acc[j]
}

/// A zero-filled sample vector.
pub fn zeros(n: usize) -> (r: Vec<i64>)
    ensures
        r@.len() == n,
        forall|j: int| 0 <= j < n ==> #[trigger] r@[j] == 0,
{
    let mut out: Vec<i64> = Vec::new();
    let mut i: usize = 0;
    while i < n
        invariant
            i <= n,
            out@.len() == i,
            forall|j: int| 0 <= j < i ==> #[trigger] out@[j] == 0,
        decreases n - i,
    {
        out.push(0);
        i += 1;
    }
    out
}

/// Overlap-add one windowed span into the output and its weight
/// accumulator: at output offset `out_start + i`, add the `i`-th source
/// sample scaled by the `i`-th window weight, and the weight itself.
/// Positions outside the output are dropped.
pub(crate) fn deposit(
    out: &mut Vec<i64>,
    acc: &mut Vec<i64>,
    src: &[i64],
    src_start: usize,
    w: &Vec<i64>,
    out_start: i64,
)
    requires
        overlap_inv(old(out)@, old(acc)@),
        old(out)@.len() <= crate::MAX_LEN,
        forall|j: int| 0 <= j < old(acc)@.len() ==> #[trigger] old(acc)@[j] <= WEIGHT_CAP - SCALE,
        src_start + w@.len() <= src@.len(),
        crate::buffer::samples_bounded(src@),
        w@.len() <= crate::window::HANN_MAX,
        forall|i: int| 0 <= i < w@.len() ==> 0 <= #[trigger] w@[i] <= SCALE,
        -0x1_0000_0000_0000 <= out_start <= 0x1_0000_0000_0000,
    ensures
        final(out)@.len() == old(out)@.len(),
        final(acc)@.len() == old(acc)@.len(),
        overlap_inv(final(out)@, final(acc)@),
        forall|j: int|
            0 <= j < final(out)@.len() ==> #[trigger] final(out)@[j] == (if out_start <= j
                < out_start + w@.len() {
                old(out)@[j] + qmul(src@[src_start + (j - out_start)] as int, w@[j - out_start] as int)
            } else {
                old(out)@[j] as int
            }),
        forall|j: int|
            0 <= j < final(acc)@.len() ==> #[trigger] final(acc)@[j] == (if out_start <= j
                < out_start + w@.len() {
                old(acc)@[j] + w@[j - out_start]
            } else {
                old(acc)@[j] as int
            }),
{
    let glen = w.len();
    let out_len = out.len();
    let src_total = src.len();
    let mut i: usize = 0;
    while i < glen
        invariant
            src_total == src@.len(),
            out@.len() == old(out)@.len(),
            acc@.len() == old(acc)@.len(),
            out_len == out@.len(),
            out@.len() <= crate::MAX_LEN,
            glen == w@.len(),
            i <= glen,
            overlap_inv(out@, acc@),
            src_start + w@.len() <= src@.len(),
            crate::buffer::samples_bounded(src@),
            w@.len() <= crate::window::HANN_MAX,
            forall|k: int| 0 <= k < w@.len() ==> 0 <= #[trigger] w@[k] <= SCALE,
            -0x1_0000_0000_0000 <= out_start <= 0x1_0000_0000_0000,
            forall|j: int|
                0 <= j < acc@.len() ==> #[trigger] acc@[j] <= old(acc)@[j] + SCALE && old(
                    acc,
                )@[j] <= WEIGHT_CAP - SCALE,
            forall|j: int|
                0 <= j < out@.len() ==> #[trigger] out@[j] == (if out_start <= j < out_start
                    + i {
                    old(out)@[j] + qmul(
                        src@[src_start + (j - out_start)] as int,
                        w@[j - out_start] as int,
                    )
                } else {
                    old(out)@[j] as int
                }),
            forall|j: int|
                0 <= j < acc@.len() ==> #[trigger] acc@[j] == (if out_start <= j < out_start
                    + i {
                    old(acc)@[j] + w@[j - out_start]
                } else {
                    old(acc)@[j] as int
                }),
        decreases glen - i,
    {
        let oj: i64 = out_start + i as i64;
        if oj >= 0 && oj < out_len as i64 {
            let idx = oj as usize;
            let s_val = src[src_start + i];
            let wi = w[i];
            proof {
                assert(crate::iabs(s_val * wi as int) <= MAX_ABS * wi
                    && -(MAX_ABS * SCALE) <= s_val * wi <= MAX_ABS * SCALE)
                    by (nonlinear_arith)
                    requires
                        -MAX_ABS <= s_val <= MAX_ABS,
                        0 <= wi <= SCALE,
                ;
            }
            let v = crate::div_scale(s_val * wi);
            proof {
                crate::lemma_div_trunc_mag(s_val as int * wi as int, SCALE as int);
                assert(SCALE * crate::iabs(v as int) <= MAX_ABS * (wi as int)) by {
                    assert(crate::iabs(v as int) * SCALE == SCALE * crate::iabs(v as int))
                        by (nonlinear_arith);
                }
                assert(SCALE * crate::iabs(out@[idx as int] + v) <= MAX_ABS * (acc@[idx as int]
                    + wi)) by (nonlinear_arith)
                    requires
                        SCALE * crate::iabs(out@[idx as int] as int) <= MAX_ABS * acc@[idx as int],
                        SCALE * crate::iabs(v as int) <= MAX_ABS * (wi as int),
                        SCALE > 0,
                ;
                assert(crate::iabs(out@[idx as int] as int) <= MAX_ABS as int * WEIGHT_CAP as int / SCALE as int)
                    by (nonlinear_arith)
                    requires
                        SCALE * crate::iabs(out@[idx as int] as int) <= MAX_ABS * acc@[idx as int],
                        0 <= acc@[idx as int] <= WEIGHT_CAP,
                        SCALE == 32768,
                        MAX_ABS == 131072,
                        WEIGHT_CAP == 0x2000_0000_0000,
                ;
            }
            let cur = out[idx];
            out[idx] = cur + v;
            let cur_acc = acc[idx];
            acc[idx] = cur_acc + wi;
        }
        i += 1;
    }
}
pub open spec fn spec_buffer_grains(s: Seq<i64>, sample_rate: u32) -> Seq<Grain> {
    let ws = crate::window_calc::spec_analysis(s, sample_rate);
    spec_grains(s.len() as int, spec_marks(s.len() as int, ws), ws)
}

/// The arithmetic mean of the periods of all grains a buffer's own
/// analysis extracts.
pub open spec fn spec_avg_period(s: Seq<i64>, sample_rate: u32) -> int {
    sum_periods(spec_buffer_grains(s, sample_rate)) / spec_buffer_grains(s, sample_rate).len() as int
}

/// Arithmetic mean of the periods of all grains the buffer's own analysis
/// extracts: its characteristic pitch period. Callers must guard buffers
/// that yield no grain.
pub fn get_avg_period(input: &AudioBuffer) -> (r: usize)
    requires
        input.wf(),
        spec_buffer_grains(input.samples@, input.sample_rate).len() > 0,
    ensures
        r == spec_avg_period(input.samples@, input.sample_rate),
        r < LAG_CAP,
{
    let windows = find_window(input);
    let marks = generate_pitch_marks(input, windows.as_slice());
    proof {
        if windows@.len() > 0 {
            lemma_marks_from_count(
                input.samples@.len() as int,
                windows@,
                windows@[0].0 as int,
                0,
            );
        }
    }
    let grains = extract_grains(input, marks.as_slice(), windows.as_slice());
    let ghost gs = spec_buffer_grains(input.samples@, input.sample_rate);

    let mut sum: u64 = 0;
    let mut i: usize = 0;
    proof {
        lemma_grains_upto_fit(
            input.samples@.len() as int,
            marks@,
            windows@,
            marks@.len() as int,
        );
    }
    while i < grains.len()
        invariant
            grains@ == gs,
            forall|j: int| 0 <= j < gs.len() ==> (#[trigger] gs[j]).period < LAG_CAP,
            gs.len() <= crate::MAX_LEN,
            i <= gs.len(),
            sum == sum_periods(gs.take(i as int)),
            sum <= i * LAG_CAP,
        decreases grains@.len() - i,
    {
        proof {
            assert(gs.take(i + 1).drop_last() =~= gs.take(i as int));
            assert(i * LAG_CAP + LAG_CAP == (i + 1) * LAG_CAP) by (nonlinear_arith);
            assert((i + 1) * LAG_CAP <= crate::MAX_LEN * LAG_CAP) by (nonlinear_arith)
                requires
                    0 <= i + 1 <= crate::MAX_LEN,
                    LAG_CAP > 0,
            ;
        }
        sum = sum + grains[i].period as u64;
        i += 1;
    }
    proof {
        assert(gs.take(gs.len() as int) =~= gs);
        lemma_sum_periods_bound(gs, LAG_CAP - 1);
        vstd::arithmetic::div_mod::lemma_div_multiples_vanish(
            LAG_CAP - 1 as int,
            gs.len() as int,
        );
        vstd::arithmetic::div_mod::lemma_div_is_ordered(
            sum_periods(gs),
            gs.len() * (LAG_CAP - 1) as int,
            gs.len() as int,
        );
        assert(gs.len() * (LAG_CAP - 1) == (gs.len() as int) * ((LAG_CAP - 1) as int))
            by (nonlinear_arith);
    }
    let avg = sum / (grains.len() as u64);
    avg as usize
}

/// A weight-normalized overlap-add sample: rescaled by its accumulated
/// weight where any weight landed, untouched (necessarily zero) elsewhere.
pub open spec fn spec_norm(o: int, a: int) -> int {
    if a > 0 {
        crate::div_trunc(o * SCALE, a)
    } else {
        o
    }
}

/// Divide every output sample by its accumulated window weight; positions
/// that no window touched keep their (zero) value. Normalized samples are
/// within the Q15 headroom.
fn normalize_by_weights(out: &mut Vec<i64>, acc: &Vec<i64>)
    requires
        overlap_inv(old(out)@, acc@),
    ensures
        final(out)@.len() == old(out)@.len(),
        forall|j: int|
            0 <= j < final(out)@.len() ==> #[trigger] final(out)@[j] == spec_norm(
                old(out)@[j] as int,
                acc@[j] as int,
            ),
        forall|j: int|
            0 <= j < final(out)@.len() ==> -MAX_ABS <= #[trigger] final(out)@[j] <= MAX_ABS,
{
    let n = out.len();
    let mut i: usize = 0;
    while i < n
        invariant
            overlap_inv(old(out)@, acc@),
            n == out@.len(),
            out@.len() == old(out)@.len(),
            i <= n,
            forall|j: int| i <= j < n ==> #[trigger] out@[j] == old(out)@[j],
            forall|j: int|
                0 <= j < i ==> #[trigger] out@[j] == spec_norm(
                    old(out)@[j] as int,
                    acc@[j] as int,
                ),
            forall|j: int| 0 <= j < i ==> -MAX_ABS <= #[trigger] out@[j] <= MAX_ABS,
        decreases n - i,
    {
        let a = acc[i];
        if a > 0 {
            let o = out[i];
            proof {
                assert(crate::iabs(o as int) * SCALE <= MAX_ABS * (a as int)) by (nonlinear_arith)
                    requires
                        SCALE * crate::iabs(o as int) <= MAX_ABS * (a as int),
                ;
                assert(-(MAX_ABS * (a as int)) <= o * SCALE <= MAX_ABS * (a as int))
                    by (nonlinear_arith)
                    requires
                        crate::iabs(o as int) * SCALE <= MAX_ABS * (a as int),
                ;
                assert(-(0x2000_0000_0000i64 * MAX_ABS) <= o * SCALE <= 0x2000_0000_0000i64
                    * MAX_ABS) by (nonlinear_arith)
                    requires
                        -(MAX_ABS * (a as int)) <= o * SCALE <= MAX_ABS * (a as int),
                        0 < a <= 0x2000_0000_0000i64,
                        MAX_ABS == 131072,
                ;
                crate::lemma_div_trunc_bound(o as int * SCALE as int, a as int, MAX_ABS as int);
            }
            let v = crate::div_pos(o * SCALE, a);
            out[i] = v;
        } else {
            proof {
                assert(out@[i as int] == 0);
            }
        }
        i += 1;
    }
}

/// The sample count that remains after trailing zeros are dropped.
pub open spec fn spec_trim_len(s: Seq<i64>) -> int
    decreases s.len(),
{
    if s.len() == 0 {
        0
    } else if s.last() != 0 {
        s.len() as int
    } else {
        spec_trim_len(s.drop_last())
    }
}

/// A trim never keeps more samples than there are.
pub proof fn lemma_trim_len_range(s: Seq<i64>)
    ensures
        0 <= spec_trim_len(s) <= s.len(),
    decreases s.len(),
{
    if s.len() > 0 && s.last() == 0 {
        lemma_trim_len_range(s.drop_last());
    }
}

/// The length a trimmed buffer keeps: trailing zeros go, but at least one
/// sample stays (of a nonempty buffer).
pub open spec fn spec_kept_len(s: Seq<i64>) -> int {
    if s.len() == 0 {
        0
    } else if spec_trim_len(s) > 1 {
        spec_trim_len(s)
    } else {
        1
    }
}

/// Drop trailing zero samples, keeping at least one sample of a nonempty
/// buffer.
fn trim_tail(out: &mut Vec<i64>)
    ensures
        final(out)@ == old(out)@.take(spec_kept_len(old(out)@)),
{
    let mut t = out.len();
    proof {
        assert(out@.take(t as int) =~= out@);
    }
    while t > 0 && out[t - 1] == 0
        invariant
            t <= out@.len(),
            out@ == old(out)@,
            spec_trim_len(out@) == spec_trim_len(out@.take(t as int)),
        decreases t,
    {
        proof {
            assert(out@.take(t as int).drop_last() =~= out@.take(t - 1 as int));
            assert(out@.take(t as int).last() == out@[t - 1]);
        }
        t -= 1;
    }
    proof {
        if t > 0 {
            assert(out@.take(t as int).last() == out@[t - 1]);
            assert(spec_trim_len(out@) == t as int);
        }
    }
    let keep = if t > 1 {
        t
    } else {
        1
    };
    out.truncate(keep);
    proof {
        if old(out)@.len() == 0 {
            assert(final(out)@ =~= old(out)@.take(spec_kept_len(old(out)@)));
        } else {
            assert(final(out)@ =~= old(out)@.take(spec_kept_len(old(out)@)));
        }
    }
}

/// The largest sample magnitude in a buffer; zero for an empty one.
pub open spec fn spec_peak(s: Seq<i64>) -> int
    decreases s.len(),
{
    if s.len() == 0 {
        0
    } else if crate::iabs(s.last() as int) > spec_peak(s.drop_last()) {
        crate::iabs(s.last() as int)
    } else {
        spec_peak(s.drop_last())
    }
}

/// The largest sample magnitude of the buffer.
fn peak_abs(v: &Vec<i64>) -> (r: i64)
    requires
        forall|j: int| 0 <= j < v@.len() ==> -MAX_ABS <= #[trigger] v@[j] <= MAX_ABS,
    ensures
        r == spec_peak(v@),
        0 <= r <= MAX_ABS,
        forall|j: int| 0 <= j < v@.len() ==> crate::iabs(#[trigger] v@[j] as int) <= r,
{
    let n = v.len();
    let mut peak: i64 = 0;
    let mut i: usize = 0;
    while i < n
        invariant
            forall|j: int| 0 <= j < v@.len() ==> -MAX_ABS <= #[trigger] v@[j] <= MAX_ABS,
            n == v@.len(),
            i <= n,
            peak == spec_peak(v@.take(i as int)),
            0 <= peak <= MAX_ABS,
            forall|j: int| 0 <= j < i ==> crate::iabs(#[trigger] v@[j] as int) <= peak,
        decreases n - i,
    {
        let x = v[i];
        let a = if x >= 0 {
            x
        } else {
            -x
        };
        proof {
            assert(v@.take(i + 1 as int).drop_last() =~= v@.take(i as int));
            assert(v@.take(i + 1 as int).last() == v@[i as int]);
        }
        if a > peak {
            peak = a;
        }
        i += 1;
    }
    proof {
        assert(v@.take(n as int) =~= v@);
    }
    peak
}

/// Scale every sample down so the peak lands exactly at full scale.
fn scale_to_peak(out: &mut Vec<i64>, peak: i64)
    requires
        SCALE < peak <= MAX_ABS,
        forall|j: int|
            0 <= j < old(out)@.len() ==> crate::iabs(#[trigger] old(out)@[j] as int) <= peak,
    ensures
        final(out)@.len() == old(out)@.len(),
        forall|j: int|
            0 <= j < final(out)@.len() ==> #[trigger] final(out)@[j] == crate::div_trunc(
                old(out)@[j] * SCALE,
                peak as int,
            ),
        forall|j: int| 0 <= j < final(out)@.len() ==> -SCALE <= #[trigger] final(out)@[j] <= SCALE,
{
    let n = out.len();
    let mut i: usize = 0;
    while i < n
        invariant
            SCALE < peak <= MAX_ABS,
            n == out@.len(),
            out@.len() == old(out)@.len(),
            i <= n,
            forall|j: int|
                0 <= j < old(out)@.len() ==> crate::iabs(#[trigger] old(out)@[j] as int) <= peak,
            forall|j: int| i <= j < n ==> #[trigger] out@[j] == old(out)@[j],
            forall|j: int|
                0 <= j < i ==> #[trigger] out@[j] == crate::div_trunc(
                    old(out)@[j] * SCALE,
                    peak as int,
                ),
            forall|j: int| 0 <= j < i ==> -SCALE <= #[trigger] out@[j] <= SCALE,
        decreases n - i,
    {
        let o = out[i];
        proof {
            assert(-(SCALE * (peak as int)) <= o * SCALE <= SCALE * (peak as int))
                by (nonlinear_arith)
                requires
                    crate::iabs(o as int) <= peak,
                    SCALE == 32768,
                    0 < peak,
            ;
            crate::lemma_div_trunc_bound(o as int * SCALE as int, peak as int, SCALE as int);
        }
        let v = crate::div_pos(o * SCALE, peak);
        out[i] = v;
        i += 1;
    }
}

/// How far the synthesis cursor advances after a grain of period `p`:
/// the period divided by the pitch ratio (at least one sample), scaled by
/// the time stretch, all in Q15.
pub open spec fn spec_adv(p: int, r: int, ts: int) -> int {
    let scaled = p * SCALE * SCALE / r;
    let np = if scaled > SCALE {
        scaled
    } else {
        SCALE as int
    };
    np * ts / (SCALE as int)
}

/// The Q15 output-center cursor before grain `k` is placed: the first
/// grain's period, advanced once per earlier grain.
pub open spec fn cursor_at(gs: Seq<Grain>, r: int, ts: int, k: int) -> int
    decreases k,
{
    if k <= 0 {
        if gs.len() > 0 {
            gs[0].period * SCALE
        } else {
            0
        }
    } else {
        cursor_at(gs, r, ts, k - 1) + spec_adv(gs[k - 1].period as int, r, ts)
    }
}

/// Whether the walk stops after placing grain `k`: the advanced cursor
/// leaves no room for another grain of this length before the output end.
pub open spec fn break_after(gs: Seq<Grain>, r: int, ts: int, out_len: int, k: int) -> bool {
    cursor_at(gs, r, ts, k + 1) / (SCALE as int) >= clamp0(out_len - (2 * gs[k].period + 1))
}

/// How many grains are placed, walking from grain `k`: all of them, unless
/// the cursor runs out of room first.
pub open spec fn n_dep_from(gs: Seq<Grain>, r: int, ts: int, out_len: int, k: int) -> int
    decreases gs.len() - k,
{
    if k >= gs.len() {
        k
    } else if break_after(gs, r, ts, out_len, k) {
        k + 1
    } else {
        n_dep_from(gs, r, ts, out_len, k + 1)
    }
}

/// How many grains the synthesis walk places in total.
pub open spec fn spec_n_dep(gs: Seq<Grain>, r: int, ts: int, out_len: int) -> int {
    n_dep_from(gs, r, ts, out_len, 0)
}

/// What grain `g`, placed at cursor `cursor`, adds to output sample `j`:
/// the Hann-windowed source sample, or nothing outside the grain's span.
pub open spec fn grain_out_at(s: Seq<i64>, g: Grain, cursor: int, j: int) -> int {
    let oc = (cursor + SCALE / 2) / (SCALE as int);
    let start = oc - g.period;
    let glen = 2 * g.period;
    if start <= j < start + glen {
        qmul(
            s[g.center - g.period + (j - start)] as int,
            crate::window::spec_hann(glen, j - start),
        )
    } else {
        0
    }
}

/// What grain `g`, placed at cursor `cursor`, adds to the weight
/// accumulator at `j`.
pub open spec fn grain_acc_at(g: Grain, cursor: int, j: int) -> int {
    let oc = (cursor + SCALE / 2) / (SCALE as int);
    let start = oc - g.period;
    let glen = 2 * g.period;
    if start <= j < start + glen {
        crate::window::spec_hann(glen, j - start)
    } else {
        0
    }
}

/// Output sample `j` after the first `n` grains are overlap-added.
pub open spec fn out_contrib(s: Seq<i64>, gs: Seq<Grain>, r: int, ts: int, n: int, j: int) -> int
    decreases n,
{
    if n <= 0 {
        0
    } else {
        out_contrib(s, gs, r, ts, n - 1, j) + grain_out_at(
            s,
            gs[n - 1],
            cursor_at(gs, r, ts, n - 1),
            j,
        )
    }
}

/// Accumulated window weight at `j` after the first `n` grains.
pub open spec fn acc_contrib(gs: Seq<Grain>, r: int, ts: int, n: int, j: int) -> int
    decreases n,
{
    if n <= 0 {
        0
    } else {
        acc_contrib(gs, r, ts, n - 1, j) + grain_acc_at(gs[n - 1], cursor_at(gs, r, ts, n - 1), j)
    }
}

/// The synthesis output allocation: the stretched input length, rounded up,
/// plus headroom for overlap bleed.
pub open spec fn spec_out_len(len: int, ts: int) -> int {
    (len * ts + SCALE - 1) / (SCALE as int) + 4096
}

/// The overlap-added, weight-normalized output before trimming.
pub open spec fn spec_psola_pre(s: Seq<i64>, sample_rate: u32, r: int, ts: int) -> Seq<i64> {
    let gs = spec_buffer_grains(s, sample_rate);
    let ol = spec_out_len(s.len() as int, ts);
    let n = spec_n_dep(gs, r, ts, ol);
    Seq::new(
        ol as nat,
        |j: int| spec_norm(out_contrib(s, gs, r, ts, n, j), acc_contrib(gs, r, ts, n, j)) as i64,
    )
}

/// What constant-ratio resynthesis returns: the input itself when it is too
/// short or yields no analysis window and no grain; otherwise the grains
/// overlap-added at ratio-scaled spacing, weight-normalized, tail-trimmed,
/// and peak-limited to full scale.
pub open spec fn spec_psola(s: Seq<i64>, sample_rate: u32, r: int, ts: int) -> Seq<i64> {
    let ws = crate::window_calc::spec_analysis(s, sample_rate);
    let gs = spec_buffer_grains(s, sample_rate);
    if s.len() < 2048 || ws.len() == 0 || gs.len() == 0 {
        s
    } else {
        let pre = spec_psola_pre(s, sample_rate, r, ts);
        let trimmed = pre.take(spec_kept_len(pre));
        let pk = spec_peak(trimmed);
        if pk > SCALE {
            Seq::new(
                trimmed.len(),
                |j: int| crate::div_trunc(trimmed[j] * SCALE, pk) as i64,
            )
        } else {
            trimmed
        }
    }
}

/// Resynthesize the buffer with its grain spacing scaled by `pitch_ratio`
/// and its overall progression scaled by `time_stretch`, in Q15
/// (see [`spec_psola`]). Inputs too short or without usable periodicity are
/// returned unchanged. On the resynthesis path, no output sample exceeds
/// full scale.
pub fn psola_constant(input: &AudioBuffer, pitch_ratio: i64, time_stretch: i64) -> (r: AudioBuffer)
    requires
        input.wf(),
        crate::RATIO_MIN <= pitch_ratio <= crate::RATIO_MAX,
        crate::RATIO_MIN <= time_stretch <= crate::RATIO_MAX,
        spec_out_len(input.samples@.len() as int, time_stretch as int) <= crate::MAX_LEN,
    ensures
        r.sample_rate == input.sample_rate,
        r.samples@ == spec_psola(
            input.samples@,
            input.sample_rate,
            pitch_ratio as int,
            time_stretch as int,
        ),
        r.wf(),
        input.samples@.len() >= 2048 && crate::window_calc::spec_analysis(
            input.samples@,
            input.sample_rate,
        ).len() > 0 && spec_buffer_grains(input.samples@, input.sample_rate).len() > 0
            ==> forall|j: int|
            0 <= j < r.samples@.len() ==> -SCALE <= #[trigger] r.samples@[j] <= SCALE,
{
    let ghost s = input.samples@;
    let ghost sr = input.sample_rate;
    let ghost rr = pitch_ratio as int;
    let ghost ts = time_stretch as int;

    let windows = find_window(input);

    if input.samples.len() < 2048 || windows.len() == 0 {
        return input.duplicate();
    }

    let marks = generate_pitch_marks(input, windows.as_slice());
    proof {
        lemma_marks_from_count(s.len() as int, windows@, windows@[0].0 as int, 0);
    }
    let grains = extract_grains(input, marks.as_slice(), windows.as_slice());
    if grains.len() == 0 {
        return input.duplicate();
    }
    let ghost gs = grains@;
    proof {
        assert(gs == spec_buffer_grains(s, sr));
    }

    let in_len = input.samples.len();
    let num: i64 = (in_len as i64) * time_stretch + (SCALE - 1);
    let ol_i: i64 = num / SCALE + 4096;
    proof {
        assert(ol_i == spec_out_len(s.len() as int, ts));
        vstd::arithmetic::div_mod::lemma_div_pos_is_pos(in_len as int * ts + SCALE - 1, SCALE as int);
    }
    let out_len = ol_i as usize;
    let ghost ol = out_len as int;

    let mut out = zeros(out_len);
    let mut acc = zeros(out_len);
    let ghost ndep = spec_n_dep(gs, rr, ts, ol);

    let mut cursor: i64 = grains[0].period as i64 * SCALE;
    let mut gi: usize = 0;

    while gi < grains.len()
        invariant_except_break
            input.wf(),
            s == input.samples@,
            gs == grains@,
            grains_fit(gs, s.len() as int),
            gs.len() > 0,
            gs.len() <= s.len(),
            s.len() <= crate::MAX_LEN,
            crate::RATIO_MIN <= pitch_ratio <= crate::RATIO_MAX,
            crate::RATIO_MIN <= time_stretch <= crate::RATIO_MAX,
            rr == pitch_ratio as int,
            ts == time_stretch as int,
            out_len == ol,
            4096 <= out_len <= crate::MAX_LEN,
            gi <= gs.len(),
            out@.len() == out_len,
            acc@.len() == out_len,
            overlap_inv(out@, acc@),
            ndep == n_dep_from(gs, rr, ts, ol, gi as int),
            cursor == cursor_at(gs, rr, ts, gi as int),
            0 <= cursor < 0x2000_0000_8000,
            forall|j: int|
                0 <= j < out@.len() ==> #[trigger] out@[j] == out_contrib(s, gs, rr, ts, gi as int, j),
            forall|j: int|
                0 <= j < acc@.len() ==> #[trigger] acc@[j] == acc_contrib(gs, rr, ts, gi as int, j),
            forall|j: int| 0 <= j < acc@.len() ==> #[trigger] acc@[j] <= gi * SCALE,
        ensures
            out@.len() == ol,
            acc@.len() == ol,
            overlap_inv(out@, acc@),
            forall|j: int|
                0 <= j < out@.len() ==> #[trigger] out@[j] == out_contrib(s, gs, rr, ts, ndep, j),
            forall|j: int|
                0 <= j < acc@.len() ==> #[trigger] acc@[j] == acc_contrib(gs, rr, ts, ndep, j),
        decreases gs.len() - gi,
    {
        let ghost gi0 = gi as int;
        let g = grains[gi];
        proof {
            assert(g == gs[gi0]);
            assert(g.period <= g.center && g.center + g.period < s.len() && g.period < LAG_CAP);
        }
        let glen = 2 * g.period;
        let w = hann(glen);
        let oc: i64 = (cursor + SCALE / 2) / SCALE;
        proof {
            vstd::arithmetic::div_mod::lemma_div_pos_is_pos(cursor as int + SCALE / 2, SCALE as int);
            vstd::arithmetic::div_mod::lemma_div_is_ordered(
                cursor as int + SCALE / 2,
                0x2000_0000_8000 + SCALE / 2,
                SCALE as int,
            );
            assert((0x2000_0000_8000 + SCALE / 2) / (SCALE as int) < 0x1_0000_0004);
        }
        let start: i64 = oc - g.period as i64;
        proof {
            assert(forall|j: int|
                0 <= j < acc@.len() ==> #[trigger] acc@[j] <= (crate::MAX_LEN - 1) * SCALE) by {
                assert(gi * SCALE <= (crate::MAX_LEN - 1) * SCALE) by (nonlinear_arith)
                    requires
                        0 <= gi <= crate::MAX_LEN - 1,
                        SCALE == 32768,
                ;
            }
        }
        deposit(&mut out, &mut acc, input.samples.as_slice(), g.start(), &w, start);
        proof {
            let cur = cursor_at(gs, rr, ts, gi0);
            assert forall|j: int| 0 <= j < out@.len() implies #[trigger] out@[j] == out_contrib(
                s,
                gs,
                rr,
                ts,
                gi0 + 1,
                j,
            ) by {
                assert(out_contrib(s, gs, rr, ts, gi0 + 1, j) == out_contrib(s, gs, rr, ts, gi0, j)
                    + grain_out_at(s, gs[gi0], cur, j));
            }
            assert forall|j: int| 0 <= j < acc@.len() implies #[trigger] acc@[j] == acc_contrib(
                gs,
                rr,
                ts,
                gi0 + 1,
                j,
            ) by {
                assert(acc_contrib(gs, rr, ts, gi0 + 1, j) == acc_contrib(gs, rr, ts, gi0, j)
                    + grain_acc_at(gs[gi0], cur, j));
            }
            assert forall|j: int| 0 <= j < acc@.len() implies #[trigger] acc@[j] <= (gi0 + 1)
                * SCALE by {
                assert(gi0 * SCALE + SCALE == (gi0 + 1) * SCALE) by (nonlinear_arith);
            }
        }
        gi += 1;

        let p64: i64 = g.period as i64;
        proof {
            assert(0 <= p64 * SCALE * SCALE <= 0x1000000i64 * 32768 * 32768) by (nonlinear_arith)
                requires
                    0 <= p64 <= 0x1000000,
            ;
        }
        let scaled: i64 = p64 * SCALE * SCALE;
        let q0: i64 = scaled / pitch_ratio;
        proof {
            vstd::arithmetic::div_mod::lemma_div_pos_is_pos(scaled as int, pitch_ratio as int);
            vstd::arithmetic::div_mod::lemma_div_is_ordered_by_denominator(
                scaled as int,
                32,
                pitch_ratio as int,
            );
        }
        let np: i64 = if q0 > SCALE {
            q0
        } else {
            SCALE
        };
        proof {
            assert(np <= 0x40_0000_0000_0000int / 32) by (nonlinear_arith)
                requires
                    np == (if q0 > SCALE { q0 } else { SCALE }),
                    q0 <= scaled as int / 32,
                    0 <= scaled <= 0x1000000i64 * 32768 * 32768,
                    scaled as int / 32 <= (0x1000000int * 32768 * 32768) / 32,
            ;
        }
        proof {
            assert(0 <= (np as int) * (time_stretch as int) <= (0x40_0000_0000_0000int / 32)
                * 0x2000000) by (nonlinear_arith)
                requires
                    0 < np <= 0x40_0000_0000_0000int / 32,
                    0 < time_stretch <= 0x2000000,
            ;
        }
        let advw: i128 = (np as i128) * (time_stretch as i128);
        proof {
            vstd::arithmetic::div_mod::lemma_div_pos_is_pos(advw as int, SCALE as int);
            vstd::arithmetic::div_mod::lemma_div_is_ordered(
                advw as int,
                (0x40_0000_0000_0000int / 32) * 0x2000000,
                SCALE as int,
            );
            assert(((0x40_0000_0000_0000int / 32) * 0x2000000) / (SCALE as int)
                < 0x7fff_ffff_ffff_ffff);
        }
        let adv: i64 = (advw / (SCALE as i128)) as i64;
        proof {
            assert(adv == spec_adv(g.period as int, rr, ts));
        }
        cursor = cursor + adv;
        proof {
            assert(cursor == cursor_at(gs, rr, ts, gi as int));
        }

        let limit: usize = if out_len > glen + 1 {
            out_len - glen - 1
        } else {
            0
        };
        proof {
            assert(limit as int == clamp0(ol - (2 * gs[gi0].period + 1)));
            vstd::arithmetic::div_mod::lemma_div_pos_is_pos(cursor as int, SCALE as int);
        }
        if cursor / SCALE >= limit as i64 {
            proof {
                assert(break_after(gs, rr, ts, ol, gi0));
                assert(ndep == gi as int);
            }
            break;
        }
        proof {
            assert(!break_after(gs, rr, ts, ol, gi0));
            assert(ndep == n_dep_from(gs, rr, ts, ol, gi as int));
            assert((cursor as int) / (SCALE as int) < limit as int);
            vstd::arithmetic::div_mod::lemma_fundamental_div_mod(cursor as int, SCALE as int);
            vstd::arithmetic::div_mod::lemma_mod_bound(cursor as int, SCALE as int);
            assert((cursor as int) < (limit as int) * SCALE + SCALE) by (nonlinear_arith)
                requires
                    cursor as int == SCALE * (cursor as int / (SCALE as int)) + cursor as int % (
                    SCALE as int),
                    cursor as int / (SCALE as int) <= limit as int - 1,
                    0 <= cursor as int % (SCALE as int) < SCALE,
                    SCALE == 32768,
            ;
            assert((limit as int) * SCALE + SCALE <= 0x2000_0000_8000) by (nonlinear_arith)
                requires
                    0 <= limit <= 0x4000_0000,
                    SCALE == 32768,
            ;
        }
    }

    normalize_by_weights(&mut out, &acc);
    let ghost pre = spec_psola_pre(s, sr, rr, ts);
    proof {
        assert(out@ =~= pre);
        assert(forall|j: int| 0 <= j < pre.len() ==> -MAX_ABS <= #[trigger] pre[j] <= MAX_ABS);
    }
    trim_tail(&mut out);
    proof {
        lemma_trim_len_range(pre);
        assert(out@ == pre.take(spec_kept_len(pre)));
        assert(forall|j: int| 0 <= j < out@.len() ==> -MAX_ABS <= #[trigger] out@[j] <= MAX_ABS);
    }
    let peak = peak_abs(&out);
    if peak > SCALE {
        scale_to_peak(&mut out, peak);
        proof {
            let trimmed = pre.take(spec_kept_len(pre));
            assert(out@ =~= Seq::new(
                trimmed.len(),
                |j: int| crate::div_trunc(trimmed[j] * SCALE, spec_peak(trimmed) as int) as i64,
            ));
        }
    }
    proof {
        assert(out@ == spec_psola(s, sr, rr, ts));
    }
    AudioBuffer { sample_rate: input.sample_rate, samples: out }
}

/// The sample-wise blend of two grains by the Q15 weight `t`, over the
/// shorter of the two spans.
pub open spec fn spec_lerp_grain(
    a: Seq<i64>,
    ga: Grain,
    b: Seq<i64>,
    gb: Grain,
    t: int,
) -> Seq<i64> {
    let n = if ga.period <= gb.period {
        2 * ga.period
    } else {
        2 * gb.period
    };
    Seq::new(
        n as nat,
        |i: int|
            crate::nice::spec_lerp(
                a[ga.center - ga.period + i] as int,
                b[gb.center - gb.period + i] as int,
                t,
            ) as i64,
    )
}

/// Blend two grains sample by sample: each output sample interpolates the
/// grains' corresponding samples by `t`, over the shorter span.
pub fn lerp_grain(
    a_samples: &Vec<i64>,
    ga: Grain,
    b_samples: &Vec<i64>,
    gb: Grain,
    t: i64,
) -> (r: Vec<i64>)
    requires
        crate::buffer::samples_bounded(a_samples@),
        crate::buffer::samples_bounded(b_samples@),
        ga.period <= ga.center,
        ga.center + ga.period <= a_samples@.len(),
        gb.period <= gb.center,
        gb.center + gb.period <= b_samples@.len(),
        ga.period <= LAG_CAP,
        gb.period <= LAG_CAP,
        0 <= t <= SCALE,
    ensures
        r@ == spec_lerp_grain(a_samples@, ga, b_samples@, gb, t as int),
        crate::buffer::samples_bounded(r@),
        r@.len() == (if ga.period <= gb.period {
            2 * ga.period
        } else {
            2 * gb.period
        }),
{
    let a_total = a_samples.len();
    let b_total = b_samples.len();
    let n = if ga.period <= gb.period {
        2 * ga.period
    } else {
        2 * gb.period
    };
    let a_start = ga.start();
    let b_start = gb.start();
    let mut out: Vec<i64> = Vec::new();
    let mut i: usize = 0;
    while i < n
        invariant
            a_total == a_samples@.len(),
            b_total == b_samples@.len(),
            ga.period <= LAG_CAP,
            gb.period <= LAG_CAP,
            crate::buffer::samples_bounded(a_samples@),
            crate::buffer::samples_bounded(b_samples@),
            ga.period <= ga.center,
            ga.center + ga.period <= a_samples@.len(),
            gb.period <= gb.center,
            gb.center + gb.period <= b_samples@.len(),
            0 <= t <= SCALE,
            a_start == ga.spec_start(),
            b_start == gb.spec_start(),
            n == (if ga.period <= gb.period {
                2 * ga.period
            } else {
                2 * gb.period
            }),
            i <= n,
            out@.len() == i,
            forall|k: int|
                0 <= k < i ==> #[trigger] out@[k] == crate::nice::spec_lerp(
                    a_samples@[ga.center - ga.period + k] as int,
                    b_samples@[gb.center - gb.period + k] as int,
                    t as int,
                ),
            crate::buffer::samples_bounded(out@),
        decreases n - i,
    {
        let v = crate::nice::lerp(a_samples[a_start + i], b_samples[b_start + i], t);
        out.push(v);
        i += 1;
    }
    proof {
        assert(out@ =~= spec_lerp_grain(a_samples@, ga, b_samples@, gb, t as int));
    }
    out
}

/// What one grain buffer, centered at `center`, adds to output sample `j`:
/// its Hann-windowed sample, or nothing outside its span.
pub open spec fn oag_one_out(gv: Seq<i64>, center: int, j: int) -> int {
    let glen = gv.len() as int;
    let start = center - glen / 2;
    if start <= j < start + glen {
        qmul(gv[j - start] as int, crate::window::spec_hann(glen, j - start))
    } else {
        0
    }
}

/// What one grain buffer, centered at `center`, adds to the weight
/// accumulator at `j`.
pub open spec fn oag_one_acc(gv: Seq<i64>, center: int, j: int) -> int {
    let glen = gv.len() as int;
    let start = center - glen / 2;
    if start <= j < start + glen {
        crate::window::spec_hann(glen, j - start)
    } else {
        0
    }
}

/// Output sample `j` after the first `n` grain buffers are overlap-added at
/// their marks.
pub open spec fn oag_out_sum(gbs: Seq<Seq<i64>>, ms: Seq<usize>, n: int, j: int) -> int
    decreases n,
{
    if n <= 0 {
        0
    } else {
        oag_out_sum(gbs, ms, n - 1, j) + oag_one_out(gbs[n - 1], ms[n - 1] as int, j)
    }
}

/// Accumulated window weight at `j` after the first `n` grain buffers.
pub open spec fn oag_acc_sum(gbs: Seq<Seq<i64>>, ms: Seq<usize>, n: int, j: int) -> int
    decreases n,
{
    if n <= 0 {
        0
    } else {
        oag_acc_sum(gbs, ms, n - 1, j) + oag_one_acc(gbs[n - 1], ms[n - 1] as int, j)
    }
}

/// What overlap-adding a grain sequence at its marks produces: each grain
/// Hann-windowed and accumulated around its mark, then weight-normalized.
/// One grain per mark; extra grains or marks are ignored.
pub open spec fn spec_overlap_add(gbs: Seq<Seq<i64>>, ms: Seq<usize>, out_len: int) -> Seq<i64> {
    let n = if gbs.len() <= ms.len() {
        gbs.len() as int
    } else {
        ms.len() as int
    };
    Seq::new(
        out_len as nat,
        |j: int| spec_norm(oag_out_sum(gbs, ms, n, j), oag_acc_sum(gbs, ms, n, j)) as i64,
    )
}

/// Overlap-add a sequence of grain buffers, the `k`-th centered at the
/// `k`-th mark, Hann-windowing each and normalizing by accumulated weight
/// (see [`spec_overlap_add`]).
pub fn overlap_add_grain(grain_bufs: &Vec<Vec<i64>>, marks: &[usize], out_len: usize) -> (r: Vec<
    i64,
>)
    requires
        out_len <= crate::MAX_LEN,
        grain_bufs@.len() <= crate::MAX_LEN,
        forall|k: int|
            0 <= k < grain_bufs@.len() ==> (#[trigger] grain_bufs@[k])@.len() != 1 && grain_bufs@[k]@.len()
                <= crate::window::HANN_MAX && crate::buffer::samples_bounded(grain_bufs@[k]@),
        forall|k: int| 0 <= k < marks@.len() ==> #[trigger] marks@[k] <= crate::MAX_LEN,
    ensures
        r@ == spec_overlap_add(grain_bufs@.map_values(|v: Vec<i64>| v@), marks@, out_len as int),
        r@.len() == out_len,
        forall|j: int| 0 <= j < r@.len() ==> -MAX_ABS <= #[trigger] r@[j] <= MAX_ABS,
{
    let ghost gbs = grain_bufs@.map_values(|v: Vec<i64>| v@);
    let mut out = zeros(out_len);
    let mut acc = zeros(out_len);

    let nmin = if grain_bufs.len() <= marks.len() {
        grain_bufs.len()
    } else {
        marks.len()
    };
    let ghost n_spec = nmin as int;

    let mut k: usize = 0;
    while k < nmin
        invariant
            gbs == grain_bufs@.map_values(|v: Vec<i64>| v@),
            gbs.len() == grain_bufs@.len(),
            out_len <= crate::MAX_LEN,
            grain_bufs@.len() <= crate::MAX_LEN,
            forall|i: int|
                0 <= i < grain_bufs@.len() ==> (#[trigger] grain_bufs@[i])@.len() != 1
                    && grain_bufs@[i]@.len() <= crate::window::HANN_MAX
                    && crate::buffer::samples_bounded(grain_bufs@[i]@),
            forall|i: int| 0 <= i < marks@.len() ==> #[trigger] marks@[i] <= crate::MAX_LEN,
            nmin <= grain_bufs@.len(),
            nmin <= marks@.len(),
            k <= nmin,
            out@.len() == out_len,
            acc@.len() == out_len,
            overlap_inv(out@, acc@),
            forall|j: int|
                0 <= j < out@.len() ==> #[trigger] out@[j] == oag_out_sum(gbs, marks@, k as int, j),
            forall|j: int|
                0 <= j < acc@.len() ==> #[trigger] acc@[j] == oag_acc_sum(gbs, marks@, k as int, j),
            forall|j: int| 0 <= j < acc@.len() ==> #[trigger] acc@[j] <= k * SCALE,
        decreases nmin - k,
    {
        let gv = &grain_bufs[k];
        let glen = gv.len();
        let w = hann(glen);
        let center = marks[k];
        let start: i64 = center as i64 - (glen / 2) as i64;
        proof {
            assert(gbs[k as int] == gv@);
            assert forall|j: int| 0 <= j < acc@.len() implies #[trigger] acc@[j] <= (crate::MAX_LEN
                - 1) * SCALE by {
                assert(k * SCALE <= (crate::MAX_LEN - 1) * SCALE) by (nonlinear_arith)
                    requires
                        0 <= k <= crate::MAX_LEN - 1,
                        SCALE == 32768,
                ;
            }
        }
        deposit(&mut out, &mut acc, gv.as_slice(), 0, &w, start);
        proof {
            assert forall|j: int| 0 <= j < out@.len() implies #[trigger] out@[j] == oag_out_sum(
                gbs,
                marks@,
                k + 1 as int,
                j,
            ) by {
                assert(oag_out_sum(gbs, marks@, k + 1 as int, j) == oag_out_sum(
                    gbs,
                    marks@,
                    k as int,
                    j,
                ) + oag_one_out(gbs[k as int], marks@[k as int] as int, j));
            }
            assert forall|j: int| 0 <= j < acc@.len() implies #[trigger] acc@[j] == oag_acc_sum(
                gbs,
                marks@,
                k + 1 as int,
                j,
            ) by {
                assert(oag_acc_sum(gbs, marks@, k + 1 as int, j) == oag_acc_sum(
                    gbs,
                    marks@,
                    k as int,
                    j,
                ) + oag_one_acc(gbs[k as int], marks@[k as int] as int, j));
            }
            assert forall|j: int| 0 <= j < acc@.len() implies #[trigger] acc@[j] <= (k + 1)
                * SCALE by {
                assert(k * SCALE + SCALE == (k + 1) * SCALE) by (nonlinear_arith);
            }
        }
        k += 1;
    }
    normalize_by_weights(&mut out, &acc);
    proof {
        assert(out@ =~= spec_overlap_add(gbs, marks@, out_len as int));
    }
    out
}

/// The samples a grain spans, copied out of its source buffer.
pub fn grain_samples(samples: &Vec<i64>, g: Grain) -> (r: Vec<i64>)
    requires
        g.period <= g.center,
        g.center + g.period <= samples@.len(),
        g.period <= LAG_CAP,
        crate::buffer::samples_bounded(samples@),
    ensures
        r@ == samples@.subrange(g.center - g.period, g.center + g.period),
        r@.len() == 2 * g.period,
        crate::buffer::samples_bounded(r@),
{
    let total = samples.len();
    let start = g.start();
    let n = 2 * g.period;
    let mut out: Vec<i64> = Vec::new();
    let mut i: usize = 0;
    while i < n
        invariant
            total == samples@.len(),
            g.period <= g.center,
            g.center + g.period <= samples@.len(),
            g.period <= LAG_CAP,
            start == g.spec_start(),
            n == 2 * g.period,
            i <= n,
            out@.len() == i,
            crate::buffer::samples_bounded(samples@),
            crate::buffer::samples_bounded(out@),
            forall|k: int| 0 <= k < i ==> #[trigger] out@[k] == samples@[g.center - g.period + k],
        decreases n - i,
    {
        out.push(samples[start + i]);
        i += 1;
    }
    proof {
        assert(out@ =~= samples@.subrange(g.center - g.period, g.center + g.period));
    }
    out
}

/// On the resynthesis path the output never exceeds its allocation: the
/// stretched input length, rounded up, plus the fixed overlap headroom. At
/// unit stretch this bounds the output to the input length plus headroom;
/// [`lemma_unit_ratio_spacing`] gives the matching lower-side account, that
/// unit ratios reproduce the source's grain spacing exactly.
pub proof fn lemma_psola_length_cap(s: Seq<i64>, sample_rate: u32, r: int, ts: int)
    requires
        ts >= 1,
        s.len() >= 2048,
        crate::window_calc::spec_analysis(s, sample_rate).len() > 0,
        spec_buffer_grains(s, sample_rate).len() > 0,
    ensures
        spec_psola(s, sample_rate, r, ts).len() <= spec_out_len(s.len() as int, ts),
{
    let ol = spec_out_len(s.len() as int, ts);
    assert(ol >= 4096) by {
        vstd::arithmetic::div_mod::lemma_div_pos_is_pos(
            s.len() * ts + SCALE - 1,
            SCALE as int,
        );
        assert(s.len() * ts >= 0) by (nonlinear_arith)
            requires
                ts >= 1,
        ;
    }
    let pre = spec_psola_pre(s, sample_rate, r, ts);
    lemma_trim_len_range(pre);
}

/// At unit pitch ratio and unit time stretch, the synthesis cursor advances
/// by exactly one period per grain: resynthesis reproduces the source's
/// grain spacing.
pub proof fn lemma_unit_ratio_spacing(gs: Seq<Grain>, k: int)
    requires
        0 <= k < gs.len(),
        1 <= gs[k].period < LAG_CAP,
    ensures
        cursor_at(gs, SCALE as int, SCALE as int, k + 1) - cursor_at(gs, SCALE as int, SCALE as int, k)
            == gs[k].period * SCALE,
{
    let p = gs[k].period as int;
    assert(p * SCALE * SCALE == (p * SCALE) * SCALE) by (nonlinear_arith);
    vstd::arithmetic::div_mod::lemma_div_by_multiple(p * SCALE, SCALE as int);
    assert(p * SCALE * SCALE / (SCALE as int) == p * SCALE);
    assert(p * SCALE >= SCALE) by (nonlinear_arith)
        requires
            p >= 1,
            SCALE == 32768,
    ;
    assert(spec_adv(p, SCALE as int, SCALE as int) == p * SCALE) by {
        assert((p * SCALE) * SCALE / (SCALE as int) == p * SCALE) by {
            vstd::arithmetic::div_mod::lemma_div_by_multiple(p * SCALE, SCALE as int);
        }
    }
}

/// Period totals are never negative.
pub proof fn lemma_sum_periods_nonneg(gs: Seq<Grain>)
    ensures
        sum_periods(gs) >= 0,
    decreases gs.len(),
{
    if gs.len() > 0 {
        lemma_sum_periods_nonneg(gs.drop_last());
    }
}

} // verus!
