//! Audio storage.

use vstd::prelude::*;

use crate::{MAX_ABS, MAX_LEN};

verus! {

/// Mono audio buffer of Q15 fixed-point samples.
#[derive(Clone, Debug, PartialEq)]
pub struct AudioBuffer {
    pub sample_rate: u32,
    pub samples: Vec<i64>,
}

/// A semitone value on the MIDI scale, in Q15 fixed point
/// (so `69 * SCALE` is concert A at 440 Hz).
#[derive(Clone, Copy, Debug, PartialEq, Eq, Structural)]
pub struct MidiNote(pub i64);

/// A Q15 sample sequence whose entries all fit the processing headroom.
pub open spec fn samples_bounded(s: Seq<i64>) -> bool {
    forall|i: int| 0 <= i < s.len() ==> -MAX_ABS <= #[trigger] s[i] <= MAX_ABS
}

impl AudioBuffer {
    /// A buffer every operation accepts: positive rate, a length that keeps
    /// index arithmetic in `usize`, and samples within the Q15 headroom.
    pub open spec fn wf(&self) -> bool {
        &&& self.sample_rate >= 1
        &&& self.samples@.len() <= MAX_LEN
        &&& samples_bounded(self.samples@)
    }

    pub fn len(&self) -> (r: usize)
        ensures
            r == self.samples@.len(),
    {
        self.samples.len()
    }

    /// Runtime check for [`AudioBuffer::wf`], for callers outside the library.
    pub fn is_well_formed(&self) -> (r: bool)
        ensures
            r == self.wf(),
    {
        if self.sample_rate < 1 || self.samples.len() > MAX_LEN {
            return false;
        }
        let mut i: usize = 0;
        while i < self.samples.len()
            invariant
                i <= self.samples@.len(),
                forall|j: int| 0 <= j < i ==> -MAX_ABS <= #[trigger] self.samples@[j] <= MAX_ABS,
            decreases self.samples@.len() - i,
        {
            let s = self.samples[i];
            if s < -MAX_ABS || s > MAX_ABS {
                return false;
            }
            i += 1;
        }
        true
    }

    /// An element-for-element copy of this buffer.
    pub fn duplicate(&self) -> (r: AudioBuffer)
        ensures
            r.sample_rate == self.sample_rate,
            r.samples@ == self.samples@,
    {
        let mut out: Vec<i64> = Vec::new();
        let mut i: usize = 0;
        while i < self.samples.len()
            invariant
                i <= self.samples@.len(),
                out@ == self.samples@.take(i as int),
            decreases self.samples@.len() - i,
        {
            out.push(self.samples[i]);
            proof {
                assert(out@ =~= self.samples@.take(i + 1 as int));
            }
            i += 1;
        }
        proof {
            assert(out@ =~= self.samples@);
        }
        AudioBuffer { sample_rate: self.sample_rate, samples: out }
    }
}

/// The samples of `v` between `a` (inclusive) and `b` (exclusive), copied.
pub fn copy_samples(v: &Vec<i64>, a: usize, b: usize) -> (r: Vec<i64>)
    requires
        a <= b <= v@.len(),
    ensures
        r@ == v@.subrange(a as int, b as int),
{
    let mut out: Vec<i64> = Vec::new();
    let mut i: usize = a;
    while i < b
        invariant
            a <= i <= b <= v@.len(),
            out@.len() == i - a,
            forall|k: int| 0 <= k < i - a ==> #[trigger] out@[k] == v@[a + k],
        decreases b - i,
    {
        out.push(v[i]);
        i += 1;
    }
    proof {
        assert(out@ =~= v@.subrange(a as int, b as int));
    }
    out
}

/// Append every sample of `src` to `out`, in order.
pub fn append_samples(out: &mut Vec<i64>, src: &Vec<i64>)
    ensures
        final(out)@ == old(out)@ + src@,
{
    let mut i: usize = 0;
    while i < src.len()
        invariant
            i <= src@.len(),
            out@ == old(out)@ + src@.take(i as int),
        decreases src@.len() - i,
    {
        out.push(src[i]);
        proof {
            assert(old(out)@ + src@.take(i + 1 as int) =~= (old(out)@ + src@.take(i as int)).push(
                src@[i as int],
            ));
        }
        i += 1;
    }
    proof {
        assert(old(out)@ + src@.take(src@.len() as int) =~= old(out)@ + src@);
    }
}

} // verus!
