//! Per-phoneme sample store and memoized pitch data.

use vstd::prelude::*;

use crate::buffer::{AudioBuffer, MidiNote};
use crate::ipa::Phoneme;
use crate::nice::{spec_log2, log2_q15};
use crate::psola::{spec_avg_period, spec_buffer_grains};
use crate::SCALE;

verus! {

/// Failure kinds surfaced by the synthesis core.
#[derive(Clone, Copy, Debug, PartialEq, Eq, Structural)]
pub enum SynthError {
    /// A backing sample could not be obtained for a phoneme.
    LoadFailure,
    /// No extractable grains: the signal has no usable periodicity.
    NoPeriodicSignal,
    /// Voiced-region detection found no energy above threshold.
    NoVoicedRegion,
    /// No pitch mark satisfies the splice constraints for the fade length.
    UnsatisfiableSplice,
    /// A caller-supplied parameter is out of range.
    InvalidParameter,
}

impl SynthError {
    /// A short description of the failure.
    pub fn describe(&self) -> &'static str {
        match self {
            SynthError::LoadFailure => "sample could not be loaded",
            SynthError::NoPeriodicSignal => "no periodic signal",
            SynthError::NoVoicedRegion => "no voiced region",
            SynthError::UnsatisfiableSplice => "unsatisfiable splice",
            SynthError::InvalidParameter => "invalid parameter",
        }
    }
}

/// The first value associated with key `p`, if any.
pub open spec fn assoc<T>(s: Seq<(Phoneme, T)>, p: Phoneme) -> Option<T>
    decreases s.len(),
{
    if s.len() == 0 {
        None
    } else if s[0].0 == p {
        Some(s[0].1)
    } else {
        assoc(s.drop_first(), p)
    }
}

/// The length of the fixed silence buffer the space phoneme yields.
pub const SILENCE_LEN: usize = 256;

/// The samples the cache serves for phoneme `p` from store `store`: a fixed
/// zero buffer for the space phoneme, the stored buffer otherwise, nothing
/// when no buffer is stored.
pub open spec fn spec_sample_seq(
    store: Seq<(Phoneme, AudioBuffer)>,
    p: Phoneme,
) -> Option<Seq<i64>> {
    if p is Space {
        Some(Seq::new(SILENCE_LEN as nat, |i: int| 0i64))
    } else {
        match assoc(store, p) {
            Some(b) => Some(b.samples@),
            None => None,
        }
    }
}

/// The base pitch of a sample: restrict to its voiced region (the whole
/// buffer if none), take the average grain period, and convert the implied
/// frequency to a Q15 MIDI semitone via `69 + 12 * log2(f / 440)`. Fails on
/// a signal with no extractable grains or a zero average period.
pub open spec fn spec_base_note_of(s: Seq<i64>, sample_rate: u32) -> Result<MidiNote, SynthError> {
    let region = match crate::crossfade::spec_voiced_region(s, sample_rate) {
        Some(p) => s.subrange(p.0 as int, p.1 as int),
        None => s,
    };
    if spec_buffer_grains(region, sample_rate).len() == 0 {
        Err(SynthError::NoPeriodicSignal)
    } else {
        let avg = spec_avg_period(region, sample_rate);
        if avg == 0 {
            Err(SynthError::NoPeriodicSignal)
        } else {
            Ok(
                MidiNote(
                    (69 * SCALE + 12 * (spec_log2(sample_rate as int * SCALE) - spec_log2(
                        avg * SCALE,
                    ) - spec_log2(440 * SCALE))) as i64,
                ),
            )
        }
    }
}

/// What the base-note lookup returns: the seeded or previously computed
/// pitch if cached, otherwise the pitch computed from the phoneme's sample.
pub open spec fn spec_base_note(
    store: Seq<(Phoneme, AudioBuffer)>,
    pitches: Seq<(Phoneme, MidiNote)>,
    sample_rate: u32,
    p: Phoneme,
) -> Result<MidiNote, SynthError> {
    match assoc(pitches, p) {
        Some(n) => Ok(n),
        None => match spec_sample_seq(store, p) {
            Some(s) => spec_base_note_of(s, sample_rate),
            None => Err(SynthError::LoadFailure),
        },
    }
}

/// What the pitch-mark lookup computes for a sample: analysis windows, then
/// the mark walk.
pub open spec fn spec_marks_of(s: Seq<i64>, sample_rate: u32) -> Seq<usize> {
    crate::psola::spec_marks(
        s.len() as int,
        crate::window_calc::spec_analysis(s, sample_rate),
    )
}

/// Lazily computed per-phoneme voice data: a fixed store of raw samples,
/// and memoized base pitches and pitch marks, each computed at most once.
#[derive(Clone, Debug)]
pub struct Voice {
    sample_rate: u32,
    store: Vec<(Phoneme, AudioBuffer)>,
    pitches: Vec<(Phoneme, MidiNote)>,
    pitch_marks: Vec<(Phoneme, Vec<usize>)>,
}

impl Voice {
    /// Every stored buffer is usable and plays at the voice's rate, and
    /// every seeded pitch is within the accepted semitone range.
    pub closed spec fn wf(&self) -> bool {
        &&& self.sample_rate >= 1
        &&& forall|i: int|
            0 <= i < self.store@.len() ==> (#[trigger] self.store@[i]).1.wf()
                && self.store@[i].1.sample_rate == self.sample_rate
        &&& forall|i: int|
            0 <= i < self.pitches@.len() ==> -0x100_0000_0000 <= (#[trigger] self.pitches@[i]).1.0
                <= 0x100_0000_0000
    }

    /// The voice's sample store.
    pub closed spec fn spec_store(&self) -> Seq<(Phoneme, AudioBuffer)> {
        self.store@
    }

    /// The voice's pitch cache.
    pub closed spec fn spec_pitches(&self) -> Seq<(Phoneme, MidiNote)> {
        self.pitches@
    }

    /// The voice's pitch-mark cache.
    pub closed spec fn spec_pitch_marks(&self) -> Seq<(Phoneme, Vec<usize>)> {
        self.pitch_marks@
    }

    /// The voice's sample rate.
    pub closed spec fn spec_sample_rate(&self) -> u32 {
        self.sample_rate
    }

    /// A voice over the given store, with the given pitches pre-seeded and
    /// no pitch marks computed yet.
    pub fn new(
        sample_rate: u32,
        store: Vec<(Phoneme, AudioBuffer)>,
        pitches: Vec<(Phoneme, MidiNote)>,
    ) -> (r: Voice)
        requires
            sample_rate >= 1,
            forall|i: int|
                0 <= i < store@.len() ==> (#[trigger] store@[i]).1.wf() && store@[i].1.sample_rate
                    == sample_rate,
            forall|i: int|
                0 <= i < pitches@.len() ==> -0x100_0000_0000 <= (#[trigger] pitches@[i]).1.0
                    <= 0x100_0000_0000,
        ensures
            r.wf(),
            r.spec_sample_rate() == sample_rate,
            r.spec_store() == store@,
            r.spec_pitches() == pitches@,
            r.spec_pitch_marks() == Seq::<(Phoneme, Vec<usize>)>::empty(),
    {
        let v = Voice { sample_rate, store, pitches, pitch_marks: Vec::new() };
        proof {
            assert(v.pitch_marks@ =~= Seq::<(Phoneme, Vec<usize>)>::empty());
        }
        v
    }

    pub fn sample_rate(&self) -> (r: u32)
        ensures
            r == self.spec_sample_rate(),
    {
        self.sample_rate
    }

    /// The raw mono buffer for a phoneme: silence for the space phoneme, the
    /// stored buffer otherwise; a load failure when none is stored.
    pub fn sample(&self, phoneme: Phoneme) -> (r: Result<AudioBuffer, SynthError>)
        requires
            self.wf(),
        ensures
            match r {
                Ok(b) => spec_sample_seq(self.spec_store(), phoneme) == Some(b.samples@)
                    && b.sample_rate == self.spec_sample_rate() && b.wf(),
                Err(e) => e == SynthError::LoadFailure && spec_sample_seq(
                    self.spec_store(),
                    phoneme,
                ) is None,
            },
    {
        if let Phoneme::Space = phoneme {
            let samples = crate::psola::zeros(SILENCE_LEN);
            proof {
                assert(samples@ =~= Seq::new(SILENCE_LEN as nat, |i: int| 0i64));
            }
            return Ok(AudioBuffer { sample_rate: self.sample_rate, samples });
        }
        proof {
            assert(self.store@.skip(0) =~= self.store@);
        }
        let mut i: usize = 0;
        while i < self.store.len()
            invariant
                self.wf(),
                i <= self.store@.len(),
                assoc(self.store@, phoneme) == assoc(self.store@.skip(i as int), phoneme),
                !(phoneme is Space),
            decreases self.store@.len() - i,
        {
            proof {
                assert(self.store@.skip(i as int)[0] == self.store@[i as int]);
                assert(self.store@.skip(i as int).drop_first() =~= self.store@.skip(i + 1 as int));
            }
            if self.store[i].0 == phoneme {
                let b = self.store[i].1.duplicate();
                return Ok(b);
            }
            i += 1;
        }
        proof {
            assert(self.store@.skip(self.store@.len() as int) =~= Seq::<(
                Phoneme,
                AudioBuffer,
            )>::empty());
        }
        Err(SynthError::LoadFailure)
    }

    /// The base pitch of a phoneme as a Q15 MIDI semitone, seeded or
    /// estimated from its sample on first request and memoized
    /// (see [`spec_base_note`]).
    pub fn base_note(&mut self, phoneme: Phoneme) -> (r: Result<MidiNote, SynthError>)
        requires
            old(self).wf(),
        ensures
            final(self).wf(),
            final(self).spec_sample_rate() == old(self).spec_sample_rate(),
            final(self).spec_store() == old(self).spec_store(),
            final(self).spec_pitch_marks() == old(self).spec_pitch_marks(),
            r == spec_base_note(
                old(self).spec_store(),
                old(self).spec_pitches(),
                old(self).spec_sample_rate(),
                phoneme,
            ),
            r is Ok ==> -0x100_0000_0000 <= r->Ok_0.0 <= 0x100_0000_0000,
            match r {
                Ok(n) => if assoc(old(self).spec_pitches(), phoneme) is Some {
                    final(self).spec_pitches() == old(self).spec_pitches()
                } else {
                    final(self).spec_pitches() == old(self).spec_pitches().push((phoneme, n))
                },
                Err(_) => final(self).spec_pitches() == old(self).spec_pitches(),
            },
    {
        let ghost sr = self.sample_rate;
        proof {
            assert(self.pitches@.skip(0) =~= self.pitches@);
        }
        let mut i: usize = 0;
        while i < self.pitches.len()
            invariant
                *self == *old(self),
                old(self).wf(),
                i <= self.pitches@.len(),
                assoc(self.pitches@, phoneme) == assoc(self.pitches@.skip(i as int), phoneme),
            decreases self.pitches@.len() - i,
        {
            proof {
                assert(self.pitches@.skip(i as int)[0] == self.pitches@[i as int]);
                assert(self.pitches@.skip(i as int).drop_first() =~= self.pitches@.skip(
                    i + 1 as int,
                ));
            }
            if self.pitches[i].0 == phoneme {
                return Ok(self.pitches[i].1);
            }
            i += 1;
        }
        proof {
            assert(self.pitches@.skip(self.pitches@.len() as int) =~= Seq::<(
                Phoneme,
                MidiNote,
            )>::empty());
        }

        let sample = match self.sample(phoneme) {
            Ok(b) => b,
            Err(e) => {
                return Err(e);
            },
        };

        let region = match crate::crossfade::find_voiced_region(&sample) {
            Some((a, b)) => AudioBuffer {
                sample_rate: sample.sample_rate,
                samples: crate::buffer::copy_samples(&sample.samples, a, b),
            },
            None => sample,
        };
        proof {
            assert(region.wf());
        }

        let windows = crate::window_calc::find_window(&region);
        let marks = crate::psola::generate_pitch_marks(&region, windows.as_slice());
        proof {
            if windows@.len() > 0 {
                crate::psola::lemma_marks_from_count(
                    region.samples@.len() as int,
                    windows@,
                    windows@[0].0 as int,
                    0,
                );
            }
        }
        let grains = crate::psola::extract_grains(&region, marks.as_slice(), windows.as_slice());
        if grains.len() == 0 {
            return Err(SynthError::NoPeriodicSignal);
        }
        let avg = crate::psola::get_avg_period(&region);
        if avg == 0 {
            return Err(SynthError::NoPeriodicSignal);
        }

        let l_sr = log2_q15(self.sample_rate as i64 * SCALE);
        let l_avg = log2_q15(avg as i64 * SCALE);
        let l_ref = log2_q15(440 * SCALE);
        let note = MidiNote(69 * SCALE + 12 * (l_sr - l_avg - l_ref));
        self.pitches.push((phoneme, note));
        Ok(note)
    }

    /// The pitch marks of a phoneme's full raw sample, computed on first
    /// request and memoized (see [`spec_marks_of`]).
    pub fn pitch_marks(&mut self, phoneme: Phoneme) -> (r: Result<Vec<usize>, SynthError>)
        requires
            old(self).wf(),
        ensures
            final(self).wf(),
            final(self).spec_sample_rate() == old(self).spec_sample_rate(),
            final(self).spec_store() == old(self).spec_store(),
            final(self).spec_pitches() == old(self).spec_pitches(),
            match r {
                Ok(ms) => match assoc(old(self).spec_pitch_marks(), phoneme) {
                    Some(cached) => ms@ == cached@ && final(self).spec_pitch_marks() == old(
                        self,
                    ).spec_pitch_marks(),
                    None => spec_sample_seq(old(self).spec_store(), phoneme) is Some && ms@
                        == spec_marks_of(
                        spec_sample_seq(old(self).spec_store(), phoneme)->Some_0,
                        old(self).spec_sample_rate(),
                    ) && (exists|c: Vec<usize>|
                        final(self).spec_pitch_marks() == old(self).spec_pitch_marks().push(
                            (phoneme, c),
                        ) && c@ == ms@),
                },
                Err(e) => e == SynthError::LoadFailure && final(self).spec_pitch_marks() == old(
                    self,
                ).spec_pitch_marks(),
            },
    {
        proof {
            assert(self.pitch_marks@.skip(0) =~= self.pitch_marks@);
        }
        let mut i: usize = 0;
        while i < self.pitch_marks.len()
            invariant
                *self == *old(self),
                old(self).wf(),
                i <= self.pitch_marks@.len(),
                assoc(self.pitch_marks@, phoneme) == assoc(
                    self.pitch_marks@.skip(i as int),
                    phoneme,
                ),
            decreases self.pitch_marks@.len() - i,
        {
            proof {
                assert(self.pitch_marks@.skip(i as int)[0] == self.pitch_marks@[i as int]);
                assert(self.pitch_marks@.skip(i as int).drop_first() =~= self.pitch_marks@.skip(
                    i + 1 as int,
                ));
            }
            if self.pitch_marks[i].0 == phoneme {
                let cached = &self.pitch_marks[i].1;
                let mut out: Vec<usize> = Vec::new();
                let mut j: usize = 0;
                while j < cached.len()
                    invariant
                        j <= cached@.len(),
                        out@ == cached@.take(j as int),
                    decreases cached@.len() - j,
                {
                    out.push(cached[j]);
                    proof {
                        assert(out@ =~= cached@.take(j + 1 as int));
                    }
                    j += 1;
                }
                proof {
                    assert(out@ =~= cached@);
                }
                return Ok(out);
            }
            i += 1;
        }
        proof {
            assert(self.pitch_marks@.skip(self.pitch_marks@.len() as int) =~= Seq::<(
                Phoneme,
                Vec<usize>,
            )>::empty());
        }

        let sample = match self.sample(phoneme) {
            Ok(b) => b,
            Err(e) => {
                return Err(e);
            },
        };
        let windows = crate::window_calc::find_window(&sample);
        let marks = crate::psola::generate_pitch_marks(&sample, windows.as_slice());
        let mut copy: Vec<usize> = Vec::new();
        let mut j: usize = 0;
        while j < marks.len()
            invariant
                j <= marks@.len(),
                copy@ == marks@.take(j as int),
            decreases marks@.len() - j,
        {
            copy.push(marks[j]);
            proof {
                assert(copy@ =~= marks@.take(j + 1 as int));
            }
            j += 1;
        }
        proof {
            assert(copy@ =~= marks@);
        }
        let ghost stored = copy;
        self.pitch_marks.push((phoneme, copy));
        proof {
            assert(final(self).spec_pitch_marks() == old(self).spec_pitch_marks().push(
                (phoneme, stored),
            ));
        }
        Ok(marks)
    }
}

} // verus!
