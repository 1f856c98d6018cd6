//! WAV byte-stream decoding and encoding.
//!
//! The calls into `hound` work purely on in-memory bytes; reading and
//! writing files stays with the caller.

use vstd::prelude::*;

use crate::buffer::AudioBuffer;
use crate::nice::spec_pow2;
use crate::samples::SynthError;
use crate::{div_trunc, MAX_ABS, MAX_LEN, SCALE};

verus! {

#[verifier::external_type_specification]
#[verifier::external_body]
pub struct ExHoundError(hound::Error);

/// What decoding a WAV byte stream as integer PCM yields: the sample rate,
/// channel count, bits per sample, and raw interleaved integer samples; or
/// nothing, for bytes that are not a WAV stream of integer samples.
pub uninterp spec fn wav_pcm(b: Seq<u8>) -> Option<(u32, u16, u16, Seq<i64>)>;

/// The WAV byte stream that encodes the given samples as mono 16-bit
/// integer PCM at the given rate.
pub uninterp spec fn wav_encoding(sample_rate: u32, samples: Seq<i16>) -> Seq<u8>;

/// Relies on `hound::WavReader::new`, `spec` and `samples::<i32>` over an
/// in-memory cursor: together they decode a WAV byte stream's header and
/// its integer PCM samples, a function of the bytes alone; streams that are
/// malformed or hold float samples decode to an error.
#[verifier::external_body]
fn decode_wav_bytes(bytes: &Vec<u8>) -> (r: Result<(u32, u16, u16, Vec<i64>), hound::Error>)
    ensures
        (r is Ok) == (wav_pcm(bytes@) is Some),
        r is Ok ==> ({
            let t = wav_pcm(bytes@)->Some_0;
            r->Ok_0.0 == t.0 && r->Ok_0.1 == t.1 && r->Ok_0.2 == t.2 && r->Ok_0.3@ == t.3
        }),
{
    let mut reader = hound::WavReader::new(std::io::Cursor::new(bytes.as_slice()))?;
    let spec = reader.spec();
    let samples: Result<Vec<i64>, hound::Error> =
        reader.samples::<i32>().map(|s| s.map(|v| v as i64)).collect();
    Ok((spec.sample_rate, spec.channels, spec.bits_per_sample, samples?))
}

/// Relies on `hound::WavWriter::new`, `write_sample::<i16>` and `finalize`
/// over an in-memory cursor: together they encode mono 16-bit integer PCM
/// at the given rate, a function of the arguments alone. For this fixed
/// sixteen-bit mono integer format the writer accepts the spec, in-memory
/// writes cannot fail, and the writer's internal byte counter stays within
/// range for the admitted sample counts, so encoding always succeeds.
#[verifier::external_body]
fn encode_wav_bytes(sample_rate: u32, samples: &Vec<i16>) -> (r: Result<Vec<u8>, hound::Error>)
    requires
        samples@.len() <= 0x4000_0000,
    ensures
        r is Ok,
        r is Ok ==> r->Ok_0@ == wav_encoding(sample_rate, samples@),
{
    let spec = hound::WavSpec {
        channels: 1,
        sample_rate,
        bits_per_sample: 16,
        sample_format: hound::SampleFormat::Int,
    };
    let mut cursor = std::io::Cursor::new(Vec::new());
    let mut writer = hound::WavWriter::new(&mut cursor, spec)?;
    samples.iter().try_for_each(|&s| writer.write_sample(s))?;
    writer.finalize()?;
    Ok(cursor.into_inner())
}

/// A raw integer PCM sample rescaled to Q15: divided by half the sample
/// width, clamped into the processing headroom.
pub open spec fn spec_pcm_to_q15(v: int, bits: int) -> int {
    let scaled = div_trunc(v * SCALE, spec_pow2(bits - 1));
    if scaled > MAX_ABS {
        MAX_ABS as int
    } else if scaled < -MAX_ABS {
        -MAX_ABS as int
    } else {
        scaled
    }
}

/// What importing a WAV byte stream yields: the decoded rate and the
/// samples rescaled to Q15, or a load failure for bytes that do not decode
/// as mono integer PCM within the supported width and length.
pub open spec fn spec_import(b: Seq<u8>) -> Result<(u32, Seq<i64>), SynthError> {
    match wav_pcm(b) {
        None => Err(SynthError::LoadFailure),
        Some(t) => {
            let (rate, channels, bits, vs) = t;
            if channels != 1 || bits == 0 || bits > 32 || rate == 0 || vs.len() > MAX_LEN {
                Err(SynthError::LoadFailure)
            } else {
                Ok((rate, Seq::new(vs.len(), |i: int| spec_pcm_to_q15(vs[i] as int, bits as int) as i64)))
            }
        },
    }
}

/// Import a mono WAV byte stream of integer PCM samples and convert it to a
/// normalized Q15 [`AudioBuffer`] (see [`spec_import`]). Stereo streams,
/// float streams, and streams outside the supported width or length are
/// rejected as load failures.
pub fn import_wav(bytes: &Vec<u8>) -> (r: Result<AudioBuffer, SynthError>)
    ensures
        match r {
            Ok(b) => spec_import(bytes@) == Ok::<(u32, Seq<i64>), SynthError>(
                (b.sample_rate, b.samples@),
            ) && b.wf(),
            Err(e) => spec_import(bytes@) == Err::<(u32, Seq<i64>), SynthError>(e),
        },
{
    let (rate, channels, bits, raw) = match decode_wav_bytes(bytes) {
        Ok(t) => t,
        Err(_) => {
            return Err(SynthError::LoadFailure);
        },
    };
    if channels != 1 || bits == 0 || bits > 32 || rate == 0 || raw.len() > MAX_LEN {
        return Err(SynthError::LoadFailure);
    }
    let half_width = crate::nice::pow2_i64((bits - 1) as u32);
    let mut samples: Vec<i64> = Vec::new();
    let mut i: usize = 0;
    while i < raw.len()
        invariant
            1 <= bits <= 32,
            half_width == spec_pow2(bits - 1),
            1 <= half_width,
            i <= raw@.len(),
            samples@.len() == i,
            forall|k: int|
                0 <= k < i ==> #[trigger] samples@[k] == spec_pcm_to_q15(
                    raw@[k] as int,
                    bits as int,
                ),
            forall|k: int| 0 <= k < i ==> -MAX_ABS <= #[trigger] samples@[k] <= MAX_ABS,
        decreases raw@.len() - i,
    {
        let v = raw[i];
        let prod: i128 = (v as i128) * (SCALE as i128);
        let scaled: i128 = if prod >= 0 {
            prod / (half_width as i128)
        } else {
            -((-prod) / (half_width as i128))
        };
        proof {
            assert(scaled == div_trunc(v as int * SCALE, spec_pow2(bits - 1)));
        }
        let q: i64 = if scaled > MAX_ABS as i128 {
            MAX_ABS
        } else if scaled < -MAX_ABS as i128 {
            -MAX_ABS
        } else {
            scaled as i64
        };
        samples.push(q);
        i += 1;
    }
    proof {
        assert(samples@ =~= spec_import(bytes@)->Ok_0.1);
    }
    Ok(AudioBuffer { sample_rate: rate, samples })
}

/// A Q15 sample narrowed to a 16-bit PCM sample, clamping full scale to the
/// widest representable value.
pub open spec fn spec_q15_to_i16(s: int) -> int {
    if s > 32767 {
        32767
    } else if s < -32767 {
        -32767
    } else {
        s
    }
}

/// What exporting a buffer yields: its samples narrowed to 16-bit PCM and
/// encoded as a mono WAV byte stream at the buffer's rate.
pub open spec fn spec_export(sample_rate: u32, s: Seq<i64>) -> Seq<u8> {
    wav_encoding(sample_rate, Seq::new(s.len(), |i: int| spec_q15_to_i16(s[i] as int) as i16))
}

/// Encode a buffer as a mono 16-bit integer PCM WAV byte stream
/// (see [`spec_export`]). Encoding a well-formed buffer always succeeds.
pub fn export_wav(buffer: &AudioBuffer) -> (r: Result<Vec<u8>, SynthError>)
    requires
        buffer.wf(),
    ensures
        r is Ok,
        r is Ok ==> r->Ok_0@ == spec_export(buffer.sample_rate, buffer.samples@),
{
    let mut narrow: Vec<i16> = Vec::new();
    let mut i: usize = 0;
    while i < buffer.samples.len()
        invariant
            buffer.wf(),
            i <= buffer.samples@.len(),
            narrow@.len() == i,
            forall|k: int|
                0 <= k < i ==> #[trigger] narrow@[k] == spec_q15_to_i16(buffer.samples@[k] as int),
        decreases buffer.samples@.len() - i,
    {
        let s = buffer.samples[i];
        let c: i16 = if s > 32767 {
            32767
        } else if s < -32767 {
            -32767
        } else {
            s as i16
        };
        narrow.push(c);
        i += 1;
    }
    proof {
        assert(narrow@ =~= Seq::new(
            buffer.samples@.len(),
            |i: int| spec_q15_to_i16(buffer.samples@[i] as int) as i16,
        ));
    }
    match encode_wav_bytes(buffer.sample_rate, &narrow) {
        Ok(bytes) => Ok(bytes),
        Err(_) => Err(SynthError::LoadFailure),
    }
}

} // verus!
