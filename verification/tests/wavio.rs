//! WAV byte-stream round trips through the real encoder and decoder.

use voxlab::buffer::AudioBuffer;
use voxlab::samples::SynthError;
use voxlab::wav::{export_wav, import_wav};

#[test]
fn export_import_round_trip() {
    let buf = AudioBuffer { sample_rate: 22050, samples: vec![0, 100, -100, 32767, -32767, 5] };
    let bytes = export_wav(&buf).expect("encode");
    assert!(!bytes.is_empty());
    let back = import_wav(&bytes).expect("decode");
    assert_eq!(back.sample_rate, 22050);
    assert_eq!(back.samples, buf.samples);
}

#[test]
fn export_clamps_full_scale() {
    let buf = AudioBuffer { sample_rate: 8000, samples: vec![32768, -40000] };
    let bytes = export_wav(&buf).expect("encode");
    let back = import_wav(&bytes).expect("decode");
    assert_eq!(back.samples, vec![32767, -32767]);
}

#[test]
fn import_rejects_garbage() {
    let bytes = vec![1u8, 2, 3, 4, 5];
    assert_eq!(import_wav(&bytes).unwrap_err(), SynthError::LoadFailure);
}

#[test]
fn import_rejects_stereo() {
    let spec = hound::WavSpec {
        channels: 2,
        sample_rate: 44100,
        bits_per_sample: 16,
        sample_format: hound::SampleFormat::Int,
    };
    let mut cursor = std::io::Cursor::new(Vec::new());
    let mut writer = hound::WavWriter::new(&mut cursor, spec).expect("writer");
    for s in [1i16, 2, 3, 4] {
        writer.write_sample(s).expect("sample");
    }
    writer.finalize().expect("finalize");
    let bytes = cursor.into_inner();
    assert_eq!(import_wav(&bytes).unwrap_err(), SynthError::LoadFailure);
}

#[test]
fn import_rejects_float_samples() {
    let spec = hound::WavSpec {
        channels: 1,
        sample_rate: 44100,
        bits_per_sample: 32,
        sample_format: hound::SampleFormat::Float,
    };
    let mut cursor = std::io::Cursor::new(Vec::new());
    let mut writer = hound::WavWriter::new(&mut cursor, spec).expect("writer");
    writer.write_sample(0.5f32).expect("sample");
    writer.finalize().expect("finalize");
    let bytes = cursor.into_inner();
    assert_eq!(import_wav(&bytes).unwrap_err(), SynthError::LoadFailure);
}

#[test]
fn import_scales_eight_bit_samples() {
    let spec = hound::WavSpec {
        channels: 1,
        sample_rate: 8000,
        bits_per_sample: 8,
        sample_format: hound::SampleFormat::Int,
    };
    let mut cursor = std::io::Cursor::new(Vec::new());
    let mut writer = hound::WavWriter::new(&mut cursor, spec).expect("writer");
    for s in [0i8, 64, -64] {
        writer.write_sample(s).expect("sample");
    }
    writer.finalize().expect("finalize");
    let bytes = cursor.into_inner();
    let buf = import_wav(&bytes).expect("decode");
    // 64 of 128 is half scale: 16384 in Q15.
    assert_eq!(buf.samples, vec![0, 16384, -16384]);
}
