//! PSOLA resynthesis behavior.

use voxlab::buffer::AudioBuffer;
use voxlab::psola::psola_constant;
use voxlab::SCALE;

fn sine(sample_rate: u32, period: usize, len: usize, amp: f64) -> AudioBuffer {
    let mut samples = Vec::with_capacity(len);
    for i in 0..len {
        let x = (i as f64) * 2.0 * std::f64::consts::PI / (period as f64);
        samples.push((x.sin() * amp * (SCALE as f64)) as i64);
    }
    AudioBuffer { sample_rate, samples }
}

#[test]
fn identity_ratio_keeps_length_within_tolerance() {
    let buf = sine(44100, 200, 8192, 0.8);
    let out = psola_constant(&buf, SCALE, SCALE);
    assert_eq!(out.sample_rate, 44100);
    let diff = (out.samples.len() as i64 - buf.samples.len() as i64).abs();
    assert!(diff <= 2048, "length diff {diff}");
}

#[test]
fn output_peak_is_normalized() {
    let buf = sine(44100, 200, 8192, 1.9);
    let out = psola_constant(&buf, SCALE / 2, SCALE);
    assert!(!out.samples.is_empty());
    for &s in &out.samples {
        assert!(s.abs() <= SCALE, "sample {s}");
    }
}

#[test]
fn short_buffer_returned_unchanged() {
    let buf = sine(44100, 200, 1000, 0.8);
    let out = psola_constant(&buf, 2 * SCALE, SCALE);
    assert_eq!(out.samples, buf.samples);
    assert_eq!(out.sample_rate, buf.sample_rate);
}

#[test]
fn pitch_ratio_shortens_output() {
    let buf = sine(44100, 200, 8192, 0.8);
    let up = psola_constant(&buf, 2 * SCALE, SCALE);
    assert!(up.samples.len() < 8192 * 3 / 4, "len {}", up.samples.len());
}

#[test]
fn time_stretch_lengthens_output() {
    let buf = sine(44100, 200, 8192, 0.8);
    let out = psola_constant(&buf, SCALE, 2 * SCALE);
    assert!(out.samples.len() > 8192 * 5 / 4, "len {}", out.samples.len());
    let diff = (out.samples.len() as i64 - 2 * 8192).abs();
    assert!(diff <= 4096, "stretch diff {diff}");
}
