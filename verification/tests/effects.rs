//! Naive resampling and overlap-add effects.

use voxlab::buffer::AudioBuffer;
use voxlab::nice::low_pass;
use voxlab::pitch::{pitch_glide, pitch_shift};
use voxlab::stretch::{time_glide, time_stretch};
use voxlab::SCALE;

fn sine(sample_rate: u32, period: usize, len: usize, amp: f64) -> AudioBuffer {
    let mut samples = Vec::with_capacity(len);
    for i in 0..len {
        let x = (i as f64) * 2.0 * std::f64::consts::PI / (period as f64);
        samples.push((x.sin() * amp * (SCALE as f64)) as i64);
    }
    AudioBuffer { sample_rate, samples }
}

#[test]
fn pitch_shift_identity_copies() {
    let buf = sine(44100, 100, 2000, 0.5);
    let out = pitch_shift(&buf, SCALE);
    assert_eq!(out.sample_rate, 44100);
    assert_eq!(out.samples, buf.samples);
}

#[test]
fn pitch_shift_up_halves_length() {
    let buf = sine(44100, 100, 2000, 0.5);
    let out = pitch_shift(&buf, 2 * SCALE);
    assert_eq!(out.samples.len(), 1000);
    // Every output sample reads the input two positions on.
    assert_eq!(out.samples[10], buf.samples[20]);
}

#[test]
fn pitch_shift_down_interpolates() {
    let buf = AudioBuffer { sample_rate: 8000, samples: vec![0, 1000, 2000, 3000] };
    let out = pitch_shift(&buf, SCALE / 2);
    assert_eq!(out.samples.len(), 8);
    assert_eq!(out.samples[0], 0);
    assert_eq!(out.samples[1], 500);
    assert_eq!(out.samples[2], 1000);
    assert_eq!(out.samples[3], 1500);
}

#[test]
fn time_stretch_doubles_length_roughly() {
    let buf = sine(44100, 100, 8192, 0.5);
    let out = time_stretch(&buf, 2 * SCALE);
    assert_eq!(out.sample_rate, 44100);
    assert_eq!(out.samples.len(), 2 * 8192);
    assert!(out.samples.iter().any(|&s| s != 0));
}

#[test]
fn time_stretch_short_buffer_is_silent() {
    let buf = sine(44100, 100, 512, 0.5);
    let out = time_stretch(&buf, SCALE);
    assert_eq!(out.samples.len(), 512);
    assert!(out.samples.iter().all(|&s| s == 0), "no frame fits, nothing is laid down");
}

#[test]
fn low_pass_smooths_toward_input() {
    let vals = vec![0i64, 32768, 32768, 32768];
    let out = low_pass(&vals, SCALE / 2);
    assert_eq!(out, vec![0, 16384, 24576, 28672]);
    let constant = vec![77i64; 5];
    assert_eq!(low_pass(&constant, 6554), constant);
}

#[test]
fn pitch_glide_constant_curve_matches_resample() {
    let buf = sine(44100, 100, 2000, 0.5);
    // A constant unit-ratio curve: the glide reads successive samples.
    let curve = vec![SCALE; 2100];
    let out = pitch_glide(&buf, &curve);
    assert_eq!(out.sample_rate, 44100);
    assert!(out.samples.len() >= 1990, "len {}", out.samples.len());
    assert!(out.samples.len() <= 2000);
    // The first output reads input position 1.0, exactly sample one.
    assert_eq!(out.samples[0], buf.samples[1]);
}

#[test]
fn pitch_glide_stops_when_curve_runs_out() {
    let buf = sine(44100, 100, 2000, 0.5);
    let curve = vec![SCALE; 10];
    let out = pitch_glide(&buf, &curve);
    assert_eq!(out.samples.len(), 10);
}

#[test]
fn time_glide_with_constant_curve_matches_time_stretch() {
    let buf = sine(44100, 100, 8192, 0.5);
    let frames = (8192 - 1024 - 1) / 256 + 1;
    let glided = time_glide(&buf, &vec![SCALE; frames]);
    let stretched = time_stretch(&buf, SCALE);
    assert_eq!(glided.samples, stretched.samples);
}

#[test]
fn time_glide_extends_output_when_stretching() {
    let buf = sine(44100, 100, 4096, 0.5);
    let frames = (4096 - 1024 - 1) / 256 + 1;
    let out = time_glide(&buf, &vec![3 * SCALE; frames]);
    assert!(out.samples.len() > 4096, "len {}", out.samples.len());
}
