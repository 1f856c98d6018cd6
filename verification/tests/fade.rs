//! Transition weights, splice searches, and crossfading.

use voxlab::buffer::AudioBuffer;
use voxlab::crossfade::{align_b_start, corr, crossfade, find_cut_a, find_start_b, transition_t,
    GrainInterp};
use voxlab::samples::SynthError;
use voxlab::SCALE;

fn sine(sample_rate: u32, period: usize, len: usize, amp: f64) -> AudioBuffer {
    let mut samples = Vec::with_capacity(len);
    for i in 0..len {
        let x = (i as f64) * 2.0 * std::f64::consts::PI / (period as f64);
        samples.push((x.sin() * amp * (SCALE as f64)) as i64);
    }
    AudioBuffer { sample_rate, samples }
}

#[test]
fn transition_weight_boundaries() {
    let len = 10usize;
    assert_eq!(transition_t(0, len), 0);
    assert_eq!(transition_t(len - 1, len), SCALE);
    assert_eq!(transition_t(len / 2, len), SCALE / 2);
    assert_eq!(transition_t(len / 2 - 1, len), SCALE / 2);
    for k in 0..len {
        let t = transition_t(k, len);
        assert!((0..=SCALE).contains(&t));
    }
}

#[test]
fn transition_weight_monotone_outside_plateau() {
    let len = 64usize;
    let mut prev = -1i64;
    for k in 0..len {
        let t = transition_t(k, len);
        assert!(t >= prev, "k {k}");
        prev = t;
    }
}

#[test]
fn transition_weight_tiny_fades() {
    assert_eq!(transition_t(0, 2), SCALE / 2);
    assert_eq!(transition_t(1, 2), SCALE / 2);
}

#[test]
fn cut_and_start_searches() {
    let marks = [100usize, 300, 500, 700];
    assert_eq!(find_cut_a(&marks, 650, 200, 50), Some(500));
    assert_eq!(find_cut_a(&marks, 90, 200, 50), None);
    assert_eq!(find_start_b(&marks, 250, 100, 50, 1000), Some(300));
    assert_eq!(find_start_b(&marks, 800, 100, 50, 1000), None);
}

#[test]
fn corr_is_dot_product() {
    let a = [1i64, 2, 3];
    let b = [4i64, 5, 6];
    assert_eq!(corr(&a, &b), 1 * 4 + 2 * 5 + 3 * 6);
}

#[test]
fn align_falls_back_near_edges() {
    let a = vec![0i64; 100];
    let b = vec![0i64; 100];
    assert_eq!(align_b_start(&a, &b, 5, 50, 20), 50);
}

#[test]
fn align_recovers_phase_shift() {
    let src = sine(44100, 100, 2000, 0.8);
    let a = &src.samples;
    let shifted = sine(44100, 100, 2000, 0.8);
    let b = &shifted.samples;
    let found = align_b_start(a, b, 1000, 970, 50);
    assert_eq!(found, 950);
}

#[test]
fn crossfade_succeeds_on_voiced_tones() {
    let a = sine(44100, 200, 16384, 0.8);
    let b = sine(44100, 200, 16384, 0.8);
    let out = crossfade(&a, &b, &GrainInterp { target_grain: 0, fade_len: 500 })
        .expect("crossfade");
    assert_eq!(out.sample_rate, 44100);
    assert!(!out.samples.is_empty());
    assert!(out.samples.len() <= 2 * 16384);
}

#[test]
fn crossfade_rejects_degenerate_fade() {
    let a = sine(44100, 200, 16384, 0.8);
    let b = sine(44100, 200, 16384, 0.8);
    let r = crossfade(&a, &b, &GrainInterp { target_grain: 0, fade_len: 1 });
    assert_eq!(r.unwrap_err(), SynthError::InvalidParameter);
}

#[test]
fn crossfade_without_periodicity_fails() {
    let a = sine(44100, 200, 800, 0.8);
    let b = sine(44100, 200, 16384, 0.8);
    let r = crossfade(&a, &b, &GrainInterp { target_grain: 0, fade_len: 100 });
    assert_eq!(r.unwrap_err(), SynthError::NoPeriodicSignal);
}

#[test]
fn crossfade_without_voiced_region_fails() {
    // Shorter than one 10 ms detection window at this rate, but long enough
    // to carry extractable grains.
    let a = sine(300000, 500, 2900, 0.8);
    let b = sine(300000, 500, 2900, 0.8);
    let r = crossfade(&a, &b, &GrainInterp { target_grain: 0, fade_len: 100 });
    assert_eq!(r.unwrap_err(), SynthError::NoVoicedRegion);
}

#[test]
fn crossfade_with_oversized_fade_fails() {
    let a = sine(44100, 200, 8192, 0.8);
    let b = sine(44100, 200, 8192, 0.8);
    let r = crossfade(&a, &b, &GrainInterp { target_grain: 0, fade_len: 50000 });
    assert_eq!(r.unwrap_err(), SynthError::UnsatisfiableSplice);
}
