//! Periodicity analysis, pitch marks, and grains on synthetic signals.

use voxlab::buffer::AudioBuffer;
use voxlab::psola::{extract_grains, generate_pitch_marks, get_avg_period, lag_at, last_mark_leq,
    first_mark_geq, upper_bound};
use voxlab::window::hann;
use voxlab::window_calc::{find_window, find_window_single};
use voxlab::SCALE;

fn sine(sample_rate: u32, period: usize, len: usize, amp: f64) -> AudioBuffer {
    let mut samples = Vec::with_capacity(len);
    for i in 0..len {
        let x = (i as f64) * 2.0 * std::f64::consts::PI / (period as f64);
        samples.push((x.sin() * amp * (SCALE as f64)) as i64);
    }
    AudioBuffer { sample_rate, samples }
}

#[test]
fn analysis_idempotent() {
    let buf = sine(44100, 200, 4096, 0.8);
    let w1 = find_window(&buf);
    let w2 = find_window(&buf);
    assert_eq!(w1, w2);
    assert!(!w1.is_empty());
}

#[test]
fn analysis_short_buffer_empty() {
    let buf = sine(44100, 200, 512, 0.8);
    assert!(find_window(&buf).is_empty());
}

#[test]
fn analysis_window_starts_hop() {
    let buf = sine(44100, 200, 4096, 0.8);
    let ws = find_window(&buf);
    for (k, w) in ws.iter().enumerate() {
        assert_eq!(w.0, k * 256);
    }
    assert_eq!(ws.len(), (4096 - 1024) / 256 + 1);
}

#[test]
fn analysis_finds_sine_period() {
    let buf = sine(44100, 200, 4096, 0.8);
    let frame: Vec<i64> = buf.samples[..1024].to_vec();
    let lag = find_window_single(&frame, 44100);
    assert!((195..=205).contains(&lag), "lag {lag}");
}

#[test]
fn marks_strictly_increasing() {
    let buf = sine(44100, 200, 4096, 0.8);
    let ws = find_window(&buf);
    let marks = generate_pitch_marks(&buf, &ws);
    assert!(!marks.is_empty());
    for pair in marks.windows(2) {
        assert!(pair[0] < pair[1]);
    }
    for &m in &marks {
        assert!(m < buf.samples.len());
    }
}

#[test]
fn grain_centers_equal_marks() {
    let buf = sine(44100, 200, 4096, 0.8);
    let ws = find_window(&buf);
    let marks = generate_pitch_marks(&buf, &ws);
    let grains = extract_grains(&buf, &marks, &ws);
    assert!(!grains.is_empty());
    for g in &grains {
        assert!(marks.contains(&g.center));
        assert_eq!(g.period, lag_at(g.center, &ws));
        assert!(g.center >= g.period);
        assert!(g.center + g.period < buf.samples.len());
    }
}

#[test]
fn avg_period_tracks_sine_period() {
    // Autocorrelation of a pure tone peaks at every multiple of the period,
    // so the estimate may land on the octave below; both are accepted.
    let buf = sine(44100, 200, 8192, 0.8);
    let avg = get_avg_period(&buf);
    assert!((150..=450).contains(&avg), "avg {avg}");
}

#[test]
fn mark_search_helpers() {
    let marks = [10usize, 20, 30];
    assert_eq!(upper_bound(&marks, 5), 0);
    assert_eq!(upper_bound(&marks, 10), 1);
    assert_eq!(upper_bound(&marks, 25), 2);
    assert_eq!(upper_bound(&marks, 35), 3);
    assert_eq!(last_mark_leq(&marks, 5), None);
    assert_eq!(last_mark_leq(&marks, 25), Some(20));
    assert_eq!(last_mark_leq(&marks, 30), Some(30));
    assert_eq!(first_mark_geq(&marks, 11), Some(20));
    assert_eq!(first_mark_geq(&marks, 31), None);
    assert_eq!(first_mark_geq(&marks, 0), Some(10));
}

#[test]
fn lag_at_picks_nearest_preceding_window() {
    let ws = [(0usize, 100usize), (256, 120)];
    assert_eq!(lag_at(0, &ws), 100);
    assert_eq!(lag_at(255, &ws), 100);
    assert_eq!(lag_at(256, &ws), 120);
    assert_eq!(lag_at(9999, &ws), 120);
}

#[test]
fn lag_at_before_first_window_uses_first() {
    let ws = [(500usize, 100usize)];
    assert_eq!(lag_at(10, &ws), 100);
}

#[test]
fn hann_window_shape() {
    let w = hann(101);
    assert_eq!(w.len(), 101);
    assert_eq!(w[0], 0);
    assert_eq!(w[100], 0);
    assert_eq!(w[50], SCALE);
    for n in 0..101 {
        assert!(w[n] >= 0 && w[n] <= SCALE);
        assert_eq!(w[n], w[100 - n]);
    }
    assert!(hann(0).is_empty());
}
