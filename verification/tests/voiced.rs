//! Voiced-region detection.

use voxlab::buffer::AudioBuffer;
use voxlab::crossfade::find_voiced_region;
use voxlab::SCALE;

fn tone_with_silence(sample_rate: u32, lead: usize, tone: usize, tail: usize) -> AudioBuffer {
    let mut samples = vec![0i64; lead];
    for i in 0..tone {
        let x = (i as f64) * 2.0 * std::f64::consts::PI / 100.0;
        samples.push((x.sin() * 0.8 * (SCALE as f64)) as i64);
    }
    samples.extend(std::iter::repeat(0i64).take(tail));
    AudioBuffer { sample_rate, samples }
}

#[test]
fn voiced_region_contained_and_brackets_tone() {
    let buf = tone_with_silence(8000, 2000, 4000, 2000);
    let (s, e) = find_voiced_region(&buf).expect("voiced region");
    assert!(s < e);
    assert!(e <= buf.samples.len());
    assert!(s >= 1500, "start {s}");
    assert!(s <= 2100, "start {s}");
    assert!(e >= 5900, "end {e}");
    assert!(e <= 6500, "end {e}");
}

#[test]
fn buffer_shorter_than_window_has_no_region() {
    let buf = tone_with_silence(8000, 0, 50, 0);
    assert_eq!(find_voiced_region(&buf), None);
}

#[test]
fn region_bounds_are_ordered_on_plain_tone() {
    let buf = tone_with_silence(44100, 0, 8192, 0);
    let (s, e) = find_voiced_region(&buf).expect("voiced region");
    assert!(s < e && e <= buf.samples.len());
}
