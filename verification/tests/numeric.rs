//! Fixed-point numeric helpers.

use voxlab::nice::{exp2_q15, lerp, log2_q15, pow2_i64};
use voxlab::{div_pos, div_scale, RATIO_MAX, RATIO_MIN, SCALE};

#[test]
fn pow2_values() {
    assert_eq!(pow2_i64(0), 1);
    assert_eq!(pow2_i64(10), 1024);
    assert_eq!(pow2_i64(15), 32768);
}

#[test]
fn log2_at_powers_of_two() {
    assert_eq!(log2_q15(SCALE), 0);
    assert_eq!(log2_q15(2 * SCALE), SCALE);
    assert_eq!(log2_q15(4 * SCALE), 2 * SCALE);
    assert_eq!(log2_q15(SCALE / 2), -SCALE);
}

#[test]
fn log2_accuracy_between_powers() {
    // log2(3) is about 1.584963.
    let got = log2_q15(3 * SCALE) as f64 / SCALE as f64;
    assert!((got - 1.584963).abs() < 0.001, "got {got}");
}

#[test]
fn exp2_at_integers_and_saturation() {
    assert_eq!(exp2_q15(0), SCALE);
    assert_eq!(exp2_q15(SCALE), 2 * SCALE);
    assert_eq!(exp2_q15(-SCALE), SCALE / 2);
    assert_eq!(exp2_q15(100 * SCALE), RATIO_MAX);
    assert_eq!(exp2_q15(-100 * SCALE), RATIO_MIN);
}

#[test]
fn exp2_accuracy_between_integers() {
    // 2^(2/12) is about 1.12246, one whole tone.
    let got = exp2_q15(2 * SCALE / 12) as f64 / SCALE as f64;
    assert!((got - 1.12246).abs() < 0.01, "got {got}");
}

#[test]
fn lerp_interpolates() {
    assert_eq!(lerp(0, SCALE, SCALE / 2), SCALE / 2);
    assert_eq!(lerp(100, 100, 12345), 100);
    assert_eq!(lerp(-1000, 1000, 0), -1000);
    assert_eq!(lerp(-1000, 1000, SCALE), 1000);
}

#[test]
fn truncating_divisions() {
    assert_eq!(div_pos(7, 2), 3);
    assert_eq!(div_pos(-7, 2), -3);
    assert_eq!(div_scale(SCALE + 1), 1);
    assert_eq!(div_scale(-(SCALE + 1)), -1);
}

#[test]
fn add_is_exact() {
    assert_eq!(voxlab::add(2, 3), Ok(5));
    assert_eq!(voxlab::add(-10, 4), Ok(-6));
}
