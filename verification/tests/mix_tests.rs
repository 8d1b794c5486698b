//! The gain, scaling and saturation arithmetic on concrete values.

use audio_mixer::mix::{left_gain, right_gain, sat_add, scale_sample};

#[test]
fn default_pan_gains() {
    // volume 255, pan 255: the play() defaults
    assert_eq!(left_gain(255, 255), 508);
    assert_eq!(right_gain(255, 255), 255);
}

#[test]
fn full_left_gains() {
    // volume 255, pan 0: the right gain formula exceeds unity before clamping
    assert_eq!(left_gain(255, 0), 255);
    assert_eq!(right_gain(255, 0), 512);
}

#[test]
fn center_pan_gains() {
    // pan 128 hits both branches' boundary
    assert_eq!(left_gain(255, 128), 255);
    assert_eq!(right_gain(255, 128), 255);
}

#[test]
fn zero_volume_gains() {
    assert_eq!(left_gain(0, 0), 0);
    assert_eq!(right_gain(0, 255), 0);
}

#[test]
fn unity_scale_is_exact() {
    assert_eq!(scale_sample(1234, 255), 1234);
    assert_eq!(scale_sample(-1234, 255), -1234);
    assert_eq!(scale_sample(0, 255), 0);
    assert_eq!(scale_sample(32767, 255), 32767);
    assert_eq!(scale_sample(-32768, 255), -32768);
}

#[test]
fn scale_truncates_toward_zero() {
    // 100 * 508 / 255 = 199.2..., truncated the same way on both signs
    assert_eq!(scale_sample(100, 508), 199);
    assert_eq!(scale_sample(-100, 508), -199);
    // 1000 * 512 / 255 = 2007.8...
    assert_eq!(scale_sample(1000, 512), 2007);
}

#[test]
fn scale_clamps_instead_of_wrapping() {
    assert_eq!(scale_sample(32767, 512), 32767);
    assert_eq!(scale_sample(-32768, 512), -32768);
    assert_eq!(scale_sample(20000, 508), 32767.min(20000i32 * 508 / 255) as i16);
}

#[test]
fn saturating_addition() {
    assert_eq!(sat_add(30000, 30000), 32767);
    assert_eq!(sat_add(-30000, -30000), -32768);
    assert_eq!(sat_add(100, -50), 50);
    assert_eq!(sat_add(32767, 1), 32767);
    assert_eq!(sat_add(-32768, -1), -32768);
    assert_eq!(sat_add(0, 0), 0);
}
