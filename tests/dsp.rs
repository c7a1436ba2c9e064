use stabilizer_server::dsp::{abs, copysign, macc, max, min, saturating_scale};

#[test]
fn abs_values() {
    assert_eq!(abs(5), 5);
    assert_eq!(abs(-5), 5);
    assert_eq!(abs(0), 0);
    assert_eq!(abs(i32::MAX), i32::MAX);
    assert_eq!(abs(-i32::MAX), i32::MAX);
}

#[test]
fn copysign_values() {
    assert_eq!(copysign(3, 7), 3);
    assert_eq!(copysign(3, -7), -3);
    assert_eq!(copysign(-3, 7), 3);
    assert_eq!(copysign(-3, -7), -3);
    assert_eq!(copysign(3, 0), 3);
    assert_eq!(copysign(-3, 0), -3);
}

#[test]
fn max_min_values() {
    assert_eq!(max(1, 2), 2);
    assert_eq!(max(-1, -2), -1);
    assert_eq!(min(1, 2), 1);
    assert_eq!(min(-1, -2), -2);
    assert_eq!(max(4, 4), 4);
}

#[test]
fn macc_dot_product() {
    assert_eq!(macc(10, &[1, 2, 3], &[4, 5, 6]), 10 + 4 + 10 + 18);
    assert_eq!(macc(7, &[], &[]), 7);
    // only the pairs both slices have
    assert_eq!(macc(0, &[1, 2, 3], &[2, 2]), 6);
    assert_eq!(macc(0, &[-3], &[4]), -12);
}

#[test]
fn saturating_scale_values() {
    assert_eq!(saturating_scale(0, 1, 0), i32::MAX);
    assert_eq!(saturating_scale(0, -2, 0), i32::MIN);
    assert_eq!(saturating_scale(100, 0, 2), 25);
    assert_eq!(saturating_scale(8, 1, 4), (8 >> 4) + (1 << 27));
    assert_eq!(saturating_scale(0, -1, 31), 0 + (-1));
    assert_eq!(saturating_scale(0, 1 << 10, 4), i32::MAX);
}
