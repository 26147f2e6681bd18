use platformer::units::{divide, saturate, scale};

#[test]
fn saturate_holds_values_in_range() {
    assert_eq!(saturate(0), 0);
    assert_eq!(saturate(-7), -7);
    assert_eq!(saturate(i32::MAX as i64), i32::MAX);
    assert_eq!(saturate(i32::MAX as i64 + 1), i32::MAX);
    assert_eq!(saturate(i32::MIN as i64), i32::MIN);
    assert_eq!(saturate(i32::MIN as i64 - 1), i32::MIN);
    assert_eq!(saturate(i64::MAX), i32::MAX);
    assert_eq!(saturate(i64::MIN), i32::MIN);
}

#[test]
fn division_rounds_toward_zero() {
    assert_eq!(divide(7, 2), 3);
    assert_eq!(divide(-7, 2), -3);
    assert_eq!(divide(59, 60), 0);
    assert_eq!(divide(-59, 60), 0);
    assert_eq!(divide(60, 60), 1);
    assert_eq!(divide(-60, 60), -1);
    assert_eq!(divide(0, 5), 0);
    assert_eq!(divide(i64::MAX, 1), i64::MAX);
    assert_eq!(divide(i64::MIN + 1, 1), i64::MIN + 1);
    assert_eq!(divide(i64::MIN, 1), i64::MIN);
    assert_eq!(divide(i64::MIN, 2), i64::MIN / 2);
    assert_eq!(divide(i64::MIN, i64::MAX), -1);
}

#[test]
fn scaling_by_ticks_is_exact() {
    assert_eq!(scale(25_000, 3), 75_000);
    assert_eq!(scale(-25_000, 3), -75_000);
    assert_eq!(scale(i32::MAX, u32::MAX), i32::MAX as i64 * u32::MAX as i64);
    assert_eq!(scale(i32::MIN, u32::MAX), i32::MIN as i64 * u32::MAX as i64);
    assert_eq!(scale(5, 0), 0);
}
