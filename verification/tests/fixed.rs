use flappy::fixed::{checked_advance, divide, scale, SECOND, UNIT};
use flappy::vec3::Vec3;

#[test]
fn divide_rounds_towards_zero_on_both_sides() {
    assert_eq!(divide(7, 2), 3);
    assert_eq!(divide(-7, 2), -3);
    assert_eq!(divide(-8, 2), -4);
    assert_eq!(divide(0, 5), 0);
    assert_eq!(divide(-1, 1_000_000), 0);
    assert_eq!(divide(1, 1_000_000), 0);
    assert_eq!(divide(i128::MIN, 1), i128::MIN);
    assert_eq!(divide(i128::MIN, 2), i128::MIN / 2);
    assert_eq!(divide(i128::MAX, i128::MAX), 1);
    assert_eq!(divide(i128::MIN + 1, i128::MAX), -1);
}

#[test]
fn divide_of_the_opposite_is_the_opposite() {
    let mut dividends: Vec<i128> = vec![0, 1, 6, 7, 999_999, 1_000_000, 1_000_001, i128::MAX];
    while let Some(n) = dividends.pop() {
        assert_eq!(divide(-n, 7), -divide(n, 7));
        assert_eq!(divide(-n, 1_000_000), -divide(n, 1_000_000));
    }
}

#[test]
fn scale_is_rate_times_seconds() {
    assert_eq!(scale(-2000 * UNIT, 100_000), -200 * (UNIT as i128));
    assert_eq!(scale(3, SECOND), 3);
    assert_eq!(scale(3, 0), 0);
    assert_eq!(scale(1, 999_999), 0);
    assert_eq!(scale(-1, 999_999), 0);
    assert_eq!(scale(-1, 1), 0);
    assert_eq!(scale(1, 1_000_001), 1);
    assert_eq!(scale(-1, 1_000_001), -1);
    assert_eq!(
        scale(i64::MIN, u64::MAX),
        divide((i64::MIN as i128) * (u64::MAX as i128), 1_000_000)
    );
}

#[test]
fn scale_of_the_opposite_rate_is_the_opposite() {
    let mut rates: Vec<i64> = vec![0, 1, 15 * UNIT, 100 * UNIT + 1, 2000 * UNIT, i64::MAX];
    while let Some(rate) = rates.pop() {
        assert_eq!(scale(-rate, 16_667), -scale(rate, 16_667));
        assert_eq!(scale(-rate, u64::MAX), -scale(rate, u64::MAX));
    }
}

#[test]
fn checked_advance_adds_the_gain() {
    assert_eq!(checked_advance(5, 10, SECOND), Some(15));
    assert_eq!(checked_advance(5, -10, SECOND / 2), Some(0));
    assert_eq!(checked_advance(5, 10, 0), Some(5));
    assert_eq!(checked_advance(0, -1, 1), Some(0));
    assert_eq!(checked_advance(0, -3, SECOND / 2), Some(-1));
    assert_eq!(checked_advance(0, 3, SECOND / 2), Some(1));
}

#[test]
fn checked_advance_refuses_what_cannot_be_stored() {
    assert_eq!(checked_advance(i64::MAX, 1, SECOND), None);
    assert_eq!(checked_advance(i64::MAX, 1, SECOND - 1), Some(i64::MAX));
    assert_eq!(checked_advance(i64::MIN, -1, SECOND), None);
    assert_eq!(checked_advance(i64::MIN, -1, SECOND - 1), Some(i64::MIN));
    assert_eq!(checked_advance(i64::MIN, 0, u64::MAX), Some(i64::MIN));
    assert_eq!(checked_advance(0, i64::MAX, u64::MAX), None);
    assert_eq!(checked_advance(0, i64::MIN, u64::MAX), None);
    assert_eq!(checked_advance(i64::MAX, -1, SECOND), Some(i64::MAX - 1));
}

#[test]
fn vec3_is_built_from_its_components() {
    let v = Vec3::new(1, -2, 3);
    assert_eq!(v, Vec3 { x: 1, y: -2, z: 3 });
    assert_eq!(Vec3::zero(), Vec3 { x: 0, y: 0, z: 0 });
}

#[test]
fn vec3_advances_each_component() {
    let v = Vec3::new(1, 2, 3);
    let rate = Vec3::new(10, -20, 30);
    assert_eq!(v.checked_advance(rate, SECOND), Some(Vec3::new(11, -18, 33)));
    assert_eq!(v.checked_advance(rate, 0), Some(v));
}

#[test]
fn vec3_advance_fails_if_any_component_overflows() {
    let rate = Vec3::new(1, 1, 1);
    assert_eq!(Vec3::new(i64::MAX, 0, 0).checked_advance(rate, SECOND), None);
    assert_eq!(Vec3::new(0, i64::MAX, 0).checked_advance(rate, SECOND), None);
    assert_eq!(Vec3::new(0, 0, i64::MAX).checked_advance(rate, SECOND), None);
    assert_eq!(
        Vec3::new(0, 0, i64::MAX - 1).checked_advance(rate, SECOND),
        Some(Vec3::new(1, 1, i64::MAX))
    );
}
