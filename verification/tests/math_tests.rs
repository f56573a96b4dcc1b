use amm::math::{
    checked_div_u128, checked_mul, checked_mul_u128, div_u128, mul, mul_u128,
};

#[test]
fn mul_u128_rounds_to_nearest() {
    assert_eq!(mul_u128(100, 3, 50), 2);
    assert_eq!(mul_u128(10, 15, 1), 2);
    assert_eq!(mul_u128(10, 14, 1), 1);
    assert_eq!(mul_u128(100, 1000, 2), 20);
}

#[test]
fn mul_u128_uses_wide_intermediates() {
    let one: u128 = 1_000_000_000_000_000_000;
    assert_eq!(mul_u128(one, 5 * one, 2 * one), 10 * one);
    let w: u128 = 1 << 64;
    assert_eq!(mul_u128(w, w, w), w);
    assert_eq!(mul_u128(u128::MAX, u128::MAX, u128::MAX), u128::MAX);
    assert_eq!(mul_u128(3, 1 << 127, 3), 1 << 127);
}

#[test]
fn mul_u128_refuses_overflow_and_zero_base() {
    assert_eq!(checked_mul_u128(1, u128::MAX, 2), None);
    assert_eq!(checked_mul_u128(0, 1, 1), None);
    assert_eq!(checked_mul_u128(2, u128::MAX, 2), Some(u128::MAX));
}

#[test]
fn div_u128_divides_then_rounds() {
    assert_eq!(div_u128(100, 1000, 3), 3);
    assert_eq!(div_u128(1, u128::MAX, 1), u128::MAX);
    assert_eq!(div_u128(2, u128::MAX, 1), 1 << 127);
    assert_eq!(div_u128(100, 1_000_000, 10_980), 1);
    assert_eq!(div_u128(7, 0, 5), 0);
}

#[test]
fn div_u128_refuses_zero_divisors() {
    assert_eq!(checked_div_u128(1, 10, 0), None);
    assert_eq!(checked_div_u128(0, 10, 1), None);
}

#[test]
fn mul_rounds_down() {
    assert_eq!(mul(10, 15, 1), 1);
    assert_eq!(mul(1, u128::MAX, 1), u128::MAX);
    assert_eq!(mul(1, 2, 99), 198);
    assert_eq!(mul(u128::MAX, u128::MAX, 7), 7);
    assert_eq!(checked_mul(1, u128::MAX, 2), None);
    assert_eq!(checked_mul(0, 1, 1), None);
}

#[test]
fn law_rounding_within_one_examples() {
    for (base, a, b) in [(10u128, 15u128, 1u128), (7, 100, 3), (1_000, 999_999, 12_345), (3, 1, 1)] {
        let floor = mul(base, a, b);
        let near = mul_u128(base, a, b);
        assert!(floor <= near && near <= floor + 1);
    }
}

#[test]
fn law_mul_by_unit_examples() {
    for base in [1u128, 10, 1_000_000, u128::MAX] {
        assert_eq!(mul_u128(base, 12_345, base), 12_345);
        assert_eq!(mul(base, 12_345, base), 12_345);
        assert_eq!(mul_u128(base, 12_345, base), mul_u128(base, base, 12_345));
    }
}
