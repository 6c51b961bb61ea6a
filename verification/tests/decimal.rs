use enterprise::decimal::{Decimal, DECIMAL_FRACTIONAL};

#[test]
fn one_is_ten_to_the_eighteenth() {
    assert_eq!(DECIMAL_FRACTIONAL, 1_000_000_000_000_000_000);
    assert_eq!(Decimal::one().atomics(), DECIMAL_FRACTIONAL);
    assert_eq!(Decimal::zero().atomics(), 0);
    assert!(Decimal::zero().is_zero());
    assert!(!Decimal::one().is_zero());
    assert_eq!(Decimal::percent(75), Decimal::raw(750_000_000_000_000_000));
    assert_eq!(Decimal::percent(100), Decimal::one());
    assert!(Decimal::one().gt(&Decimal::percent(99)));
    assert!(!Decimal::one().gt(&Decimal::one()));
}

#[test]
fn ratio_is_rounded_down_to_eighteen_digits() {
    assert_eq!(Decimal::checked_from_ratio(1, 2), Some(Decimal::percent(50)));
    assert_eq!(Decimal::checked_from_ratio(100, 100), Some(Decimal::one()));
    assert_eq!(Decimal::checked_from_ratio(1, 3), Some(Decimal::raw(333_333_333_333_333_333)));
    assert_eq!(Decimal::checked_from_ratio(2, 3), Some(Decimal::raw(666_666_666_666_666_666)));
    assert_eq!(Decimal::checked_from_ratio(0, 5), Some(Decimal::zero()));
    assert_eq!(Decimal::checked_from_ratio(7, 7), Some(Decimal::one()));
}

#[test]
fn ratio_fails_on_zero_denominator_and_on_overflow() {
    assert_eq!(Decimal::checked_from_ratio(1, 0), None);
    assert_eq!(Decimal::checked_from_ratio(0, 0), None);
    assert_eq!(Decimal::checked_from_ratio(u128::MAX, 1), None);
    let most = u128::MAX / DECIMAL_FRACTIONAL;
    assert_eq!(Decimal::checked_from_ratio(most, 1), Some(Decimal::raw(most * DECIMAL_FRACTIONAL)));
    assert_eq!(Decimal::checked_from_ratio(most + 1, 1), None);
    // the product needs more than 128 bits, the quotient does not
    assert_eq!(Decimal::checked_from_ratio(u128::MAX, u128::MAX), Some(Decimal::one()));
}

#[test]
fn ratio_matches_the_outside_decimal() {
    let cases: [(u128, u128); 6] =
        [(1, 7), (22, 7), (123_456_789, 1_000), (5, u128::MAX), (u128::MAX, u128::MAX - 1), (9, 4)];
    for (n, d) in cases {
        let theirs = cosmwasm_std::Decimal::from_ratio(n, d).atomics().u128();
        assert_eq!(Decimal::checked_from_ratio(n, d), Some(Decimal::raw(theirs)));
    }
}

#[test]
fn product_with_a_weight_is_rounded_down_to_whole_units() {
    assert_eq!(Decimal::percent(250).checked_mul_floor(3), Some(7));
    assert_eq!(Decimal::raw(333_333_333_333_333_333).checked_mul_floor(3), Some(0));
    assert_eq!(Decimal::raw(333_333_333_333_333_334).checked_mul_floor(3), Some(1));
    assert_eq!(Decimal::one().checked_mul_floor(u128::MAX), Some(u128::MAX));
    assert_eq!(Decimal::zero().checked_mul_floor(u128::MAX), Some(0));
    assert_eq!(Decimal::raw(DECIMAL_FRACTIONAL + 1).checked_mul_floor(u128::MAX), None);
    assert_eq!(Decimal::raw(u128::MAX).checked_mul_floor(DECIMAL_FRACTIONAL), Some(u128::MAX));
}

#[test]
fn product_matches_the_outside_decimal() {
    let cases: [(u128, u128); 4] =
        [(1_500_000_000_000_000_000, 3), (1, 999_999_999_999_999_999), (7, 0), (12345, 67890)];
    for (atomics, weight) in cases {
        let theirs = cosmwasm_std::Uint128::new(weight) * cosmwasm_std::Decimal::raw(atomics);
        assert_eq!(Decimal::raw(atomics).checked_mul_floor(weight), Some(theirs.u128()));
    }
}

#[test]
fn sum_and_difference_are_checked() {
    let a = Decimal::raw(5);
    let b = Decimal::raw(3);
    assert_eq!(a.checked_add(b), Some(Decimal::raw(8)));
    assert_eq!(a.checked_sub(b), Some(Decimal::raw(2)));
    assert_eq!(a.checked_sub(a), Some(Decimal::zero()));
    assert_eq!(b.checked_sub(a), None);
    assert_eq!(Decimal::raw(u128::MAX).checked_add(Decimal::raw(1)), None);
    assert_eq!(Decimal::raw(u128::MAX).checked_add(Decimal::zero()), Some(Decimal::raw(u128::MAX)));
}
