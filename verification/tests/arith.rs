use stellar_finance_hub::arith::{mul_div, mul_div_rem};

#[test]
fn mul_div_small_values() {
    assert_eq!(mul_div(1000, 1500, 1000), Some(1500));
    assert_eq!(mul_div(3, 10, 7), Some(4));
    assert_eq!(mul_div(0, 10, 7), Some(0));
    assert_eq!(mul_div(10, 0, 7), Some(0));
    assert_eq!(mul_div(6, 7, 1), Some(42));
    assert_eq!(mul_div(1, 1, 2), Some(0));
}

#[test]
fn mul_div_is_exact_beyond_128_bits() {
    assert_eq!(mul_div(u128::MAX, u128::MAX, u128::MAX), Some(u128::MAX));
    assert_eq!(
        mul_div(
            170141183460469231731687303715884118073,
            85070591730234615865843651857942053863,
            170141183460469231731687303715884205727
        ),
        Some(85070591730234615865843651857942010036)
    );
    assert_eq!(
        mul_div(
            123456789012345678901234567890123456789,
            98765432109876543210987654321098765432,
            111111111111111111111111111111111111111
        ),
        Some(109739368023319615703566529460480109735)
    );
    assert_eq!(mul_div(7 << 120, 3, 5), Some(5582757582296646666195989653177447219));
}

#[test]
fn mul_div_reports_a_quotient_that_does_not_fit() {
    assert_eq!(mul_div(u128::MAX, 2, 1), None);
    assert_eq!(mul_div(u128::MAX, u128::MAX, u128::MAX - 1), None);
    assert_eq!(mul_div(1 << 127, 4, 2), None);
    assert_eq!(mul_div(1 << 127, 4, 3), Some(226854911280625642308916404954512140970));
}

#[test]
fn mul_div_rem_gives_quotient_and_remainder() {
    assert_eq!(mul_div_rem(10, 3, 7), (4, 2));
    assert_eq!(mul_div_rem(0, 3, 7), (0, 0));
    assert_eq!(mul_div_rem(5, 0, 1), (0, 0));
    assert_eq!(
        mul_div_rem(
            170141183460469231731687303715884118073,
            85070591730234615865843651857942053863,
            170141183460469231731687303715884205727
        ),
        (85070591730234615865843651857942010036, 4295089827)
    );
    assert_eq!(
        mul_div_rem(u128::MAX, u128::MAX - 1, u128::MAX),
        (u128::MAX - 1, 0)
    );
}
