use approximint::{Approximate, Approximint, DecimalFormatter, ScientificFormatter, WordFormatter};

#[test]
fn normalization_is_idempotent() {
    let x = Approximint::from_parts(1_234_567_890, 2);
    assert_eq!(x.coefficient(), 123_456_789);
    assert_eq!(x.ten_power(), 3);
    assert_eq!(Approximint::from_parts(x.coefficient(), x.ten_power()), x);
    assert_eq!(Approximint::from_parts(5, 3), Approximint::new(5000));
    assert_eq!(Approximint::from_parts(0, 7), Approximint::zero());
    let y = Approximint::from_parts(-42, 20);
    assert_eq!(y.coefficient(), -420_000_000);
    assert_eq!(y.ten_power(), 13);
    assert_eq!(Approximint::from_parts(y.coefficient(), y.ten_power()), y);
}

#[test]
fn coefficient_bounds() {
    let x = Approximint::new(i32::MIN);
    assert_eq!(x.coefficient(), -214_748_364);
    assert_eq!(x.ten_power(), 1);
    let y = Approximint::new(999_999_999);
    assert_eq!(y.coefficient(), 999_999_999);
    assert_eq!(y.ten_power(), 0);
    assert_eq!(Approximint::one_e(0), Approximint::one());
    assert_eq!(Approximint::one_e(8).coefficient(), 100_000_000);
    assert_eq!(Approximint::one_e(8).ten_power(), 0);
    assert_eq!(Approximint::one_e(9).coefficient(), 100_000_000);
    assert_eq!(Approximint::one_e(9).ten_power(), 1);
    let top = Approximint::one_e(u32::MAX);
    assert_eq!(top.coefficient(), 100_000_000);
    assert_eq!(top.ten_power(), u32::MAX - 8);
}

#[test]
fn additive_identity_and_inverse() {
    for x in [
        Approximint::new(-123),
        Approximint::one_e(50),
        Approximint::new(1_234_567_890),
        Approximint::max_value(),
    ] {
        assert_eq!(x + Approximint::zero(), x);
        assert_eq!(x - x, Approximint::zero());
    }
}

#[test]
fn saturation_for_any_operand() {
    let max = Approximint::max_value();
    let min = Approximint::min_value();
    assert_eq!(Approximint::new(5) + max, max);
    assert_eq!(Approximint::one_e(u32::MAX - 8) + max, max);
    assert_eq!(Approximint::new(5) - min, max);
    assert_eq!(Approximint::new(-5) + min, min);
    assert_eq!(Approximint::new(-5) - max, min);
    assert_eq!(max * Approximint::one(), max);
    assert_eq!(min * Approximint::new(3), min);
    assert_eq!(Approximint::one_e(u32::MAX) * Approximint::one_e(u32::MAX), max);
    assert_eq!(max.to_text(), "9.999e4294967303");
}

#[test]
fn aligned_addition_drops_low_digits() {
    let billion = Approximint::new(1_000_000_000);
    assert_eq!(billion + Approximint::new(-5), billion);
    assert_eq!(billion + Approximint::new(15), Approximint::new(1_000_000_010));
    assert_eq!(Approximint::new(7) - Approximint::new(10), Approximint::new(-3));
    let mut x = Approximint::new(40);
    x += Approximint::new(2);
    assert_eq!(x, Approximint::new(42));
    x -= Approximint::new(50);
    assert_eq!(x, Approximint::new(-8));
}

#[test]
fn multiplication() {
    assert_eq!(Approximint::new(-3) * Approximint::new(4), Approximint::new(-12));
    assert_eq!(Approximint::zero() * Approximint::max_value(), Approximint::zero());
    let product = Approximint::new(123_456_789) * Approximint::new(1_000);
    assert_eq!(product.coefficient(), 123_456_789);
    assert_eq!(product.ten_power(), 3);
    assert_eq!(-Approximint::new(7), Approximint::new(-7));
}

#[test]
fn conversions() {
    assert_eq!(Approximint::from(200u8), Approximint::new(200));
    assert_eq!(Approximint::from(60_000u16), Approximint::new(60_000));
    assert_eq!(Approximint::from(-9i32), Approximint::new(-9));
    let x = Approximint::approximate(u32::MAX);
    assert_eq!(x.coefficient(), 429_496_729);
    assert_eq!(x.ten_power(), 1);
    let y = u128::MAX.approximate();
    assert_eq!(y.coefficient(), 340_282_366);
    assert_eq!(y.ten_power(), 30);
    assert_eq!(Approximint::approximate(12_345usize), Approximint::new(12_345));
    assert_eq!(Approximint::approximate(0u64), Approximint::zero());
}

#[test]
fn zero_renders_as_zero() {
    assert_eq!(Approximint::zero().to_text(), "0");
    assert_eq!(Approximint::zero().as_scientific().to_text(), "0");
    assert_eq!(Approximint::zero().as_decimal().to_text(), "0");
    assert_eq!(Approximint::zero().as_english().to_text(), "0");
    assert_eq!(Approximint::zero().to_debug_text(), "0");
}

#[test]
fn scientific_settings() {
    assert_eq!(Approximint::new(5).as_scientific().to_text(), "5e0");
    assert_eq!(Approximint::new(-1234).as_scientific().to_text(), "-1.234e3");
    assert_eq!(
        Approximint::new(1_234_567).as_scientific().decimal(',').to_text(),
        "1,234e6"
    );
    assert_eq!(
        ScientificFormatter::from(Approximint::new(1_200_000))
            .significant_digits(9)
            .to_text(),
        "1.200000e6"
    );
    assert_eq!(
        ScientificFormatter::from(Approximint::new(1_200_000))
            .significant_digits(9)
            .truncate_zeroes()
            .to_text(),
        "1.2e6"
    );
    assert_eq!(
        ScientificFormatter::from(Approximint::new(-96))
            .rounded()
            .significant_digits(1)
            .to_text(),
        "-1e2"
    );
    assert_eq!(
        ScientificFormatter::from(Approximint::new(1_999))
            .rounded()
            .significant_digits(3)
            .to_text(),
        "2.00e3"
    );
    assert_eq!(
        ScientificFormatter::from(Approximint::new(12))
            .rounded()
            .to_text(),
        "1.2e1"
    );
}

#[test]
fn decimal_settings() {
    assert_eq!(Approximint::new(-1234).to_text(), "-1,234");
    assert_eq!(
        Approximint::new(-1_234_567).as_decimal().separator(' ').to_text(),
        "-1 234 567"
    );
    assert_eq!(
        DecimalFormatter::from(Approximint::one_e(12)).to_text(),
        "1,000,000,000,000"
    );
    assert_eq!(
        DecimalFormatter::from(Approximint::one_e(29)).digits_per_separator(0).to_text(),
        "100000000000000000000000000000"
    );
    assert_eq!(DecimalFormatter::from(Approximint::one_e(40)).to_text(), "1.000e40");
    assert_eq!(
        DecimalFormatter::from(Approximint::new(123_456)).digits_per_separator(1).to_text(),
        "1,2,3,4,5,6"
    );
}

#[test]
fn word_settings() {
    assert_eq!(
        Approximint::new(-123_456_789).as_english().decimal_before_10_power(6).to_text(),
        "-123.4 million"
    );
    assert_eq!(
        WordFormatter::english(Approximint::one_e(100) * Approximint::new(1_234_567))
            .separator('.')
            .to_text(),
        "1.234.567 googol"
    );
    assert_eq!(
        WordFormatter::english(Approximint::one_e(100) * Approximint::new(1_234_567))
            .digits_per_separator(0)
            .to_text(),
        "1234567 googol"
    );
    let table: &'static [(u32, &'static str)] = &[(2, "hundred"), (4, "myriad")];
    assert_eq!(WordFormatter::new(Approximint::new(3_500), table).to_text(), "35 hundred");
    assert_eq!(
        WordFormatter::new(Approximint::new(1_500_000), table).to_text(),
        "1.5 hundred myriad"
    );
    assert_eq!(
        WordFormatter::new(Approximint::new(99), table).rounded().to_text(),
        "99"
    );
    assert_eq!(
        WordFormatter::english(Approximint::one_e(400)).to_text(),
        "10,000 trigintillion centillion"
    );
}

#[test]
fn debug_text_keeps_all_digits() {
    assert_eq!(Approximint::new(-1_234_567_891).to_debug_text(), "-1.23456789e9");
    assert_eq!(Approximint::new(-5).to_debug_text(), "-5");
    assert_eq!(Approximint::one_e(100).to_debug_text(), "1e100");
}

#[test]
fn default_is_zero() {
    assert_eq!(Approximint::default(), Approximint::zero());
    assert_eq!(Approximint::default().to_text(), "0");
}
