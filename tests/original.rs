use approximint::{Approximint, DecimalFormatter, ScientificFormatter, WordFormatter};

#[test]
fn basics() {
    let thousand = Approximint::new(1000);
    let million = thousand * thousand;
    let billion = thousand * million;
    let negative_million = -thousand * thousand;
    let negative_billion = thousand * negative_million;
    assert_eq!(negative_million, -million);
    assert_eq!(negative_billion, -billion);
    assert_eq!(
        billion * thousand,
        Approximint::approximate(1_000_000_000_000u64)
    );
    assert_eq!(thousand - thousand, Approximint::zero());
    assert_eq!(Approximint::zero() - thousand, -thousand);
}

#[test]
fn formatting() {
    assert_eq!(Approximint::new(123).to_text(), "123");
    assert_eq!(Approximint::new(1234).to_text(), "1,234");
    assert_eq!(Approximint::new(123_456_789).to_text(), "123,456,789");
    assert_eq!(
        DecimalFormatter::from(Approximint::new(1_234_567_890)).to_text(),
        "1,234,567,890"
    );
    assert_eq!(
        DecimalFormatter::from(Approximint::new(1_234_567_890))
            .separator('.')
            .digits_per_separator(4)
            .to_text(),
        "12.3456.7890"
    );
    assert_eq!(
        DecimalFormatter::from(Approximint::new(1_234_567_890))
            .digits_per_separator(0)
            .to_text(),
        "1234567890"
    );
    // Display truncates rather than rounds, so a displayed total is never
    // larger than the value it stands for.
    assert_eq!(Approximint::new(1_234_567_890).to_text(), "1.234e9");
    assert_eq!(
        ScientificFormatter::from(Approximint::new(1_234_567_890))
            .rounded()
            .to_text(),
        "1.235e9"
    );
    assert_eq!(
        ScientificFormatter::from(Approximint::new(999_999)).to_text(),
        "9.999e5"
    );
    assert_eq!(
        ScientificFormatter::from(Approximint::new(999_999))
            .rounded()
            .to_text(),
        "1.000e6"
    );
    assert_eq!(
        ScientificFormatter::from(Approximint::new(999_999))
            .rounded()
            .truncate_zeroes()
            .to_text(),
        "1e6"
    );
    assert_eq!(
        ScientificFormatter::from(Approximint::new(1_045_999))
            .rounded()
            .significant_digits(2)
            .to_text(),
        "1.0e6"
    );
    assert_eq!(
        ScientificFormatter::from(Approximint::new(1_045_999))
            .rounded()
            .significant_digits(3)
            .to_text(),
        "1.05e6"
    );
    assert_eq!(
        ScientificFormatter::from(Approximint::new(1_105_999))
            .significant_digits(3)
            .truncate_zeroes()
            .to_text(),
        "1.1e6"
    );
}

#[test]
fn english() {
    assert_eq!(
        WordFormatter::english(Approximint::new(123_000))
            .decimal_before_10_power(0)
            .to_text(),
        "123 thousand"
    );
    assert_eq!(
        WordFormatter::english(Approximint::new(123_100))
            .decimal_before_10_power(0)
            .to_text(),
        "123.1 thousand"
    );
    assert_eq!(
        WordFormatter::english(Approximint::new(123_100))
            .decimal_before_10_power(9)
            .to_text(),
        "123,100"
    );
    assert_eq!(
        WordFormatter::english(Approximint::new(123_456_789))
            .decimal_before_10_power(6)
            .to_text(),
        "123.4 million"
    );
    assert_eq!(
        WordFormatter::english(Approximint::one_e(100) * Approximint::new(1_000)).to_text(),
        "1,000 googol"
    );
    assert_eq!(
        WordFormatter::english(Approximint::one_e(100) * Approximint::new(999_999_999)).to_text(),
        "999,999,999 googol"
    );
    assert_eq!(
        WordFormatter::english(Approximint::one_e(100) * Approximint::new(1_000_000_000))
            .to_text(),
        "1 billion googol"
    );
    assert_eq!(
        WordFormatter::english(Approximint::one_e(100) * Approximint::one_e(100)).to_text(),
        "1 googol googol"
    );
}

#[test]
fn limits() {
    assert_eq!(
        Approximint::new(999_999_999) * Approximint::one_e(u32::MAX),
        Approximint::max_value()
    );
    assert_eq!(
        Approximint::new(-999_999_999) * Approximint::one_e(u32::MAX),
        Approximint::min_value()
    );
    assert_eq!(
        (Approximint::new(999_999_999) * Approximint::one_e(u32::MAX)).to_text(),
        "9.999e4294967303"
    );
    assert_eq!(
        (Approximint::new(-999_999_999) * Approximint::one_e(u32::MAX)).to_text(),
        "-9.999e4294967303"
    );
    // Operations are saturating.
    assert_eq!(
        Approximint::max_value() * Approximint::new(2),
        Approximint::max_value()
    );
    assert_eq!(
        Approximint::min_value() * Approximint::new(2),
        Approximint::min_value()
    );
    assert_eq!(
        Approximint::min_value() - Approximint::max_value(),
        Approximint::min_value()
    );
    assert_eq!(
        Approximint::min_value() + Approximint::min_value(),
        Approximint::min_value()
    );
    assert_eq!(
        Approximint::max_value() + Approximint::max_value(),
        Approximint::max_value()
    );
    assert_eq!(
        Approximint::max_value() - Approximint::min_value(),
        Approximint::max_value()
    );
}

#[test]
fn debug_output() {
    assert_eq!(Approximint::one().to_debug_text(), "1");
    assert_eq!(Approximint::new(999_999_999).to_debug_text(), "999,999,999");
    assert_eq!(Approximint::new(1_000_000_000).to_debug_text(), "1e9");
    assert_eq!(Approximint::new(1_100_000_000).to_debug_text(), "1.1e9");
    assert_eq!(
        Approximint::new(1_234_567_891).to_debug_text(),
        "1.23456789e9"
    );
}
