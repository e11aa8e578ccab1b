//! The approximate integer: nine significant digits and a power of ten.
use vstd::prelude::*;
use crate::math::{abs, lemma_few_digits, lemma_div_by_pow10_exact, lemma_div_pow10_twice, lemma_pow10_monotonic, lemma_div_shifted, lemma_num_digits_between, lemma_num_digits_bounds, lemma_pow10_add, lemma_pow10_positive, lemma_pow10_small, num_digits, pow10, sign};

verus! {

/// The largest coefficient magnitude plus one.
pub const COEFFICIENT_LIMIT: i32 = 1_000_000_000;

/// The smallest coefficient magnitude of a value with a positive ten-power.
pub const COEFFICIENT_FLOOR: i32 = 100_000_000;

/// An integer approximated as `coefficient * 10^ten_power`.
///
/// The coefficient has a range of `-999_999_999..=999_999_999` and the
/// ten-power goes up to `u32::MAX`. Whenever the ten-power is positive the
/// coefficient uses all nine digits, so each value has exactly one
/// representation.
#[derive(Clone, Copy, Debug, PartialEq, Eq, Structural, PartialOrd, Ord)]
pub struct Approximint {
    ten_power: u32,
    coefficient: i32,
}

/// The ten-power that a normalized approximation of `v` carries: the digits of
/// `|v|` beyond nine, saturated at `u32::MAX`.
pub open spec fn approx_ten_power(v: int) -> nat {
    let d = num_digits(abs(v));
    if d <= 9 {
        0
    } else if d - 9 > u32::MAX {
        u32::MAX as nat
    } else {
        (d - 9) as nat
    }
}

/// The coefficient that a normalized approximation of `v` carries: the nine
/// leading digits of `v`, truncated toward zero, or `±999_999_999` when `v`
/// is beyond the representable range.
pub open spec fn approx_coefficient(v: int) -> int {
    let d = num_digits(abs(v));
    if d > 9 && d - 9 > u32::MAX {
        sign(v) * 999_999_999
    } else {
        sign(v) * ((abs(v) / pow10(approx_ten_power(v))) as int)
    }
}

impl Approximint {
    /// The largest value: `999_999_999 * 10^u32::MAX`.
    pub fn max_value() -> (r: Self)
        ensures
            r.spec_coefficient() == 999_999_999,
            r.spec_ten_power() == u32::MAX,
    {
        Approximint { ten_power: u32::MAX, coefficient: 999_999_999 }
    }

    /// The smallest value: `-999_999_999 * 10^u32::MAX`.
    pub fn min_value() -> (r: Self)
        ensures
            r.spec_coefficient() == -999_999_999,
            r.spec_ten_power() == u32::MAX,
    {
        Approximint { ten_power: u32::MAX, coefficient: -999_999_999 }
    }

    /// A value representing 1.
    pub fn one() -> (r: Self)
        ensures
            r.spec_coefficient() == 1,
            r.spec_ten_power() == 0,
    {
        Approximint { ten_power: 0, coefficient: 1 }
    }

    /// A value representing 0.
    pub fn zero() -> (r: Self)
        ensures
            r.spec_coefficient() == 0,
            r.spec_ten_power() == 0,
    {
        Approximint { ten_power: 0, coefficient: 0 }
    }

    /// The coefficient.
    pub fn coefficient(&self) -> (r: i32)
        ensures
            r == self.spec_coefficient(),
            self.is_normal(),
    {
        proof {
            use_type_invariant(self);
        }
        self.coefficient
    }

    /// The power of ten that scales the coefficient.
    pub fn ten_power(&self) -> (r: u32)
        ensures
            r == self.spec_ten_power(),
            self.is_normal(),
    {
        proof {
            use_type_invariant(self);
        }
        self.ten_power
    }

    /// The coefficient.
    pub closed spec fn spec_coefficient(self) -> int {
        self.coefficient as int
    }

    /// The power of ten that scales the coefficient.
    pub closed spec fn spec_ten_power(self) -> nat {
        self.ten_power as nat
    }

    /// The integer this value stands for.
    pub open spec fn value(self) -> int {
        self.spec_coefficient() * pow10(self.spec_ten_power())
    }

    /// Normal form: at most nine digits, and all nine whenever the ten-power
    /// is positive.
    pub open spec fn is_normal(self) -> bool {
        &&& abs(self.spec_coefficient()) < 1_000_000_000
        &&& self.spec_ten_power() <= u32::MAX
        &&& (self.spec_ten_power() > 0 ==> abs(self.spec_coefficient()) >= 100_000_000)
    }

    #[verifier::type_invariant]
    closed spec fn inv(self) -> bool {
        self.is_normal()
    }

    /// This value is the normalized approximation of `v`.
    pub open spec fn approximates(self, v: int) -> bool {
        &&& self.spec_coefficient() == approx_coefficient(v)
        &&& self.spec_ten_power() == approx_ten_power(v)
    }

    /// Returns `value` as an approximint.
    pub fn new(value: i32) -> (r: Self)
        ensures
            r.approximates(value as int),
    {
        proof {
            lemma_pow10_small();
            assert(value * pow10(0) == value);
        }
        Self::normalize_overflow(value, 0)
    }

    /// Returns an approximation of `value`.
    pub fn approximate<A: Approximate>(value: A) -> (r: Self)
        ensures
            r.approximates(value.integer_value()),
    {
        value.approximate()
    }

    /// Returns the normalized approximation of `coefficient * 10^ten_power`,
    /// for parts computed elsewhere, such as from a floating-point number.
    pub fn from_parts(coefficient: i32, ten_power: u32) -> (r: Self)
        ensures
            r.approximates(coefficient * pow10(ten_power as nat)),
    {
        Self::normalized(coefficient, ten_power)
    }

    /// Returns a value representing 10 raised to the power of `exponent`.
    pub fn one_e(exponent: u32) -> (r: Self)
        ensures
            r.approximates(pow10(exponent as nat) as int),
    {
        proof {
            assert(1 * pow10(exponent as nat) == pow10(exponent as nat));
        }
        Self::normalized(1, exponent)
    }

    /// The normalized approximation of `coefficient * 10^ten_power`.
    fn normalized(coefficient: i32, ten_power: u32) -> (r: Self)
        ensures
            r.approximates(coefficient * pow10(ten_power as nat)),
    {
        let (coefficient, ten_power) = Self::normalize_underflow(coefficient, ten_power);
        Self::normalize_overflow(coefficient, ten_power)
    }

    /// Moves powers of ten into the coefficient until it has nine digits or
    /// the ten-power is zero. The value is kept exactly; zero gets the
    /// ten-power zero.
    fn normalize_underflow(coefficient: i32, ten_power: u32) -> (r: (i32, u32))
        ensures
            r.0 * pow10(r.1 as nat) == coefficient * pow10(ten_power as nat),
            r.1 > 0 ==> abs(r.0 as int) >= 100_000_000,
    {
        if coefficient == 0 {
            proof {
                lemma_pow10_small();
                assert(coefficient * pow10(ten_power as nat) == 0) by (nonlinear_arith)
                    requires
                        coefficient == 0,
                ;
                assert(0 * pow10(0) == 0);
            }
            return (0, 0);
        }
        let mut coefficient_now = coefficient;
        let mut ten_power_now = ten_power;
        while ten_power_now > 0 && coefficient_now < COEFFICIENT_FLOOR && coefficient_now
            > -COEFFICIENT_FLOOR
            invariant
                coefficient_now * pow10(ten_power_now as nat) == coefficient * pow10(
                    ten_power as nat,
                ),
            decreases ten_power_now,
        {
            proof {
                let p = pow10((ten_power_now - 1) as nat);
                assert(pow10(ten_power_now as nat) == 10 * p);
                assert((coefficient_now * 10) * p == coefficient_now * (10 * p))
                    by (nonlinear_arith);
            }
            coefficient_now = coefficient_now * 10;
            ten_power_now = ten_power_now - 1;
        }
        (coefficient_now, ten_power_now)
    }

    /// Aligns two values on the larger of their ten-powers: the coefficient
    /// of the one with the smaller ten-power loses its low digits. Returns
    /// both coefficients and the common ten-power.
    fn match_powers(left: Self, right: Self) -> (r: (i32, i32, u32))
        ensures
            r.2 == max_ten_power(left, right),
            r.0 == truncated(left.value(), r.2 as nat),
            r.1 == truncated(right.value(), r.2 as nat),
            abs(r.0 as int) < 1_000_000_000,
            abs(r.1 as int) < 1_000_000_000,
    {
        proof {
            use_type_invariant(&left);
            use_type_invariant(&right);
        }
        if left.ten_power < right.ten_power {
            let lower = Self::adjusted_powers(left, right.ten_power);
            proof {
                lemma_truncated_own_power(right);
            }
            (lower, right.coefficient, right.ten_power)
        } else {
            let lower = Self::adjusted_powers(right, left.ten_power);
            proof {
                lemma_truncated_own_power(left);
            }
            (left.coefficient, lower, left.ten_power)
        }
    }

    /// The coefficient of `lower` once its ten-power is raised to `target`,
    /// dropping one digit per step until none is left.
    fn adjusted_powers(lower: Self, target: u32) -> (r: i32)
        requires
            lower.spec_ten_power() <= target,
        ensures
            r == truncated(lower.value(), target as nat),
            abs(r as int) < 1_000_000_000,
    {
        proof {
            use_type_invariant(&lower);
            lemma_scaled_parts(lower.coefficient as int, lower.ten_power as nat);
            lemma_div_shifted(
                abs(lower.coefficient as int),
                lower.ten_power as nat,
                (target - lower.ten_power) as nat,
            );
            lemma_pow10_small();
        }
        let ghost m = abs(lower.coefficient as int);
        proof {
            assert(m / pow10(0) == m);
            assert(lower.ten_power as nat + (target - lower.ten_power) as nat == target as nat);
        }
        let mut coefficient = lower.coefficient;
        let mut ten_power = lower.ten_power;
        while ten_power < target
            invariant
                lower.ten_power <= ten_power <= target,
                m < 1_000_000_000,
                m == abs(lower.coefficient as int),
                coefficient == sign(lower.coefficient as int) * (m / pow10(
                    (ten_power - lower.ten_power) as nat,
                )),
            ensures
                ten_power == target,
            decreases target - ten_power,
        {
            let ghost before = (ten_power - lower.ten_power) as nat;
            let ghost old_coefficient = coefficient as int;
            proof {
                lemma_pow10_small();
                lemma_div_pow10_twice(m, before, 1);
                lemma_pow10_positive(before);
            }
            coefficient = div10(coefficient as i64) as i32;
            proof {
                let q = m / pow10(before);
                assert(abs(old_coefficient) == q);
                assert(q / 10 == m / pow10(before + 1));
                if q == 0 {
                    assert(old_coefficient == 0);
                    assert(coefficient == 0);
                } else {
                    assert(sign(old_coefficient) == sign(lower.coefficient as int));
                }
                assert(coefficient == sign(lower.coefficient as int) * (m / pow10(before + 1)));
            }
            if coefficient == 0 {
                proof {
                    let s = sign(lower.coefficient as int);
                    let x = m / pow10(before + 1);
                    assert(x == 0) by (nonlinear_arith)
                        requires
                            0 == s * x,
                            s == 1 || s == -1,
                    ;
                    lemma_div_pow10_twice(
                        m,
                        before + 1,
                        (target - lower.ten_power - before - 1) as nat,
                    );
                    lemma_pow10_positive((target - lower.ten_power - before - 1) as nat);
                    assert(0nat / pow10((target - lower.ten_power - before - 1) as nat) == 0);
                }
                ten_power = target;
                break;
            }
            ten_power = ten_power + 1;
        }
        proof {
            lemma_scaled_parts(lower.coefficient as int, lower.ten_power as nat);
            lemma_div_shifted(
                abs(lower.coefficient as int),
                lower.ten_power as nat,
                (target - lower.ten_power) as nat,
            );
            assert(lower.ten_power as nat + (target - lower.ten_power) as nat == target as nat);
            let k = (target - lower.ten_power) as nat;
            lemma_pow10_positive(k);
            assert(m / pow10(k) <= m) by (nonlinear_arith)
                requires
                    pow10(k) >= 1,
            {
                vstd::arithmetic::div_mod::lemma_div_is_ordered_by_denominator(m as int, 1, pow10(k) as int);
            }
            let q = m / pow10(k);
            assert(ten_power == target);
            assert(coefficient == sign(lower.coefficient as int) * q);
            if lower.coefficient < 0 {
                assert(coefficient == -q);
            } else {
                assert(coefficient == q);
            }
            if lower.coefficient == 0 {
                assert(lower.value() == 0);
            }
        }
        coefficient
    }

    /// The sum of two aligned coefficients at their common ten-power.
    fn add_aligned(self, rhs: Self) -> (r: Self)
        ensures
            r.approximates(aligned_sum(self, rhs)),
    {
        let (lhs, rhs_coefficient, ten_power) = Self::match_powers(self, rhs);
        // Both coefficients are under a billion, so the sum fits.
        Self::normalized(lhs + rhs_coefficient, ten_power)
    }

    /// The difference of two aligned coefficients at their common ten-power.
    fn sub_aligned(self, rhs: Self) -> (r: Self)
        ensures
            r.approximates(aligned_difference(self, rhs)),
    {
        let (lhs, rhs_coefficient, ten_power) = Self::match_powers(self, rhs);
        Self::normalized(lhs - rhs_coefficient, ten_power)
    }

    /// Divides by ten a coefficient of ten digits, or saturates it when the
    /// ten-power has no room left.
    fn normalize_overflow(coefficient: i32, ten_power: u32) -> (r: Self)
        requires
            ten_power > 0 ==> abs(coefficient as int) >= 100_000_000,
        ensures
            r.approximates(coefficient * pow10(ten_power as nat)),
    {
        if coefficient >= COEFFICIENT_LIMIT || coefficient <= -COEFFICIENT_LIMIT {
            if ten_power < u32::MAX {
                let shorter = div10(coefficient as i64) as i32;
                proof {
                    lemma_drop_digit(coefficient as int, ten_power as nat);
                    if coefficient < 0 {
                        assert(shorter == -(abs(coefficient as int) / 10));
                    } else {
                        assert(shorter == abs(coefficient as int) / 10);
                    }
                    assert(abs(shorter as int) == abs(coefficient as int) / 10);
                    lemma_normalized_shape(shorter as int, (ten_power + 1) as nat);
                }
                Approximint { ten_power: ten_power + 1, coefficient: shorter }
            } else {
                proof {
                    lemma_saturates(coefficient as int, ten_power as nat);
                }
                let coefficient = if coefficient > 0 { 999_999_999 } else { -999_999_999 };
                Approximint { ten_power, coefficient }
            }
        } else {
            proof {
                lemma_normalized_shape(coefficient as int, ten_power as nat);
            }
            Approximint { ten_power, coefficient }
        }
    }
}

/// The normalized approximation of `v`.
pub closed spec fn approx_of(v: int) -> Approximint {
    Approximint { ten_power: approx_ten_power(v) as u32, coefficient: approx_coefficient(v) as i32 }
}

/// The value that `x + y` approximates: each operand truncated toward zero to
/// a multiple of `10^t`, `t` the larger ten-power, then summed.
pub open spec fn aligned_sum(x: Approximint, y: Approximint) -> int {
    let t = max_ten_power(x, y);
    (truncated(x.value(), t) + truncated(y.value(), t)) * pow10(t)
}

/// The value that `x - y` approximates, aligned as for a sum.
pub open spec fn aligned_difference(x: Approximint, y: Approximint) -> int {
    let t = max_ten_power(x, y);
    (truncated(x.value(), t) - truncated(y.value(), t)) * pow10(t)
}

/// The larger of the two ten-powers.
pub open spec fn max_ten_power(x: Approximint, y: Approximint) -> nat {
    if x.spec_ten_power() < y.spec_ten_power() {
        y.spec_ten_power()
    } else {
        x.spec_ten_power()
    }
}

/// How many whole units of `10^t` the integer `v` holds, counted toward zero.
pub open spec fn truncated(v: int, t: nat) -> int {
    sign(v) * ((abs(v) / pow10(t)) as int)
}

/// A value measured in units of its own ten-power is its coefficient.
proof fn lemma_truncated_own_power(x: Approximint)
    ensures
        truncated(x.value(), x.spec_ten_power()) == x.spec_coefficient(),
{
    lemma_scaled_parts(x.spec_coefficient(), x.spec_ten_power());
    lemma_div_by_pow10_exact(abs(x.spec_coefficient()), x.spec_ten_power());
    if x.spec_coefficient() == 0 {
        assert(x.value() == 0);
    }
}

/// Divides by ten, truncating toward zero.
fn div10(n: i64) -> (r: i64)
    requires
        n > i64::MIN,
    ensures
        r == sign(n as int) * (abs(n as int) / 10),
        abs(r as int) <= abs(n as int),
{
    if n >= 0 {
        n / 10
    } else {
        -((-n) / 10)
    }
}

/// Scaling by a power of ten keeps the sign and scales the magnitude.
proof fn lemma_scaled_parts(coefficient: int, ten_power: nat)
    ensures
        abs(coefficient * pow10(ten_power)) == abs(coefficient) * pow10(ten_power),
        coefficient != 0 ==> sign(coefficient * pow10(ten_power)) == sign(coefficient),
{
    lemma_pow10_positive(ten_power);
    let p = pow10(ten_power) as int;
    if coefficient < 0 {
        assert(coefficient * p < 0) by (nonlinear_arith)
            requires
                coefficient < 0,
                p >= 1,
        ;
        assert(-(coefficient * p) == (-coefficient) * p) by (nonlinear_arith);
    } else {
        assert(coefficient * p >= 0) by (nonlinear_arith)
            requires
                coefficient >= 0,
                p >= 1,
        ;
    }
}

/// The digit count of `coefficient * 10^ten_power`, for a coefficient of
/// `d` digits.
proof fn lemma_scaled_digits(coefficient: int, ten_power: nat, d: nat)
    requires
        pow10(d) <= abs(coefficient) < pow10(d + 1),
    ensures
        num_digits(abs(coefficient * pow10(ten_power))) == d + 1 + ten_power,
{
    lemma_scaled_parts(coefficient, ten_power);
    lemma_pow10_add(d, ten_power);
    lemma_pow10_add(d + 1, ten_power);
    let m = abs(coefficient);
    let p = pow10(ten_power);
    lemma_pow10_positive(ten_power);
    assert(pow10(d) * p <= m * p < pow10(d + 1) * p) by (nonlinear_arith)
        requires
            pow10(d) <= m < pow10(d + 1),
            p >= 1,
    ;
    assert((d + ten_power) + 1 == d + 1 + ten_power);
    lemma_num_digits_between(m * p, d + ten_power);
}

/// A coefficient of at most nine digits, with all nine when the ten-power
/// is positive, is its own normalized approximation.
proof fn lemma_normalized_shape(coefficient: int, ten_power: nat)
    requires
        abs(coefficient) < 1_000_000_000,
        ten_power <= u32::MAX,
        ten_power > 0 ==> abs(coefficient) >= 100_000_000,
    ensures
        approx_ten_power(coefficient * pow10(ten_power)) == ten_power,
        approx_coefficient(coefficient * pow10(ten_power)) == coefficient,
{
    let v = coefficient * pow10(ten_power);
    let m = abs(coefficient);
    lemma_scaled_parts(coefficient, ten_power);
    lemma_pow10_positive(ten_power);
    lemma_pow10_small();
    if coefficient == 0 {
        assert(v == 0);
        assert(num_digits(0) == 0);
    } else if ten_power == 0 {
        lemma_num_digits_bounds(m);
        let d = num_digits(m);
        if d > 9 {
            lemma_pow10_monotonic(9, (d - 1) as nat);
        }
        assert(v == coefficient) by (nonlinear_arith)
            requires
                v == coefficient * pow10(ten_power),
                pow10(ten_power) == 1,
        ;
        assert(abs(v) / pow10(0) == abs(v));
    } else {
        lemma_scaled_digits(coefficient, ten_power, 8);
        lemma_div_by_pow10_exact(m, ten_power);
        assert(approx_ten_power(v) == ten_power);
        assert(abs(v) / pow10(ten_power) == m);
        assert(sign(v) == sign(coefficient));
        assert(sign(coefficient) * m == coefficient);
    }
}

/// Dropping the last digit of a coefficient of ten digits or more, and
/// raising the ten-power by one, keeps the normalized approximation.
proof fn lemma_drop_digit(coefficient: int, ten_power: nat)
    requires
        abs(coefficient) >= 1_000_000_000,
    ensures
        approx_ten_power(coefficient * pow10(ten_power)) == approx_ten_power(
            (sign(coefficient) * (abs(coefficient) / 10)) * pow10(ten_power + 1),
        ),
        approx_coefficient(coefficient * pow10(ten_power)) == approx_coefficient(
            (sign(coefficient) * (abs(coefficient) / 10)) * pow10(ten_power + 1),
        ),
{
    let m = abs(coefficient);
    let shorter = sign(coefficient) * (m / 10);
    lemma_pow10_small();
    lemma_num_digits_bounds(m);
    let d = num_digits(m);
    if d <= 9 {
        lemma_pow10_monotonic(d, 9);
    }
    assert(d >= 10);
    // The shorter coefficient has one digit less.
    let q = pow10((d - 2) as nat);
    assert(pow10((d - 1) as nat) == 10 * q);
    assert(pow10(d) == 10 * pow10((d - 1) as nat));
    assert(q <= m / 10 < pow10((d - 1) as nat)) by (nonlinear_arith)
        requires
            10 * q <= m < 10 * pow10((d - 1) as nat),
    ;
    assert(abs(shorter) == m / 10);
    assert(shorter != 0) by {
        lemma_pow10_positive((d - 2) as nat);
    }
    lemma_scaled_digits(coefficient, ten_power, (d - 1) as nat);
    assert(((d - 2) as nat) + 1 == d - 1);
    lemma_scaled_digits(shorter, ten_power + 1, (d - 2) as nat);
    lemma_scaled_parts(coefficient, ten_power);
    lemma_scaled_parts(shorter, ten_power + 1);
    let e = (d - 9) as nat;
    if d + ten_power - 9 <= u32::MAX {
        assert(approx_ten_power(coefficient * pow10(ten_power)) == ten_power + e);
        lemma_div_shifted(m, ten_power, e);
        assert(ten_power + 1 + ((e - 1) as nat) == ten_power + e);
        lemma_div_shifted(m / 10, ten_power + 1, (e - 1) as nat);
        lemma_div_pow10_twice(m, 1, (e - 1) as nat);
        assert(1 + ((e - 1) as nat) == e);
    }
}

/// Beyond the largest ten-power, a coefficient of ten digits or more
/// saturates.
proof fn lemma_saturates(coefficient: int, ten_power: nat)
    requires
        abs(coefficient) >= 1_000_000_000,
        ten_power >= u32::MAX,
    ensures
        approx_ten_power(coefficient * pow10(ten_power)) == u32::MAX,
        approx_coefficient(coefficient * pow10(ten_power)) == sign(coefficient) * 999_999_999,
{
    let m = abs(coefficient);
    lemma_pow10_small();
    lemma_num_digits_bounds(m);
    let d = num_digits(m);
    if d <= 9 {
        lemma_pow10_monotonic(d, 9);
    }
    lemma_scaled_digits(coefficient, ten_power, (d - 1) as nat);
    lemma_scaled_parts(coefficient, ten_power);
}

impl Default for Approximint {
    /// Zero.
    fn default() -> (r: Self)
        ensures
            r.spec_coefficient() == 0,
            r.spec_ten_power() == 0,
    {
        Approximint::zero()
    }
}

/// Negation flips the sign of the coefficient; it is always exact.
impl core::ops::Neg for Approximint {
    type Output = Self;

    fn neg(self) -> (r: Self)
        ensures
            r.spec_coefficient() == -self.spec_coefficient(),
            r.spec_ten_power() == self.spec_ten_power(),
            r.value() == -self.value(),
    {
        proof {
            use_type_invariant(&self);
            let p = pow10(self.ten_power as nat) as int;
            let c = self.coefficient as int;
            assert((-c) * p == -(c * p)) by (nonlinear_arith);
        }
        Approximint { ten_power: self.ten_power, coefficient: -self.coefficient }
    }
}

impl vstd::std_specs::ops::NegSpecImpl for Approximint {
    open spec fn obeys_neg_spec() -> bool {
        true
    }

    open spec fn neg_req(self) -> bool {
        true
    }

    closed spec fn neg_spec(self) -> Self {
        Approximint { ten_power: self.ten_power, coefficient: (-self.coefficient) as i32 }
    }
}

/// Addition aligns both operands on the larger ten-power, dropping the low
/// digits of the smaller one, adds the coefficients and normalizes, saturating
/// at the largest and smallest values.
impl core::ops::Add for Approximint {
    type Output = Self;

    fn add(self, rhs: Self) -> (r: Self)
        ensures
            r.approximates(aligned_sum(self, rhs)),
    {
        self.add_aligned(rhs)
    }
}

impl vstd::std_specs::ops::AddSpecImpl for Approximint {
    open spec fn obeys_add_spec() -> bool {
        true
    }

    open spec fn add_req(self, rhs: Self) -> bool {
        true
    }

    closed spec fn add_spec(self, rhs: Self) -> Self {
        approx_of(aligned_sum(self, rhs))
    }
}

/// Subtraction aligns as addition does.
impl core::ops::Sub for Approximint {
    type Output = Self;

    fn sub(self, rhs: Self) -> (r: Self)
        ensures
            r.approximates(aligned_difference(self, rhs)),
    {
        self.sub_aligned(rhs)
    }
}

impl vstd::std_specs::ops::SubSpecImpl for Approximint {
    open spec fn obeys_sub_spec() -> bool {
        true
    }

    open spec fn sub_req(self, rhs: Self) -> bool {
        true
    }

    closed spec fn sub_spec(self, rhs: Self) -> Self {
        approx_of(aligned_difference(self, rhs))
    }
}

impl core::ops::AddAssign for Approximint {
    fn add_assign(&mut self, rhs: Self)
        ensures
            final(self).approximates(aligned_sum(*old(self), rhs)),
    {
        *self = self.add_aligned(rhs);
    }
}

impl core::ops::SubAssign for Approximint {
    fn sub_assign(&mut self, rhs: Self)
        ensures
            final(self).approximates(aligned_difference(*old(self), rhs)),
    {
        *self = self.sub_aligned(rhs);
    }
}

/// Multiplication keeps the nine leading digits of the exact product,
/// truncated toward zero, saturating at the largest and smallest values.
impl core::ops::Mul for Approximint {
    type Output = Self;

    fn mul(self, rhs: Self) -> (r: Self)
        ensures
            r.approximates(self.value() * rhs.value()),
    {
        proof {
            use_type_invariant(&self);
            use_type_invariant(&rhs);
            lemma_product_value(self, rhs);
        }
        let product: i64 = self.coefficient as i64 * rhs.coefficient as i64;
        let ten_power: u64 = self.ten_power as u64 + rhs.ten_power as u64;
        let ghost target = self.value() * rhs.value();
        if product == 0 {
            proof {
                assert(target == 0) by (nonlinear_arith)
                    requires
                        target == product * pow10(ten_power as nat),
                        product == 0,
                ;
                assert(num_digits(0) == 0);
            }
            return Approximint { ten_power: 0, coefficient: 0 };
        }
        if ten_power > u32::MAX as u64 {
            proof {
                lemma_saturates(product as int, ten_power as nat);
            }
            let coefficient = if product > 0 { 999_999_999 } else { -999_999_999 };
            return Approximint { ten_power: u32::MAX, coefficient };
        }
        let mut coefficient = product;
        let mut ten_power = ten_power;
        while coefficient >= COEFFICIENT_LIMIT as i64 || coefficient <= -COEFFICIENT_LIMIT as i64
            invariant
                target == self.value() * rhs.value(),
                0 < abs(coefficient as int) <= abs(product as int),
                abs(product as int) < 1_000_000_000_000_000_000,
                ten_power <= u32::MAX,
                ten_power > 0 ==> abs(coefficient as int) >= 100_000_000,
                approx_ten_power(coefficient * pow10(ten_power as nat)) == approx_ten_power(target),
                approx_coefficient(coefficient * pow10(ten_power as nat)) == approx_coefficient(
                    target,
                ),
            decreases abs(coefficient as int),
        {
            if ten_power == u32::MAX as u64 {
                proof {
                    lemma_saturates(coefficient as int, ten_power as nat);
                }
                let saturated: i32 = if coefficient > 0 { 999_999_999 } else { -999_999_999 };
                let r = Approximint { ten_power: u32::MAX, coefficient: saturated };
                proof {
                    assert(approx_ten_power(target) == u32::MAX);
                    assert(approx_coefficient(target) == saturated);
                    assert(r.approximates(target));
                    assert(r == approx_of(target));
                }
                return r;
            }
            proof {
                lemma_drop_digit(coefficient as int, ten_power as nat);
            }
            coefficient = div10(coefficient);
            ten_power = ten_power + 1;
        }
        proof {
            lemma_normalized_shape(coefficient as int, ten_power as nat);
        }
        Approximint { ten_power: ten_power as u32, coefficient: coefficient as i32 }
    }
}

impl vstd::std_specs::ops::MulSpecImpl for Approximint {
    open spec fn obeys_mul_spec() -> bool {
        true
    }

    open spec fn mul_req(self, rhs: Self) -> bool {
        true
    }

    closed spec fn mul_spec(self, rhs: Self) -> Self {
        approx_of(self.value() * rhs.value())
    }
}

/// The product of two normal values, in terms of their coefficients.
proof fn lemma_product_value(x: Approximint, y: Approximint)
    requires
        x.is_normal(),
        y.is_normal(),
    ensures
        x.value() * y.value() == (x.spec_coefficient() * y.spec_coefficient()) * pow10(
            x.spec_ten_power() + y.spec_ten_power(),
        ),
        abs(x.spec_coefficient() * y.spec_coefficient()) < 1_000_000_000_000_000_000,
        x.spec_coefficient() * y.spec_coefficient() != 0 && x.spec_ten_power()
            + y.spec_ten_power() > 0 ==> abs(x.spec_coefficient() * y.spec_coefficient())
            >= 100_000_000,
        x.spec_ten_power() > 0 && y.spec_ten_power() > 0 ==> abs(
            x.spec_coefficient() * y.spec_coefficient(),
        ) >= 1_000_000_000,
{
    let a = x.spec_coefficient();
    let b = y.spec_coefficient();
    let p = pow10(x.spec_ten_power()) as int;
    let q = pow10(y.spec_ten_power()) as int;
    lemma_pow10_add(x.spec_ten_power(), y.spec_ten_power());
    assert((a * p) * (b * q) == (a * b) * (p * q)) by (nonlinear_arith);
    assert(abs(a * b) == abs(a) * abs(b)) by (nonlinear_arith);
    assert(abs(a) * abs(b) < 1_000_000_000_000_000_000) by (nonlinear_arith)
        requires
            abs(a) < 1_000_000_000,
            abs(b) < 1_000_000_000,
    ;
    if a * b != 0 {
        assert(a != 0 && b != 0) by (nonlinear_arith)
            requires
                a * b != 0,
        ;
        if x.spec_ten_power() > 0 {
            assert(abs(a) * abs(b) >= 100_000_000) by (nonlinear_arith)
                requires
                    abs(a) >= 100_000_000,
                    abs(b) >= 1,
            ;
        }
        if y.spec_ten_power() > 0 {
            assert(abs(a) * abs(b) >= 100_000_000) by (nonlinear_arith)
                requires
                    abs(b) >= 100_000_000,
                    abs(a) >= 1,
            ;
        }
    }
    if x.spec_ten_power() > 0 && y.spec_ten_power() > 0 {
        assert(abs(a) * abs(b) >= 1_000_000_000) by (nonlinear_arith)
            requires
                abs(b) >= 100_000_000,
                abs(a) >= 100_000_000,
        ;
    }
}

impl core::convert::From<i32> for Approximint {
    fn from(value: i32) -> (r: Self)
        ensures
            r.approximates(value as int),
    {
        Self::new(value)
    }
}

impl vstd::std_specs::convert::FromSpecImpl<i32> for Approximint {
    open spec fn obeys_from_spec() -> bool {
        true
    }

    closed spec fn from_spec(v: i32) -> Self {
        approx_of(v as int)
    }
}

impl core::convert::From<u8> for Approximint {
    fn from(value: u8) -> (r: Self)
        ensures
            r.approximates(value as int),
    {
        Self::new(value as i32)
    }
}

impl vstd::std_specs::convert::FromSpecImpl<u8> for Approximint {
    open spec fn obeys_from_spec() -> bool {
        true
    }

    closed spec fn from_spec(v: u8) -> Self {
        approx_of(v as int)
    }
}

impl core::convert::From<u16> for Approximint {
    fn from(value: u16) -> (r: Self)
        ensures
            r.approximates(value as int),
    {
        Self::new(value as i32)
    }
}

impl vstd::std_specs::convert::FromSpecImpl<u16> for Approximint {
    open spec fn obeys_from_spec() -> bool {
        true
    }

    closed spec fn from_spec(v: u16) -> Self {
        approx_of(v as int)
    }
}

/// A value that can be approximated into an [`Approximint`].
pub trait Approximate: Sized {
    /// The integer this value stands for.
    spec fn integer_value(self) -> int;

    /// Returns this value as an integer approximation.
    fn approximate(self) -> (r: Approximint)
        ensures
            r.approximates(self.integer_value()),
    ;
}

impl Approximate for u32 {
    open spec fn integer_value(self) -> int {
        self as int
    }

    fn approximate(self) -> (r: Approximint)
        ensures
            r.approximates(self as int),
    {
        let mut value = self;
        let mut ten_power: u32 = 0;
        proof {
            lemma_few_digits(self as nat);
            lemma_pow10_small();
            assert(self * pow10(0) == self);
        }
        while value >= COEFFICIENT_LIMIT as u32
            invariant
                ten_power + num_digits(value as nat) == num_digits(self as nat),
                num_digits(self as nat) <= 40,
                value <= self,
                ten_power > 0 ==> value >= 100_000_000,
                approx_ten_power(value * pow10(ten_power as nat)) == approx_ten_power(self as int),
                approx_coefficient(value * pow10(ten_power as nat)) == approx_coefficient(self as int),
            decreases value,
        {
            proof {
                lemma_drop_digit(value as int, ten_power as nat);
                assert(num_digits(value as nat) == 1 + num_digits((value / 10) as nat));
            }
            ten_power = ten_power + 1;
            value = value / 10;
        }
        proof {
            lemma_normalized_shape(value as int, ten_power as nat);
        }
        Approximint { ten_power, coefficient: value as i32 }
    }
}

impl Approximate for u64 {
    open spec fn integer_value(self) -> int {
        self as int
    }

    fn approximate(self) -> (r: Approximint)
        ensures
            r.approximates(self as int),
    {
        let mut value = self;
        let mut ten_power: u32 = 0;
        proof {
            lemma_few_digits(self as nat);
            lemma_pow10_small();
            assert(self * pow10(0) == self);
        }
        while value >= COEFFICIENT_LIMIT as u64
            invariant
                ten_power + num_digits(value as nat) == num_digits(self as nat),
                num_digits(self as nat) <= 40,
                value <= self,
                ten_power > 0 ==> value >= 100_000_000,
                approx_ten_power(value * pow10(ten_power as nat)) == approx_ten_power(self as int),
                approx_coefficient(value * pow10(ten_power as nat)) == approx_coefficient(self as int),
            decreases value,
        {
            proof {
                lemma_drop_digit(value as int, ten_power as nat);
                assert(num_digits(value as nat) == 1 + num_digits((value / 10) as nat));
            }
            ten_power = ten_power + 1;
            value = value / 10;
        }
        proof {
            lemma_normalized_shape(value as int, ten_power as nat);
        }
        Approximint { ten_power, coefficient: value as i32 }
    }
}

impl Approximate for usize {
    open spec fn integer_value(self) -> int {
        self as int
    }

    fn approximate(self) -> (r: Approximint)
        ensures
            r.approximates(self as int),
    {
        let mut value = self;
        let mut ten_power: u32 = 0;
        proof {
            lemma_few_digits(self as nat);
            lemma_pow10_small();
            assert(self * pow10(0) == self);
        }
        while value >= COEFFICIENT_LIMIT as usize
            invariant
                ten_power + num_digits(value as nat) == num_digits(self as nat),
                num_digits(self as nat) <= 40,
                value <= self,
                ten_power > 0 ==> value >= 100_000_000,
                approx_ten_power(value * pow10(ten_power as nat)) == approx_ten_power(self as int),
                approx_coefficient(value * pow10(ten_power as nat)) == approx_coefficient(self as int),
            decreases value,
        {
            proof {
                lemma_drop_digit(value as int, ten_power as nat);
                assert(num_digits(value as nat) == 1 + num_digits((value / 10) as nat));
            }
            ten_power = ten_power + 1;
            value = value / 10;
        }
        proof {
            lemma_normalized_shape(value as int, ten_power as nat);
        }
        Approximint { ten_power, coefficient: value as i32 }
    }
}

impl Approximate for u128 {
    open spec fn integer_value(self) -> int {
        self as int
    }

    fn approximate(self) -> (r: Approximint)
        ensures
            r.approximates(self as int),
    {
        let mut value = self;
        let mut ten_power: u32 = 0;
        proof {
            lemma_few_digits(self as nat);
            lemma_pow10_small();
            assert(self * pow10(0) == self);
        }
        while value >= COEFFICIENT_LIMIT as u128
            invariant
                ten_power + num_digits(value as nat) == num_digits(self as nat),
                num_digits(self as nat) <= 40,
                value <= self,
                ten_power > 0 ==> value >= 100_000_000,
                approx_ten_power(value * pow10(ten_power as nat)) == approx_ten_power(self as int),
                approx_coefficient(value * pow10(ten_power as nat)) == approx_coefficient(self as int),
            decreases value,
        {
            proof {
                lemma_drop_digit(value as int, ten_power as nat);
                assert(num_digits(value as nat) == 1 + num_digits((value / 10) as nat));
            }
            ten_power = ten_power + 1;
            value = value / 10;
        }
        proof {
            lemma_normalized_shape(value as int, ten_power as nat);
        }
        Approximint { ten_power, coefficient: value as i32 }
    }
}

/// Normalization is idempotent: the approximation of any integer is in
/// normal form (under a billion in magnitude, and at least a hundred million
/// whenever the ten-power is positive), and approximating its value again
/// gives it back.
pub proof fn lemma_normalize_idempotent(x: Approximint, v: int)
    requires
        x.approximates(v),
    ensures
        x.is_normal(),
        x.approximates(x.value()),
{
    let m = abs(v);
    let d = num_digits(m);
    lemma_pow10_small();
    if v != 0 {
        lemma_num_digits_bounds(m);
    }
    if d <= 9 {
        if v != 0 && d < 9 {
            lemma_pow10_monotonic(d, 9);
        }
        if v == 0 {
            assert(m == 0);
        }
        assert(x.spec_coefficient() == v);
        assert(x.value() == v);
    } else if d - 9 > u32::MAX {
        lemma_normalized_shape(x.spec_coefficient(), x.spec_ten_power());
    } else {
        let e = (d - 9) as nat;
        let p = pow10(e);
        lemma_pow10_positive(e);
        lemma_pow10_add(e, 8);
        lemma_pow10_add(e, 9);
        assert((d - 1) as nat == e + 8);
        assert(d == e + 9);
        let q = m / p;
        vstd::arithmetic::div_mod::lemma_fundamental_div_mod(m as int, p as int);
        assert(100_000_000 <= q < 1_000_000_000) by (nonlinear_arith)
            requires
                p * 100_000_000 <= m < p * 1_000_000_000,
                m == p * q + m % p,
                0 <= m % p < p,
        ;
        assert(abs(x.spec_coefficient()) == q);
        lemma_normalized_shape(x.spec_coefficient(), x.spec_ten_power());
    }
}

/// Adding zero gives the value back, and subtracting a value from itself
/// gives zero.
pub proof fn lemma_additive_identity_inverse(x: Approximint, zero: Approximint)
    requires
        x.is_normal(),
        zero.spec_coefficient() == 0,
        zero.spec_ten_power() == 0,
    ensures
        x.approximates(aligned_sum(x, zero)),
        approx_coefficient(aligned_difference(x, x)) == 0,
        approx_ten_power(aligned_difference(x, x)) == 0,
{
    let t = x.spec_ten_power();
    lemma_truncated_own_power(x);
    lemma_pow10_positive(t);
    assert(zero.value() == 0);
    assert(truncated(0, t) == 0) by {
        assert(abs(0) == 0);
    }
    assert(aligned_sum(x, zero) == x.value());
    lemma_normalized_shape(x.spec_coefficient(), t);
    assert(aligned_difference(x, x) == 0);
    assert(num_digits(0) == 0);
}

/// `x + top`, where `top` is the largest value, saturates to `top` for any
/// `x` at or above zero; `x - bottom`, `bottom` the smallest value, does too.
pub proof fn lemma_add_to_max_saturates(x: Approximint, top: Approximint, bottom: Approximint)
    requires
        x.is_normal(),
        x.value() >= 0,
        top.spec_coefficient() == 999_999_999,
        top.spec_ten_power() == u32::MAX,
        bottom.spec_coefficient() == -999_999_999,
        bottom.spec_ten_power() == u32::MAX,
    ensures
        top.approximates(aligned_sum(x, top)),
        top.approximates(aligned_difference(x, bottom)),
{
    let t = u32::MAX as nat;
    lemma_aligned_at_top(x);
    lemma_truncated_own_power(top);
    lemma_truncated_own_power(bottom);
    let q = truncated(x.value(), t);
    assert(aligned_sum(x, top) == (q + 999_999_999) * pow10(t));
    assert(aligned_difference(x, bottom) == (q + 999_999_999) * pow10(t));
    lemma_saturated_sum(q + 999_999_999);
}

/// `x + bottom`, where `bottom` is the smallest value, saturates to `bottom`
/// for any `x` at or below zero; `x - top`, `top` the largest value, does
/// too.
pub proof fn lemma_add_to_min_saturates(x: Approximint, top: Approximint, bottom: Approximint)
    requires
        x.is_normal(),
        x.value() <= 0,
        top.spec_coefficient() == 999_999_999,
        top.spec_ten_power() == u32::MAX,
        bottom.spec_coefficient() == -999_999_999,
        bottom.spec_ten_power() == u32::MAX,
    ensures
        bottom.approximates(aligned_sum(x, bottom)),
        bottom.approximates(aligned_difference(x, top)),
{
    let t = u32::MAX as nat;
    lemma_aligned_at_top(x);
    lemma_truncated_own_power(top);
    lemma_truncated_own_power(bottom);
    let q = truncated(x.value(), t);
    assert(aligned_sum(x, bottom) == (q - 999_999_999) * pow10(t));
    assert(aligned_difference(x, top) == (q - 999_999_999) * pow10(t));
    lemma_saturated_sum(q - 999_999_999);
}

/// Multiplying the largest or the smallest value by anything of at least one
/// gives it back.
pub proof fn lemma_mul_extreme_saturates(x: Approximint, extreme: Approximint)
    requires
        x.is_normal(),
        x.value() >= 1,
        abs(extreme.spec_coefficient()) == 999_999_999,
        extreme.spec_ten_power() == u32::MAX,
    ensures
        extreme.approximates(extreme.value() * x.value()),
{
    let t = u32::MAX as nat;
    let c = extreme.spec_coefficient();
    lemma_pow10_positive(t);
    lemma_pow10_positive(x.spec_ten_power());
    lemma_pow10_add(t, x.spec_ten_power());
    let p = pow10(t) as int;
    let v = x.value();
    assert(extreme.value() * v == (c * v) * p) by (nonlinear_arith)
        requires
            extreme.value() == c * p,
    ;
    if v == 1 {
        assert(c * v == c) by (nonlinear_arith)
            requires
                v == 1,
        ;
        lemma_normalized_shape(c, t);
    } else {
        assert(abs(c * v) >= 1_000_000_000) by (nonlinear_arith)
            requires
                c == 999_999_999 || c == -999_999_999,
                v >= 2,
        ;
        assert(sign(c * v) == sign(c)) by (nonlinear_arith)
            requires
                c == 999_999_999 || c == -999_999_999,
                v >= 2,
        ;
        lemma_saturates(c * v, t);
    }
}

/// A value seen in units of the largest ten-power: a whole number of them,
/// of the value's sign and under a billion in magnitude.
proof fn lemma_aligned_at_top(x: Approximint)
    requires
        x.is_normal(),
    ensures
        x.value() >= 0 ==> truncated(x.value(), u32::MAX as nat) >= 0,
        x.value() <= 0 ==> truncated(x.value(), u32::MAX as nat) <= 0,
        x.value() > 0 && x.spec_ten_power() == u32::MAX ==> truncated(x.value(), u32::MAX as nat)
            >= 1,
        x.value() < 0 && x.spec_ten_power() == u32::MAX ==> truncated(x.value(), u32::MAX as nat)
            <= -1,
{
    let t = u32::MAX as nat;
    lemma_pow10_positive(t);
    let q = abs(x.value()) / pow10(t);
    if x.value() >= 0 {
        assert(truncated(x.value(), t) == q as int);
    } else {
        assert(sign(x.value()) == -1);
        assert(truncated(x.value(), t) == -1 * (q as int));
    }
    if x.spec_ten_power() == u32::MAX {
        lemma_truncated_own_power(x);
        lemma_pow10_positive(t);
        let c = x.spec_coefficient();
        let p = pow10(t) as int;
        assert(x.value() > 0 ==> c > 0) by (nonlinear_arith)
            requires
                x.value() == c * p,
                p >= 1,
        ;
        assert(x.value() < 0 ==> c < 0) by (nonlinear_arith)
            requires
                x.value() == c * p,
                p >= 1,
        ;
    }
}

/// The sum of a saturated coefficient and a nonnegative one, at the largest
/// ten-power, saturates.
proof fn lemma_saturated_sum(s: int)
    requires
        s >= 999_999_999 || s <= -999_999_999,
    ensures
        s >= 999_999_999 ==> approx_ten_power(s * pow10(u32::MAX as nat)) == u32::MAX
            && approx_coefficient(s * pow10(u32::MAX as nat)) == 999_999_999,
        s <= -999_999_999 ==> approx_ten_power(s * pow10(u32::MAX as nat)) == u32::MAX
            && approx_coefficient(s * pow10(u32::MAX as nat)) == -999_999_999,
{
    if s == 999_999_999 || s == -999_999_999 {
        lemma_normalized_shape(s, u32::MAX as nat);
    } else {
        lemma_saturates(s, u32::MAX as nat);
    }
}

} // verus!
