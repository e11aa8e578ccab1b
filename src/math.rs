//! Powers of ten and decimal digit counts, with the facts about them that the
//! arithmetic and the formatters rely on.
use vstd::prelude::*;
use vstd::arithmetic::div_mod::{lemma_div_by_multiple, lemma_div_denominator};

verus! {

/// `10^n`.
pub open spec fn pow10(n: nat) -> nat
    decreases n,
{
    if n == 0 {
        1
    } else {
        10 * pow10((n - 1) as nat)
    }
}

/// The number of decimal digits of `n`; zero has none.
pub open spec fn num_digits(n: nat) -> nat
    decreases n,
{
    if n == 0 {
        0
    } else {
        1 + num_digits(n / 10)
    }
}

/// The absolute value of `v`.
pub open spec fn abs(v: int) -> nat {
    if v < 0 {
        (-v) as nat
    } else {
        v as nat
    }
}

/// The sign of `v`, taking zero as positive.
pub open spec fn sign(v: int) -> int {
    if v < 0 {
        -1
    } else {
        1
    }
}

/// The small powers of ten that the coefficient bounds are written with.
pub proof fn lemma_pow10_small()
    ensures
        pow10(0) == 1,
        pow10(1) == 10,
        pow10(2) == 100,
        pow10(3) == 1000,
        pow10(4) == 10_000,
        pow10(5) == 100_000,
        pow10(6) == 1_000_000,
        pow10(7) == 10_000_000,
        pow10(8) == 100_000_000,
        pow10(9) == 1_000_000_000,
        pow10(10) == 10_000_000_000,
{
    reveal_with_fuel(pow10, 11);
}

pub proof fn lemma_pow10_positive(n: nat)
    ensures
        pow10(n) >= 1,
    decreases n,
{
    if n > 0 {
        lemma_pow10_positive((n - 1) as nat);
    }
}

pub proof fn lemma_pow10_add(a: nat, b: nat)
    ensures
        pow10(a + b) == pow10(a) * pow10(b),
    decreases a,
{
    if a == 0 {
        assert(pow10(0) == 1);
        assert(a + b == b);
    } else {
        lemma_pow10_add((a - 1) as nat, b);
        assert(pow10(a + b) == 10 * pow10((a - 1 + b) as nat));
        assert(pow10(a) == 10 * pow10((a - 1) as nat));
        assert(10 * (pow10((a - 1) as nat) * pow10(b)) == (10 * pow10((a - 1) as nat)) * pow10(b))
            by (nonlinear_arith);
    }
}

pub proof fn lemma_pow10_monotonic(a: nat, b: nat)
    requires
        a <= b,
    ensures
        pow10(a) <= pow10(b),
{
    lemma_pow10_add(a, (b - a) as nat);
    lemma_pow10_positive((b - a) as nat);
    lemma_pow10_positive(a);
    assert(pow10(a) * pow10((b - a) as nat) >= pow10(a) * 1) by (nonlinear_arith)
        requires
            pow10((b - a) as nat) >= 1,
            pow10(a) >= 1,
    ;
}

/// A number between `10^d` (inclusive) and `10^(d+1)` has `d + 1` digits.
pub proof fn lemma_num_digits_between(n: nat, d: nat)
    requires
        pow10(d) <= n < pow10(d + 1),
    ensures
        num_digits(n) == d + 1,
    decreases d,
{
    lemma_pow10_positive(d);
    assert(n > 0);
    assert(num_digits(n) == 1 + num_digits(n / 10));
    if d == 0 {
        assert(pow10(1) == 10) by {
            lemma_pow10_small();
        }
        assert(n / 10 == 0);
        assert(num_digits(0) == 0);
    } else {
        let p = pow10((d - 1) as nat);
        assert(pow10(d) == 10 * p);
        assert(pow10(d + 1) == 10 * pow10(d));
        assert(p <= n / 10 < 10 * p) by (nonlinear_arith)
            requires
                10 * p <= n < 100 * p,
        ;
        lemma_num_digits_between(n / 10, (d - 1) as nat);
    }
}

/// A positive number with `num_digits(n)` digits lies between the matching
/// powers of ten.
pub proof fn lemma_num_digits_bounds(n: nat)
    requires
        n > 0,
    ensures
        num_digits(n) >= 1,
        pow10((num_digits(n) - 1) as nat) <= n < pow10(num_digits(n)),
    decreases n,
{
    if n < 10 {
        assert(num_digits(n / 10) == 0);
    } else {
        lemma_num_digits_bounds(n / 10);
        let d = num_digits(n / 10);
        let p = pow10((d - 1) as nat);
        assert(pow10(d) == 10 * p);
        assert(pow10(d + 1) == 10 * pow10(d));
        assert(10 * p <= n < 10 * pow10(d)) by (nonlinear_arith)
            requires
                p <= n / 10 < pow10(d),
        ;
    }
}

/// A number below `10^k` has at most `k` digits.
pub proof fn lemma_num_digits_below(n: nat, k: nat)
    requires
        n < pow10(k),
    ensures
        num_digits(n) <= k,
{
    if n > 0 {
        lemma_num_digits_bounds(n);
        if num_digits(n) > k {
            lemma_pow10_monotonic(k, (num_digits(n) - 1) as nat);
        }
    }
}

/// Any 128-bit unsigned integer has at most forty digits.
pub proof fn lemma_few_digits(n: nat)
    requires
        n <= u128::MAX,
    ensures
        num_digits(n) <= 40,
{
    lemma_pow10_small();
    lemma_pow10_add(10, 10);
    lemma_pow10_add(20, 20);
    assert(pow10(20) == 100_000_000_000_000_000_000);
    let a = pow10(20);
    assert(a * a == 10_000_000_000_000_000_000_000_000_000_000_000_000_000) by (nonlinear_arith)
        requires
            a == 100_000_000_000_000_000_000,
    ;
    lemma_num_digits_below(n, 40);
}

/// Dividing by `10^a` and then by `10^b` is dividing by `10^(a+b)`.
pub proof fn lemma_div_pow10_twice(n: nat, a: nat, b: nat)
    ensures
        (n / pow10(a)) / pow10(b) == n / pow10(a + b),
{
    lemma_pow10_positive(a);
    lemma_pow10_positive(b);
    lemma_pow10_add(a, b);
    lemma_div_denominator(n as int, pow10(a) as int, pow10(b) as int);
}

/// Scaling by `10^a` and dividing by it again gives the number back.
pub proof fn lemma_div_by_pow10_exact(n: nat, a: nat)
    ensures
        (n * pow10(a)) / pow10(a) == n,
{
    lemma_pow10_positive(a);
    lemma_div_by_multiple(n as int, pow10(a) as int);
}

/// `(n * 10^a) / 10^(a+b) == n / 10^b`.
pub proof fn lemma_div_shifted(n: nat, a: nat, b: nat)
    ensures
        (n * pow10(a)) / pow10(a + b) == n / pow10(b),
{
    lemma_pow10_positive(a);
    lemma_div_pow10_twice(n * pow10(a), a, b);
    lemma_div_by_multiple(n as int, pow10(a) as int);
}

} // verus!
