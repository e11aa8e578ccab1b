//! Digit extraction with rounding, and scientific notation.
use vstd::prelude::*;
use crate::approximint::Approximint;
use crate::digits::{
    chars_of, decimal_text, digit_bytes, is_digit, lemma_digit_bytes_len, push_char, push_decimal,
    pushed, zeros, DigitRing,
};
use crate::math::{abs, lemma_num_digits_below, lemma_pow10_small, num_digits, pow10};

verus! {

/// Display settings of scientific notation.
#[derive(Clone, Copy, Debug, PartialEq, Eq)]
pub struct ScientificSettings {
    /// The character between the first digit and the rest.
    pub decimal: char,
    /// How many significant digits to show.
    pub significant_digits: u8,
    /// Whether zeros at the end of the shown digits are written.
    pub keep_trailing_zeroes: bool,
}

impl ScientificSettings {
    /// `.` as decimal character, four significant digits, trailing zeros kept.
    pub open spec fn spec_default() -> Self {
        ScientificSettings { decimal: '.', significant_digits: 4, keep_trailing_zeroes: true }
    }
}

impl Default for ScientificSettings {
    fn default() -> (r: Self)
        ensures
            r == Self::spec_default(),
    {
        ScientificSettings { decimal: '.', significant_digits: 4, keep_trailing_zeroes: true }
    }
}

/// The decimal exponent of the leading digit of a nonzero value.
pub open spec fn leading_exponent(num: Approximint) -> nat {
    (num_digits(abs(num.spec_coefficient())) - 1 + num.spec_ten_power()) as nat
}

/// Whether rounding `digits` to `n` significant digits rounds up: the first
/// dropped digit is 5 to 9.
pub open spec fn rounds_up(digits: Seq<u8>, n: nat) -> bool {
    n < digits.len() && 53 <= digits[n as int] <= 57
}

/// The rank of the last digit before rank `n` that is not a nine, or -1.
pub open spec fn last_below_nine(digits: Seq<u8>, n: int) -> int
    decreases n,
{
    if n <= 0 {
        -1
    } else if digits[n - 1] != 57 {
        n - 1
    } else {
        last_below_nine(digits, n - 1)
    }
}

/// Whether rounding to `n` digits carries past the first digit, which raises
/// the exponent by one.
pub open spec fn round_carries(digits: Seq<u8>, n: nat) -> bool {
    rounds_up(digits, n) && n > 0 && last_below_nine(digits, n as int) < 0
}

/// The first `n` significant digits of `digits`, rounded half up when
/// `round` is set: the trailing nines among them become zeros and the digit
/// before them goes up by one, or, when all are nines, they become a one
/// followed by zeros.
pub open spec fn shown_digits(digits: Seq<u8>, n: nat, round: bool) -> Seq<u8> {
    let j = last_below_nine(digits, n as int);
    if !round || !rounds_up(digits, n) {
        digits.take(if n < digits.len() { n as int } else { digits.len() as int })
    } else if n == 0 {
        Seq::empty()
    } else if j < 0 {
        seq![49u8] + zeros((n - 1) as nat)
    } else {
        digits.take(j).push((digits[j] + 1) as u8) + zeros((n - 1 - j) as nat)
    }
}

/// `digits` without the zeros at its end, keeping the first digit.
pub open spec fn trim_zeros(digits: Seq<u8>) -> Seq<u8>
    decreases digits.len(),
{
    if digits.len() > 1 && digits.last() == 48 {
        trim_zeros(digits.drop_last())
    } else {
        digits
    }
}

/// The digits part of scientific notation: the first digit, then the
/// decimal character and the others, if there are others.
pub open spec fn mantissa_text(shown: Seq<u8>, settings: ScientificSettings) -> Seq<char> {
    point_text(
        if settings.keep_trailing_zeroes {
            shown
        } else {
            trim_zeros(shown)
        },
        settings.decimal,
    )
}

/// The digits `t` with `decimal` after the first one, when there are more.
pub open spec fn point_text(t: Seq<u8>, decimal: char) -> Seq<char> {
    if t.len() == 0 {
        Seq::empty()
    } else if t.len() == 1 {
        seq![t[0] as char]
    } else {
        seq![t[0] as char, decimal] + chars_of(t.skip(1))
    }
}

/// The end of `digits.take(end)` once its trailing zeros are dropped.
fn trimmed_end(digits: &Vec<u8>, end: usize) -> (r: usize)
    requires
        end <= digits@.len(),
    ensures
        r <= end,
        digits@.take(r as int) == trim_zeros(digits@.take(end as int)),
{
    let mut r = end;
    while r > 1 && digits[r - 1] == 48
        invariant
            r <= end <= digits@.len(),
            trim_zeros(digits@.take(end as int)) == trim_zeros(digits@.take(r as int)),
        decreases r,
    {
        proof {
            assert(digits@.take(r as int).drop_last() =~= digits@.take(r - 1));
        }
        r = r - 1;
    }
    r
}

/// Writes the first `end` digits, with `decimal` after the first one.
fn write_point(out: &mut String, digits: &Vec<u8>, end: usize, decimal: char)
    requires
        end <= digits@.len(),
    ensures
        final(out)@ == old(out)@ + point_text(digits@.take(end as int), decimal),
{
    let ghost t = digits@.take(end as int);
    let ghost mark = out@;
    if end > 0 {
        push_char(out, digits[0] as char);
        if end > 1 {
            push_char(out, decimal);
            let mut i: usize = 1;
            while i < end
                invariant
                    1 <= i <= end <= digits@.len(),
                    t == digits@.take(end as int),
                    out@ == mark + seq![t[0] as char, decimal] + chars_of(t.subrange(1, i as int)),
                decreases end - i,
            {
                push_char(out, digits[i] as char);
                i = i + 1;
                proof {
                    assert(chars_of(t.subrange(1, i as int)) =~= chars_of(
                        t.subrange(1, i - 1),
                    ).push(t[i - 1] as char));
                }
            }
            proof {
                assert(t.subrange(1, end as int) =~= t.skip(1));
            }
        } else {
            proof {
                assert(out@ =~= mark + seq![t[0] as char]);
            }
        }
    } else {
        proof {
            assert(out@ =~= mark + Seq::<char>::empty());
        }
    }
}

/// `-` for a negative value, nothing otherwise.
pub open spec fn sign_text(negative: bool) -> Seq<char> {
    if negative {
        seq!['-']
    } else {
        Seq::empty()
    }
}

/// Scientific notation of `num`: `0` for zero; otherwise the sign, the
/// significant digits (truncated, or rounded when `round` is set) and
/// `e` with the decimal exponent of the leading digit.
pub open spec fn scientific_text(num: Approximint, round: bool, settings: ScientificSettings) -> Seq<
    char,
> {
    let digits = digit_bytes(abs(num.spec_coefficient()));
    let n = settings.significant_digits as nat;
    let carry: nat = if round && round_carries(digits, n) {
        1
    } else {
        0
    };
    if num.value() == 0 {
        seq!['0']
    } else {
        sign_text(num.spec_coefficient() < 0) + mantissa_text(
            shown_digits(digits, n, round),
            settings,
        ) + seq!['e'] + decimal_text(leading_exponent(num) + carry)
    }
}

/// The digits of a value, the decimal exponent of its leading digit, and its
/// sign.
#[derive(Clone, Copy, Debug)]
pub(crate) struct ScientificInfo {
    pub(crate) digits: DigitRing,
    pub(crate) exponent: u64,
    pub(crate) negative: bool,
}

impl ScientificInfo {
    /// The digits of `num`'s coefficient, most significant first.
    pub(crate) fn new(num: Approximint) -> (r: Self)
        requires
            num.value() != 0,
        ensures
            r.digits@ == digit_bytes(abs(num.spec_coefficient())),
            r.exponent == leading_exponent(num),
            r.negative == (num.spec_coefficient() < 0),
    {
        let c = num.coefficient();
        let ten_power = num.ten_power();
        let negative = c < 0;
        let mut coefficient: u32 = if c >= 0 { c as u32 } else { (-c) as u32 };
        let ghost m = coefficient as nat;
        proof {
            lemma_pow10_small();
            lemma_num_digits_below(m, 9);
            if c == 0 {
                assert(num.value() == 0) by (nonlinear_arith)
                    requires
                        num.value() == num.spec_coefficient() * crate::math::pow10(
                            num.spec_ten_power(),
                        ),
                        num.spec_coefficient() == 0,
                ;
            }
        }
        let mut digits = DigitRing::new();
        let mut count: u64 = 0;
        while coefficient > 0
            invariant
                digit_bytes(coefficient as nat) + digits@ == digit_bytes(m),
                digits@.len() == count,
                count + num_digits(coefficient as nat) == num_digits(m),
                num_digits(m) <= 9,
            decreases coefficient,
        {
            let digit = (coefficient % 10) as u8 + 48;
            proof {
                assert(num_digits(coefficient as nat) == 1 + num_digits((coefficient / 10) as nat));
                assert(digit_bytes(coefficient as nat) == digit_bytes(
                    (coefficient / 10) as nat,
                ).push(digit));
            }
            let ghost before = digits@;
            digits.push_back(digit);
            coefficient = coefficient / 10;
            count = count + 1;
            proof {
                assert(digits@ == seq![digit] + before);
                assert(digit_bytes(coefficient as nat) + digits@ =~= digit_bytes(m));
            }
        }
        proof {
            assert(digit_bytes(0) + digits@ =~= digits@);
            lemma_num_digits_below(m, 9);
            assert(m > 0);
            assert(num_digits(m) >= 1) by {
                assert(num_digits(m) == 1 + num_digits(m / 10));
            }
        }
        ScientificInfo { digits, exponent: count - 1 + ten_power as u64, negative }
    }

    /// The first `n` held digits, or all of them when fewer are held.
    pub(crate) open spec fn shown(self, n: nat) -> Seq<u8> {
        self.digits@.take(if n < self.digits@.len() { n as int } else { self.digits@.len() as int })
    }

    /// Rounds half up to `significant_digits` digits; nine leaves the digits
    /// as they are, as no digit beyond them is held.
    pub(crate) fn round(&mut self, significant_digits: u8)
        requires
            significant_digits <= 9,
            old(self).exponent < u64::MAX,
            forall|i: int|
                0 <= i < old(self).digits@.len() ==> is_digit(#[trigger] old(self).digits@[i]),
        ensures
            final(self).shown(significant_digits as nat) == shown_digits(
                old(self).digits@,
                significant_digits as nat,
                true,
            ),
            final(self).exponent == old(self).exponent + if round_carries(
                old(self).digits@,
                significant_digits as nat,
            ) {
                1int
            } else {
                0int
            },
            final(self).negative == old(self).negative,
    {
        let n = significant_digits as usize;
        let ghost ds = self.digits@;
        if n < self.digits.len() {
            let check = self.digits.get(n);
            if check >= 53 && check <= 57 {
                let mut carry = false;
                let mut rank = n;
                while rank > 0
                    invariant_except_break
                        forall|i: int| 0 <= i < rank ==> self.digits@[i] == ds[i],
                        forall|i: int|
                            rank <= i < n ==> #[trigger] self.digits@[i] == 48 && ds[i] == 57,
                        carry == (rank < n),
                        last_below_nine(ds, n as int) == last_below_nine(ds, rank as int),
                    invariant
                        rank <= n < ds.len(),
                        self.digits@.len() == ds.len(),
                        self.exponent == old(self).exponent,
                        self.negative == old(self).negative,
                        forall|i: int| n <= i < ds.len() ==> self.digits@[i] == ds[i],
                        forall|i: int| 0 <= i < ds.len() ==> is_digit(#[trigger] ds[i]),
                    ensures
                        carry ==> rank == 0 && n > 0 && last_below_nine(ds, n as int) < 0,
                        !carry && n > 0 ==> rank < n && self.digits@ == ds.take(rank as int).push(
                            (ds[rank as int] + 1) as u8,
                        ) + zeros((n - 1 - rank) as nat) + ds.skip(n as int) && rank
                            == last_below_nine(ds, n as int),
                        carry ==> forall|i: int|
                            0 <= i < n ==> #[trigger] self.digits@[i] == 48,
                        self.digits@.len() == ds.len(),
                        forall|i: int| n <= i < ds.len() ==> self.digits@[i] == ds[i],
                        self.exponent == old(self).exponent,
                        self.negative == old(self).negative,
                    decreases rank,
                {
                    let ghost top = rank;
                    proof {
                        assert forall|i: int| top <= i < n implies self.digits@[i] == 48 && ds[i]
                            == 57 by {
                            assert(self.digits@[i] == 48);
                        }
                    }
                    rank = rank - 1;
                    let digit = self.digits.get(rank);
                    proof {
                        assert(last_below_nine(ds, rank + 1) == if ds[rank as int] != 57 {
                            rank as int
                        } else {
                            last_below_nine(ds, rank as int)
                        });
                    }
                    if digit == 57 {
                        let ghost before = self.digits@;
                        self.digits.set(rank, 48);
                        carry = true;
                        proof {
                            assert forall|i: int| rank <= i < n implies #[trigger] self.digits@[i]
                                == 48 && ds[i] == 57 by {
                                if i > rank {
                                    assert(top <= i);
                                    assert(before[i] == 48 && ds[i] == 57);
                                }
                            }
                        }
                    } else {
                        let ghost before = self.digits@;
                        proof {
                            assert(is_digit(ds[rank as int]));
                        }
                        self.digits.set(rank, digit + 1);
                        carry = false;
                        proof {
                            let want = ds.take(rank as int).push((ds[rank as int] + 1) as u8)
                                + zeros((n - 1 - rank) as nat) + ds.skip(n as int);
                            assert(want.len() == self.digits@.len());
                            assert forall|i: int| 0 <= i < want.len() implies want[i]
                                == self.digits@[i] by {
                                if i < rank {
                                } else if i == rank {
                                } else if i < n {
                                    assert(before[i] == 48);
                                } else {
                                    assert(want[i] == ds[i]);
                                }
                            }
                            assert(self.digits@ =~= want);
                        }
                        break;
                    }
                }
                if carry {
                    let ghost before = self.digits@;
                    self.digits.push_back(49);
                    self.exponent = self.exponent + 1;
                    proof {
                        let want = seq![49u8] + zeros((n - 1) as nat);
                        assert(self.digits@ == pushed(before, 49));
                        assert(self.shown(n as nat).len() == want.len());
                        assert forall|i: int| 0 <= i < want.len() implies want[i] == self.shown(
                            n as nat,
                        )[i] by {
                            if i > 0 {
                                assert(before[i - 1] == 48);
                            }
                        }
                        assert(self.shown(n as nat) =~= want);
                    }
                } else {
                    proof {
                        if n > 0 {
                            assert(self.shown(n as nat) =~= shown_digits(ds, n as nat, true));
                        }
                    }
                }
                proof {
                    if n == 0 {
                        assert(self.shown(0) =~= Seq::<u8>::empty());
                    }
                }
            }
        }
    }

    /// Writes the sign, the first `settings.significant_digits` digits and
    /// the exponent.
    pub(crate) fn write_to(&self, out: &mut String, settings: ScientificSettings)
        ensures
            final(out)@ == old(out)@ + sign_text(self.negative) + mantissa_text(
                self.shown(settings.significant_digits as nat),
                settings,
            ) + seq!['e'] + decimal_text(self.exponent as nat),
    {
        if self.negative {
            push_char(out, '-');
        }
        let digits = self.digits.iter();
        let n = settings.significant_digits as usize;
        let shown_len = if n < digits.len() { n } else { digits.len() };
        let ghost shown = self.shown(settings.significant_digits as nat);
        proof {
            assert(digits@.take(shown_len as int) == shown);
        }
        let end = if settings.keep_trailing_zeroes {
            shown_len
        } else {
            trimmed_end(&digits, shown_len)
        };
        write_point(out, &digits, end, settings.decimal);
        push_char(out, 'e');
        push_decimal(out, self.exponent);
    }
}

/// Formats an [`Approximint`] using scientific notation.
#[derive(Clone, Copy, Debug, PartialEq, Eq)]
pub struct ScientificFormatter {
    num: Approximint,
    round: bool,
    settings: ScientificSettings,
}

impl ScientificFormatter {
    #[verifier::type_invariant]
    closed spec fn inv(self) -> bool {
        self.settings.significant_digits <= 9
    }

    /// The value formatted.
    pub closed spec fn spec_num(self) -> Approximint {
        self.num
    }

    /// Whether the shown digits are rounded.
    pub closed spec fn spec_round(self) -> bool {
        self.round
    }

    /// The display settings.
    pub closed spec fn spec_settings(self) -> ScientificSettings {
        self.settings
    }

    /// Sets the character to use between the whole number and decimal digits.
    ///
    /// By default, the decimal character is `.`.
    pub fn decimal(self, decimal: char) -> (r: Self)
        ensures
            r.spec_num() == self.spec_num(),
            r.spec_round() == self.spec_round(),
            r.spec_settings() == (ScientificSettings { decimal, ..self.spec_settings() }),
    {
        proof {
            use_type_invariant(&self);
        }
        let mut settings = self.settings;
        settings.decimal = decimal;
        ScientificFormatter { num: self.num, round: self.round, settings }
    }

    /// Performs rounding on the displayed value.
    pub fn rounded(self) -> (r: Self)
        ensures
            r.spec_num() == self.spec_num(),
            r.spec_round(),
            r.spec_settings() == self.spec_settings(),
    {
        proof {
            use_type_invariant(&self);
        }
        ScientificFormatter { num: self.num, round: true, settings: self.settings }
    }

    /// Sets the number of significant digits to display: at most nine, or
    /// at most eight when rounding, as no digit beyond the ninth is held to
    /// round with.
    pub fn significant_digits(self, digits: u8) -> (r: Self)
        requires
            digits <= 9,
            self.spec_round() ==> digits <= 8,
        ensures
            r.spec_num() == self.spec_num(),
            r.spec_round() == self.spec_round(),
            r.spec_settings() == (ScientificSettings {
                significant_digits: digits,
                ..self.spec_settings()
            }),
    {
        let mut settings = self.settings;
        settings.significant_digits = digits;
        ScientificFormatter { num: self.num, round: self.round, settings }
    }

    /// Prevents displaying trailing zeroes.
    pub fn truncate_zeroes(self) -> (r: Self)
        ensures
            r.spec_num() == self.spec_num(),
            r.spec_round() == self.spec_round(),
            r.spec_settings() == (ScientificSettings {
                keep_trailing_zeroes: false,
                ..self.spec_settings()
            }),
    {
        proof {
            use_type_invariant(&self);
        }
        let mut settings = self.settings;
        settings.keep_trailing_zeroes = false;
        ScientificFormatter { num: self.num, round: self.round, settings }
    }

    /// The formatted text.
    pub fn to_text(&self) -> (r: String)
        ensures
            r@ == scientific_text(self.spec_num(), self.spec_round(), self.spec_settings()),
    {
        proof {
            use_type_invariant(self);
        }
        let mut out = String::new();
        let num = self.num;
        if num.ten_power() == 0 && num.coefficient() == 0 {
            push_char(&mut out, '0');
            proof {
                assert(num.value() == 0) by {
                    lemma_pow10_small();
                }
                assert(out@ =~= seq!['0']);
            }
            return out;
        }
        proof {
            lemma_value_zero(num);
        }
        let mut info = ScientificInfo::new(num);
        let ghost digits = info.digits@;
        if self.round {
            proof {
                lemma_pow10_small();
                lemma_num_digits_below(abs(num.spec_coefficient()), 9);
                lemma_digit_bytes_len(abs(num.spec_coefficient()));
            }
            info.round(self.settings.significant_digits);
        }
        info.write_to(&mut out, self.settings);
        proof {
            assert(out@ =~= scientific_text(num, self.round, self.settings));
        }
        out
    }
}

/// A normal value is zero exactly when its coefficient and ten-power are.
pub proof fn lemma_value_zero(num: Approximint)
    requires
        num.is_normal(),
    ensures
        (num.value() == 0) == (num.spec_coefficient() == 0 && num.spec_ten_power() == 0),
{
    crate::math::lemma_pow10_positive(num.spec_ten_power());
    let c = num.spec_coefficient();
    let p = pow10(num.spec_ten_power()) as int;
    if c != 0 {
        assert(c * p != 0) by (nonlinear_arith)
            requires
                c != 0,
                p >= 1,
        ;
    } else {
        assert(c * p == 0);
    }
}

impl core::convert::From<Approximint> for ScientificFormatter {
    fn from(num: Approximint) -> (r: Self)
        ensures
            r.spec_num() == num,
            !r.spec_round(),
            r.spec_settings() == ScientificSettings::spec_default(),
    {
        ScientificFormatter { num, round: false, settings: ScientificSettings::default() }
    }
}

impl vstd::std_specs::convert::FromSpecImpl<Approximint> for ScientificFormatter {
    open spec fn obeys_from_spec() -> bool {
        true
    }

    closed spec fn from_spec(num: Approximint) -> Self {
        ScientificFormatter { num, round: false, settings: ScientificSettings::spec_default() }
    }
}

impl Approximint {
    /// Returns a formatter that writes this number in scientific notation.
    pub fn as_scientific(self) -> (r: ScientificFormatter)
        ensures
            r.spec_num() == self,
            !r.spec_round(),
            r.spec_settings() == ScientificSettings::spec_default(),
    {
        ScientificFormatter::from(self)
    }
}

} // verus!
