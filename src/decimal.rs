//! Decimal notation with grouped digits, and the default renderings of an
//! [`Approximint`].
use vstd::prelude::*;
use crate::approximint::Approximint;
use crate::digits::{digit_bytes, lemma_digit_bytes_len, push_char, zeros};
use crate::math::{abs, lemma_num_digits_below, lemma_pow10_small};
use crate::scientific::{
    lemma_value_zero, scientific_text, sign_text, ScientificFormatter, ScientificInfo,
    ScientificSettings,
};

verus! {

/// The character written before digit `i` of `s`, digits being grouped by
/// `group` counted from the end of a number of `total` digits, followed by
/// the digit itself.
pub open spec fn grouped_piece(s: Seq<u8>, i: int, total: int, group: nat, separator: char) -> Seq<
    char,
> {
    if i > 0 && group > 0 && (total - i) % (group as int) == 0 {
        seq![separator, s[i] as char]
    } else {
        seq![s[i] as char]
    }
}

/// The first `k` digits of `s`, with `separator` between groups of `group`
/// digits counted from the end of a number of `total` digits; a group of
/// zero means no separators.
pub open spec fn grouped(s: Seq<u8>, k: nat, total: int, group: nat, separator: char) -> Seq<char>
    decreases k,
{
    if k == 0 {
        Seq::empty()
    } else {
        grouped(s, (k - 1) as nat, total, group, separator) + grouped_piece(
            s,
            k - 1,
            total,
            group,
            separator,
        )
    }
}

/// The digits of `|num|`: the coefficient's digits, then one zero per power
/// of ten.
pub open spec fn value_digits(num: Approximint) -> Seq<u8> {
    digit_bytes(abs(num.spec_coefficient())) + zeros(num.spec_ten_power())
}

/// Decimal notation of `num`: `0` for zero; scientific notation with the
/// default settings from the ten-power `scientific_after` on; otherwise the
/// sign and the grouped digits.
pub open spec fn decimal_text(num: Approximint, separator: char, group: nat, scientific_after: nat) -> Seq<
    char,
> {
    if num.value() == 0 {
        seq!['0']
    } else if num.spec_ten_power() >= scientific_after {
        scientific_text(num, false, ScientificSettings::spec_default())
    } else {
        sign_text(num.spec_coefficient() < 0) + grouped(
            value_digits(num),
            value_digits(num).len(),
            value_digits(num).len() as int,
            group,
            separator,
        )
    }
}

/// `digits` followed by zeros up to `count` digits.
pub open spec fn padded(digits: Seq<u8>, count: nat) -> Seq<u8> {
    if count > digits.len() {
        digits + zeros((count - digits.len()) as nat)
    } else {
        digits
    }
}

/// Writes the first `count` digits of `digits` followed by zeros, grouped
/// by `group` with `separator` as in a number of `total` digits.
pub(crate) fn write_grouped(
    out: &mut String,
    digits: &Vec<u8>,
    count: u64,
    total: u64,
    group: u8,
    separator: char,
)
    requires
        count <= total,
    ensures
        final(out)@ == old(out)@ + grouped(
            padded(digits@, count as nat),
            count as nat,
            total as int,
            group as nat,
            separator,
        ),
{
    let ghost s = padded(digits@, count as nat);
    let ghost mark = out@;
    let mut index: u64 = 0;
    while index < count
        invariant
            index <= count <= total,
            s == padded(digits@, count as nat),
            out@ == mark + grouped(s, index as nat, total as int, group as nat, separator),
        decreases count - index,
    {
        if index > 0 && group > 0 && (total - index) % group as u64 == 0 {
            push_char(out, separator);
        }
        let digit = if index < digits.len() as u64 {
            digits[index as usize]
        } else {
            48
        };
        push_char(out, digit as char);
        proof {
            assert(s[index as int] == digit);
        }
        index = index + 1;
        proof {
            assert(out@ =~= mark + grouped(s, index as nat, total as int, group as nat, separator));
        }
    }
}

/// Formats an [`Approximint`] using decimal notation.
#[derive(Clone, Copy, Debug, PartialEq, Eq)]
pub struct DecimalFormatter {
    num: Approximint,
    separator: char,
    digits_per_separator: u8,
    scientific_after: u32,
}

impl DecimalFormatter {
    /// The value formatted.
    pub closed spec fn spec_num(self) -> Approximint {
        self.num
    }

    /// The character between digit groups.
    pub closed spec fn spec_separator(self) -> char {
        self.separator
    }

    /// The number of digits in a group; zero for no grouping.
    pub closed spec fn spec_digits_per_separator(self) -> nat {
        self.digits_per_separator as nat
    }

    /// The ten-power from which scientific notation is used.
    pub closed spec fn spec_scientific_after(self) -> nat {
        self.scientific_after as nat
    }

    /// The formatter's text.
    pub open spec fn spec_text(self) -> Seq<char> {
        decimal_text(
            self.spec_num(),
            self.spec_separator(),
            self.spec_digits_per_separator(),
            self.spec_scientific_after(),
        )
    }

    /// The value formatted, for the word formatter.
    pub(crate) fn num(&self) -> (r: Approximint)
        ensures
            r == self.spec_num(),
    {
        self.num
    }

    /// The separator, for the word formatter.
    pub(crate) fn separator_char(&self) -> (r: char)
        ensures
            r == self.spec_separator(),
    {
        self.separator
    }

    /// The group size, for the word formatter.
    pub(crate) fn group_size(&self) -> (r: u8)
        ensures
            r == self.spec_digits_per_separator(),
    {
        self.digits_per_separator
    }

    /// Sets the character to use between grouped integer digits.
    ///
    /// The default separator is `,`.
    pub fn separator(self, separator: char) -> (r: Self)
        ensures
            r.spec_num() == self.spec_num(),
            r.spec_separator() == separator,
            r.spec_digits_per_separator() == self.spec_digits_per_separator(),
            r.spec_scientific_after() == self.spec_scientific_after(),
    {
        DecimalFormatter { separator, ..self }
    }

    /// Sets the number of integer digits between each separator character;
    /// zero turns grouping off.
    ///
    /// The default is 3.
    pub fn digits_per_separator(self, digits: u8) -> (r: Self)
        ensures
            r.spec_num() == self.spec_num(),
            r.spec_separator() == self.spec_separator(),
            r.spec_digits_per_separator() == digits,
            r.spec_scientific_after() == self.spec_scientific_after(),
    {
        DecimalFormatter { digits_per_separator: digits, ..self }
    }

    /// The formatted text.
    pub fn to_text(&self) -> (r: String)
        ensures
            r@ == self.spec_text(),
    {
        let num = self.num;
        if num.ten_power() == 0 && num.coefficient() == 0 {
            let mut out = String::new();
            push_char(&mut out, '0');
            proof {
                lemma_value_zero(num);
                assert(out@ =~= seq!['0']);
            }
            return out;
        }
        if num.ten_power() >= self.scientific_after {
            return ScientificFormatter::from(num).to_text();
        }
        proof {
            lemma_value_zero(num);
            lemma_pow10_small();
            lemma_num_digits_below(abs(num.spec_coefficient()), 9);
            lemma_digit_bytes_len(abs(num.spec_coefficient()));
        }
        let info = ScientificInfo::new(num);
        let mut out = String::new();
        if info.negative {
            push_char(&mut out, '-');
        }
        let digits = info.digits.iter();
        let total = info.exponent + 1;
        write_grouped(&mut out, &digits, total, total, self.digits_per_separator, self.separator);
        proof {
            assert(value_digits(num) =~= padded(digits@, total as nat));
            assert(out@ =~= self.spec_text());
        }
        out
    }
}

impl core::convert::From<Approximint> for DecimalFormatter {
    fn from(num: Approximint) -> (r: Self)
        ensures
            r.spec_num() == num,
            r.spec_separator() == ',',
            r.spec_digits_per_separator() == 3,
            r.spec_scientific_after() == 30,
    {
        DecimalFormatter { num, separator: ',', digits_per_separator: 3, scientific_after: 30 }
    }
}

impl vstd::std_specs::convert::FromSpecImpl<Approximint> for DecimalFormatter {
    open spec fn obeys_from_spec() -> bool {
        true
    }

    closed spec fn from_spec(num: Approximint) -> Self {
        DecimalFormatter { num, separator: ',', digits_per_separator: 3, scientific_after: 30 }
    }
}

/// The default text of `num`: decimal notation while the ten-power is zero,
/// scientific notation otherwise.
pub open spec fn default_text(num: Approximint) -> Seq<char> {
    if num.spec_ten_power() > 0 {
        scientific_text(num, false, ScientificSettings::spec_default())
    } else {
        decimal_text(num, ',', 3, 30)
    }
}

/// The full-precision text of `num`: decimal notation while the ten-power is
/// zero, otherwise scientific notation with all nine digits and no trailing
/// zeros.
pub open spec fn debug_text(num: Approximint) -> Seq<char> {
    if num.spec_ten_power() > 0 {
        scientific_text(
            num,
            false,
            ScientificSettings {
                significant_digits: 9,
                keep_trailing_zeroes: false,
                ..ScientificSettings::spec_default()
            },
        )
    } else {
        decimal_text(num, ',', 3, 30)
    }
}

impl Approximint {
    /// Returns a formatter that writes this number in decimal notation.
    pub fn as_decimal(self) -> (r: DecimalFormatter)
        ensures
            r.spec_num() == self,
            r.spec_separator() == ',',
            r.spec_digits_per_separator() == 3,
            r.spec_scientific_after() == 30,
    {
        DecimalFormatter::from(self)
    }

    /// The default text: decimal notation for values below a billion,
    /// scientific notation with four truncated digits above.
    pub fn to_text(&self) -> (r: String)
        ensures
            r@ == default_text(*self),
    {
        if self.ten_power() > 0 {
            ScientificFormatter::from(*self).to_text()
        } else {
            DecimalFormatter::from(*self).to_text()
        }
    }

    /// The text with all digits of precision.
    pub fn to_debug_text(&self) -> (r: String)
        ensures
            r@ == debug_text(*self),
    {
        if self.ten_power() > 0 {
            ScientificFormatter::from(*self).significant_digits(9).truncate_zeroes().to_text()
        } else {
            DecimalFormatter::from(*self).to_text()
        }
    }
}

} // verus!
