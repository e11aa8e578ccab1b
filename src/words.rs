//! Word notation: powers of ten replaced by words such as "million" or
//! "googol", applied again to what is left for compound magnitudes.
use vstd::prelude::*;
use crate::approximint::Approximint;
use crate::decimal::{grouped, padded, write_grouped, DecimalFormatter};
use crate::digits::{digit_bytes, lemma_digit_bytes_len, push_char};
use crate::math::{abs, lemma_num_digits_below, lemma_pow10_small};
use crate::scientific::{leading_exponent, lemma_value_zero, sign_text, ScientificInfo};

verus! {

/// The first window `(words[i], words[i + 1])` from `i` on whose lower power
/// is not below `before`; the last index when there is none.
pub open spec fn window_start(words: Seq<(u32, &str)>, before: nat, i: int) -> int
    decreases words.len() - i,
{
    if i >= words.len() - 1 {
        i
    } else if (words[i].0 as nat) < before {
        window_start(words, before, i + 1)
    } else {
        i
    }
}

/// The first window from `i` on whose powers bracket `exponent`; the last
/// word when there is none.
pub open spec fn find_window(words: Seq<(u32, &str)>, exponent: nat, i: int) -> int
    decreases words.len() - i,
{
    if i >= words.len() - 1 {
        words.len() - 1
    } else if words[i].0 <= exponent < words[i + 1].0 {
        i
    } else {
        find_window(words, exponent, i + 1)
    }
}

/// The word tried for a number whose leading digit has exponent `exponent`.
pub open spec fn chosen_word(words: Seq<(u32, &str)>, before: nat, exponent: nat) -> int {
    find_window(words, exponent, window_start(words, before, 0))
}

/// The digits of a number whose leading digit has exponent `exponent`: the
/// integer digits held, grouped, then one more digit after a `.` when it is
/// held and not zero.
pub open spec fn fraction_text(digits: Seq<u8>, exponent: nat, group: nat, separator: char) -> Seq<
    char,
> {
    let count: nat = if exponent + 1 < digits.len() {
        exponent + 1
    } else {
        digits.len()
    };
    let next = (exponent + 1) as int;
    grouped(digits, count, next, group, separator) + if next < digits.len() && digits[next]
        != 48 {
        seq!['.', digits[next] as char]
    } else {
        Seq::empty()
    }
}

/// The words for a number with digits `digits` whose leading digit has
/// exponent `exponent`: when the chosen word's power is at most the
/// exponent, the number of such units (in words again while it has at
/// least `before` more powers of ten), a space and the word; otherwise the
/// digits alone.
pub open spec fn words_text(
    words: Seq<(u32, &str)>,
    before: nat,
    exponent: nat,
    digits: Seq<u8>,
    group: nat,
    separator: char,
) -> Seq<char>
    decreases exponent,
{
    let word = words[chosen_word(words, before, exponent)];
    if exponent < word.0 {
        fraction_text(digits, exponent, group, separator)
    } else {
        let rest = (exponent - word.0) as nat;
        let units = if rest < before {
            fraction_text(digits, rest, group, separator)
        } else if word.0 > 0 {
            words_text(words, before, rest, digits, group, separator)
        } else {
            Seq::empty()
        };
        units + seq![' '] + word.1@
    }
}

/// A word table the formatter can use: at least one word, each for a
/// positive power of ten.
pub open spec fn valid_words(words: Seq<(u32, &str)>) -> bool {
    &&& words.len() >= 1
    &&& forall|i: int| 0 <= i < words.len() ==> #[trigger] words[i].0 > 0
}

/// The English word table.
pub open spec fn english_words() -> Seq<(u32, &'static str)> {
    seq![
        (3u32, "thousand"),
        (6u32, "million"),
        (9u32, "billion"),
        (12u32, "trillion"),
        (15u32, "quadrillion"),
        (18u32, "quintillion"),
        (21u32, "sextillion"),
        (24u32, "septillion"),
        (27u32, "octillion"),
        (30u32, "nonillion"),
        (33u32, "decillion"),
        (36u32, "undecillion"),
        (39u32, "duodecillion"),
        (42u32, "tredecillion"),
        (45u32, "quattuordecillion"),
        (48u32, "quindecillion"),
        (51u32, "sexdecillion"),
        (54u32, "septendecillion"),
        (57u32, "octodecillion"),
        (60u32, "novemdecillion"),
        (63u32, "vigintillion"),
        (66u32, "unvigintillion"),
        (69u32, "duovigintillion"),
        (72u32, "trevigintillion"),
        (75u32, "quattuorvigintillion"),
        (78u32, "quinvigintillion"),
        (81u32, "sexvigintillion"),
        (84u32, "septenvigintillion"),
        (87u32, "octovigintillion"),
        (90u32, "novemvigintillion"),
        (93u32, "trigintillion"),
        (100u32, "googol"),
        (303u32, "centillion"),
    ]
}

/// Formats an [`Approximint`] using a word list.
#[derive(Clone, Debug)]
pub struct WordFormatter<'a> {
    decimal: DecimalFormatter,
    decimal_before: u32,
    words: Vec<(u32, &'a str)>,
    round: bool,
}

impl<'a> WordFormatter<'a> {
    /// The value formatted.
    pub closed spec fn spec_num(&self) -> Approximint {
        self.decimal.spec_num()
    }

    /// The character between digit groups.
    pub closed spec fn spec_separator(&self) -> char {
        self.decimal.spec_separator()
    }

    /// The number of digits in a group; zero for no grouping.
    pub closed spec fn spec_digits_per_separator(&self) -> nat {
        self.decimal.spec_digits_per_separator()
    }

    /// The smallest power of ten that a word may stand for.
    pub closed spec fn spec_decimal_before(&self) -> nat {
        self.decimal_before as nat
    }

    /// The word table: powers of ten and their words.
    pub closed spec fn spec_words(&self) -> Seq<(u32, &'a str)> {
        self.words@
    }

    /// Whether rounding was asked for.
    pub closed spec fn spec_round(&self) -> bool {
        self.round
    }

    /// Whether the value is written with at least one word.
    pub open spec fn uses_words(&self) -> bool {
        let e = leading_exponent(self.spec_num());
        &&& self.spec_num().value() != 0
        &&& self.spec_words()[chosen_word(self.spec_words(), self.spec_decimal_before(), e)].0
            <= e
    }

    /// The formatter's text: `0` for zero, otherwise the sign and the words.
    pub open spec fn spec_text(&self) -> Seq<char> {
        let num = self.spec_num();
        if num.value() == 0 {
            seq!['0']
        } else {
            sign_text(num.spec_coefficient() < 0) + words_text(
                self.spec_words(),
                self.spec_decimal_before(),
                leading_exponent(num),
                digit_bytes(abs(num.spec_coefficient())),
                self.spec_digits_per_separator(),
                self.spec_separator(),
            )
        }
    }

    /// Returns a new formatter for `num` using the given `words`.
    ///
    /// `words` is a slice of pairs of powers of ten and the associated word,
    /// such as `(3, "thousand")` and `(6, "million")`. The formatter reduces
    /// `num`'s ten-power by the largest matching word, and repeats the
    /// process until the value is too small for any eligible word. The rest
    /// is written in decimal notation with a single decimal digit.
    pub fn new(num: Approximint, words: &'a [(u32, &'a str)]) -> (r: Self)
        ensures
            r.spec_num() == num,
            r.spec_separator() == ',',
            r.spec_digits_per_separator() == 3,
            r.spec_decimal_before() == 0,
            r.spec_words() == words@,
            !r.spec_round(),
    {
        let mut table: Vec<(u32, &'a str)> = Vec::new();
        let mut i: usize = 0;
        while i < words.len()
            invariant
                i <= words@.len(),
                table@ == words@.take(i as int),
            decreases words@.len() - i,
        {
            table.push(words[i]);
            i = i + 1;
            proof {
                assert(table@ =~= words@.take(i as int));
            }
        }
        proof {
            assert(table@ =~= words@);
        }
        WordFormatter {
            decimal: DecimalFormatter::from(num),
            decimal_before: 0,
            words: table,
            round: false,
        }
    }

    /// Asks for rounding before formatting. Rounding is not supported where
    /// a word is used: such a formatter cannot be written.
    pub fn rounded(self) -> (r: Self)
        ensures
            r.spec_num() == self.spec_num(),
            r.spec_separator() == self.spec_separator(),
            r.spec_digits_per_separator() == self.spec_digits_per_separator(),
            r.spec_decimal_before() == self.spec_decimal_before(),
            r.spec_words() == self.spec_words(),
            r.spec_round(),
    {
        WordFormatter { round: true, ..self }
    }

    /// Prevents using words for powers of ten less than `ten_power`.
    ///
    /// The default English formatter sets this to 9, so values under one
    /// billion are written without words.
    pub fn decimal_before_10_power(self, ten_power: u32) -> (r: Self)
        ensures
            r.spec_num() == self.spec_num(),
            r.spec_separator() == self.spec_separator(),
            r.spec_digits_per_separator() == self.spec_digits_per_separator(),
            r.spec_decimal_before() == ten_power,
            r.spec_words() == self.spec_words(),
            r.spec_round() == self.spec_round(),
    {
        WordFormatter { decimal_before: ten_power, ..self }
    }

    /// Sets the character to use between grouped integer digits.
    ///
    /// The default separator is `,`.
    pub fn separator(self, separator: char) -> (r: Self)
        ensures
            r.spec_num() == self.spec_num(),
            r.spec_separator() == separator,
            r.spec_digits_per_separator() == self.spec_digits_per_separator(),
            r.spec_decimal_before() == self.spec_decimal_before(),
            r.spec_words() == self.spec_words(),
            r.spec_round() == self.spec_round(),
    {
        let decimal = self.decimal.separator(separator);
        WordFormatter { decimal, ..self }
    }

    /// Sets the number of integer digits between each separator character;
    /// zero turns grouping off.
    ///
    /// The default is 3.
    pub fn digits_per_separator(self, digits: u8) -> (r: Self)
        ensures
            r.spec_num() == self.spec_num(),
            r.spec_separator() == self.spec_separator(),
            r.spec_digits_per_separator() == digits,
            r.spec_decimal_before() == self.spec_decimal_before(),
            r.spec_words() == self.spec_words(),
            r.spec_round() == self.spec_round(),
    {
        let decimal = self.decimal.digits_per_separator(digits);
        WordFormatter { decimal, ..self }
    }

    /// The index of the word tried for exponent `exponent`.
    fn choose_word(&self, exponent: u64) -> (r: usize)
        requires
            self.words@.len() >= 1,
        ensures
            r == chosen_word(self.words@, self.decimal_before as nat, exponent as nat),
            r < self.words@.len(),
    {
        let words = &self.words;
        let last = words.len() - 1;
        let mut start: usize = 0;
        while start < last && words[start].0 < self.decimal_before
            invariant
                start <= last,
                last == words@.len() - 1,
                window_start(words@, self.decimal_before as nat, 0) == window_start(
                    words@,
                    self.decimal_before as nat,
                    start as int,
                ),
            decreases last - start,
        {
            start = start + 1;
        }
        let mut i = start;
        while i < last
            invariant
                start <= i <= last,
                last == words@.len() - 1,
                words@ == self.words@,
                chosen_word(words@, self.decimal_before as nat, exponent as nat) == find_window(
                    words@,
                    exponent as nat,
                    i as int,
                ),
            decreases last - i,
        {
            if words[i].0 as u64 <= exponent && exponent < words[i + 1].0 as u64 {
                return i;
            }
            i = i + 1;
        }
        last
    }

    /// Writes the digits of a number whose leading digit has exponent
    /// `exponent`, with at most one decimal digit.
    fn write_fraction(&self, out: &mut String, digits: &Vec<u8>, exponent: u64)
        requires
            exponent < u64::MAX,
        ensures
            final(out)@ == old(out)@ + fraction_text(
                digits@,
                exponent as nat,
                self.decimal.spec_digits_per_separator(),
                self.decimal.spec_separator(),
            ),
    {
        let count = if exponent + 1 < digits.len() as u64 {
            exponent + 1
        } else {
            digits.len() as u64
        };
        write_grouped(
            out,
            digits,
            count,
            exponent + 1,
            self.decimal.group_size(),
            self.decimal.separator_char(),
        );
        proof {
            assert(padded(digits@, count as nat) == digits@);
        }
        let ghost mark = out@;
        if exponent + 1 < digits.len() as u64 {
            let next = digits[(exponent + 1) as usize];
            if next != 48 {
                push_char(out, '.');
                push_char(out, next as char);
            }
        }
        proof {
            assert(out@ =~= old(out)@ + fraction_text(
                digits@,
                exponent as nat,
                self.decimal.spec_digits_per_separator(),
                self.decimal.spec_separator(),
            ));
        }
    }

    /// Writes the words for a number with digits `digits` whose leading digit
    /// has exponent `exponent`.
    fn write_words(&self, out: &mut String, digits: &Vec<u8>, exponent: u64)
        requires
            valid_words(self.words@),
            exponent < u64::MAX,
            self.round ==> exponent < self.words@[chosen_word(
                self.words@,
                self.decimal_before as nat,
                exponent as nat,
            )].0,
        ensures
            final(out)@ == old(out)@ + words_text(
                self.words@,
                self.decimal_before as nat,
                exponent as nat,
                digits@,
                self.decimal.spec_digits_per_separator(),
                self.decimal.spec_separator(),
            ),
        decreases exponent,
    {
        let i = self.choose_word(exponent);
        let (power, word) = self.words[i];
        proof {
            assert(power > 0);
        }
        if exponent < power as u64 {
            self.write_fraction(out, digits, exponent);
        } else {
            let rest = exponent - power as u64;
            if rest < self.decimal_before as u64 {
                self.write_fraction(out, digits, rest);
            } else {
                self.write_words(out, digits, rest);
            }
            push_char(out, ' ');
            out.append(word);
        }
    }

    /// The formatted text.
    pub fn to_text(&self) -> (r: String)
        requires
            valid_words(self.spec_words()),
            self.spec_round() ==> !self.uses_words(),
        ensures
            r@ == self.spec_text(),
    {
        let num = self.decimal.num();
        let mut out = String::new();
        if num.ten_power() == 0 && num.coefficient() == 0 {
            push_char(&mut out, '0');
            proof {
                lemma_value_zero(num);
                assert(out@ =~= seq!['0']);
            }
            return out;
        }
        proof {
            lemma_value_zero(num);
            lemma_pow10_small();
            lemma_num_digits_below(abs(num.spec_coefficient()), 9);
            lemma_digit_bytes_len(abs(num.spec_coefficient()));
        }
        let info = ScientificInfo::new(num);
        if info.negative {
            push_char(&mut out, '-');
        }
        let digits = info.digits.iter();
        self.write_words(&mut out, &digits, info.exponent);
        proof {
            assert(out@ =~= self.spec_text());
        }
        out
    }
}

impl WordFormatter<'static> {
    /// Returns a formatter for the English language, which uses no word
    /// below one billion.
    pub fn english(num: Approximint) -> (r: Self)
        ensures
            r.spec_num() == num,
            r.spec_separator() == ',',
            r.spec_digits_per_separator() == 3,
            r.spec_decimal_before() == 9,
            r.spec_words() == english_words(),
            !r.spec_round(),
    {
        let words: Vec<(u32, &'static str)> = vec![
            (3u32, "thousand"),
            (6u32, "million"),
            (9u32, "billion"),
            (12u32, "trillion"),
            (15u32, "quadrillion"),
            (18u32, "quintillion"),
            (21u32, "sextillion"),
            (24u32, "septillion"),
            (27u32, "octillion"),
            (30u32, "nonillion"),
            (33u32, "decillion"),
            (36u32, "undecillion"),
            (39u32, "duodecillion"),
            (42u32, "tredecillion"),
            (45u32, "quattuordecillion"),
            (48u32, "quindecillion"),
            (51u32, "sexdecillion"),
            (54u32, "septendecillion"),
            (57u32, "octodecillion"),
            (60u32, "novemdecillion"),
            (63u32, "vigintillion"),
            (66u32, "unvigintillion"),
            (69u32, "duovigintillion"),
            (72u32, "trevigintillion"),
            (75u32, "quattuorvigintillion"),
            (78u32, "quinvigintillion"),
            (81u32, "sexvigintillion"),
            (84u32, "septenvigintillion"),
            (87u32, "octovigintillion"),
            (90u32, "novemvigintillion"),
            (93u32, "trigintillion"),
            (100u32, "googol"),
            (303u32, "centillion"),
        ];
        proof {
            assert(words@ =~= english_words());
        }
        WordFormatter {
            decimal: DecimalFormatter::from(num),
            decimal_before: 9,
            words,
            round: false,
        }
    }
}

impl Approximint {
    /// Returns a formatter that writes this number with English words.
    pub fn as_english(self) -> (r: WordFormatter<'static>)
        ensures
            r.spec_num() == self,
            r.spec_separator() == ',',
            r.spec_digits_per_separator() == 3,
            r.spec_decimal_before() == 9,
            r.spec_words() == english_words(),
            !r.spec_round(),
    {
        WordFormatter::english(self)
    }
}

} // verus!
