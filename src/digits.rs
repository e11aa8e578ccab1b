//! Decimal digits: their specification as ASCII bytes and characters, the
//! fixed nine-slot ring that holds a coefficient's digits, and the text
//! primitives the formatters write with.
use vstd::prelude::*;
use crate::math::num_digits;

verus! {

/// The ASCII byte of the decimal digit `d`.
pub open spec fn digit_byte(d: nat) -> u8 {
    (48 + d) as u8
}

/// The decimal digits of `n` as ASCII bytes, most significant first; zero has
/// none.
pub open spec fn digit_bytes(n: nat) -> Seq<u8>
    decreases n,
{
    if n == 0 {
        Seq::empty()
    } else {
        digit_bytes(n / 10).push(digit_byte(n % 10))
    }
}

/// The characters of a sequence of ASCII bytes.
pub open spec fn chars_of(bytes: Seq<u8>) -> Seq<char> {
    bytes.map_values(|b: u8| b as char)
}

/// The decimal text of `n`: its digits, or `0` for zero.
pub open spec fn decimal_text(n: nat) -> Seq<char> {
    if n == 0 {
        seq!['0']
    } else {
        chars_of(digit_bytes(n))
    }
}

/// `k` zero digits.
pub open spec fn zeros(k: nat) -> Seq<u8> {
    Seq::new(k, |i: int| 48u8)
}

/// An ASCII decimal digit.
pub open spec fn is_digit(b: u8) -> bool {
    48 <= b <= 57
}

pub proof fn lemma_digit_bytes_len(n: nat)
    ensures
        digit_bytes(n).len() == num_digits(n),
        forall|i: int| 0 <= i < digit_bytes(n).len() ==> is_digit(#[trigger] digit_bytes(n)[i]),
        n > 0 ==> digit_bytes(n)[0] != 48,
    decreases n,
{
    if n > 0 {
        lemma_digit_bytes_len(n / 10);
        if n / 10 == 0 {
            assert(digit_bytes(n)[0] == digit_byte(n % 10));
        } else {
            assert(digit_bytes(n)[0] == digit_bytes(n / 10)[0]);
        }
    }
}

/// Relies on `String::push`: appends one character.
#[verifier::external_body]
pub(crate) fn push_char(s: &mut String, c: char)
    ensures
        final(s)@ == old(s)@.push(c),
{
    s.push(c);
}

/// Appends the decimal text of `n`.
pub(crate) fn push_decimal(out: &mut String, n: u64)
    ensures
        final(out)@ == old(out)@ + decimal_text(n as nat),
    decreases n,
{
    if n >= 10 {
        push_decimal(out, n / 10);
    }
    push_char(out, ((n % 10) as u8 + 48) as char);
    proof {
        if n >= 10 {
            assert(decimal_text(n as nat) == chars_of(digit_bytes((n / 10) as nat)).push(
                ((n % 10) as u8 + 48) as char,
            ));
        } else {
            assert(digit_bytes((n / 10) as nat) == Seq::<u8>::empty());
        }
    }
}

/// `digit` put in front of `held`, keeping at most nine digits.
pub open spec fn pushed(held: Seq<u8>, digit: u8) -> Seq<u8> {
    if held.len() < 9 {
        seq![digit] + held
    } else {
        seq![digit] + held.take(8)
    }
}

/// A fixed nine-slot circular buffer of ASCII digits.
///
/// `push_back` writes the newest digit in front; once nine digits are held, it
/// overwrites the oldest. The view lists the held digits newest first, which
/// is most significant first when a number is pushed from its last digit.
#[derive(Clone, Copy, Debug)]
pub(crate) struct DigitRing {
    digits: [u8; 9],
    first: u8,
    len: u8,
}

impl View for DigitRing {
    type V = Seq<u8>;

    closed spec fn view(&self) -> Seq<u8> {
        Seq::new(self.len as nat, |r: int| self.digits@[(self.first + 8 - r) % 9])
    }
}

impl DigitRing {
    #[verifier::type_invariant]
    closed spec fn inv(self) -> bool {
        &&& self.first < 9
        &&& self.len <= 9
    }

    /// An empty ring.
    pub(crate) fn new() -> (r: Self)
        ensures
            r@ == Seq::<u8>::empty(),
    {
        let r = DigitRing { digits: [0u8; 9], first: 0, len: 0 };
        proof {
            assert(r@ =~= Seq::<u8>::empty());
        }
        r
    }

    /// The number of digits held.
    pub(crate) fn len(&self) -> (r: usize)
        ensures
            r == self@.len(),
            r <= 9,
    {
        proof {
            use_type_invariant(self);
        }
        self.len as usize
    }

    /// Puts `digit` in front, dropping the oldest digit when nine are held.
    pub(crate) fn push_back(&mut self, digit: u8)
        ensures
            final(self)@ == pushed(old(self)@, digit),
    {
        proof {
            use_type_invariant(&*self);
        }
        let first = self.first as usize;
        self.digits[first] = digit;
        self.first = if self.first == 8 { 0 } else { self.first + 1 };
        if self.len < 9 {
            self.len = self.len + 1;
        }
        proof {
            assert(self@ =~= pushed(old(self)@, digit));
        }
    }

    /// The digit of rank `rank`, counting from the newest.
    pub(crate) fn get(&self, rank: usize) -> (r: u8)
        requires
            rank < self@.len(),
        ensures
            r == self@[rank as int],
    {
        proof {
            use_type_invariant(self);
        }
        self.digits[(self.first as usize + 8 - rank) % 9]
    }

    /// Replaces the digit of rank `rank`.
    pub(crate) fn set(&mut self, rank: usize, digit: u8)
        requires
            rank < old(self)@.len(),
        ensures
            final(self)@ == old(self)@.update(rank as int, digit),
    {
        proof {
            use_type_invariant(&*self);
        }
        let slot = (self.first as usize + 8 - rank) % 9;
        self.digits[slot] = digit;
        proof {
            assert(self@ =~= old(self)@.update(rank as int, digit));
        }
    }

    /// The held digits, most significant first.
    pub(crate) fn iter(&self) -> (r: Vec<u8>)
        ensures
            r@ == self@,
    {
        proof {
            use_type_invariant(self);
        }
        let mut out: Vec<u8> = Vec::new();
        let mut rank: usize = 0;
        while rank < self.len as usize
            invariant
                rank <= self@.len(),
                self@.len() == self.len,
                out@ == self@.take(rank as int),
            decreases self.len - rank,
        {
            out.push(self.get(rank));
            rank = rank + 1;
            proof {
                assert(out@ =~= self@.take(rank as int));
            }
        }
        proof {
            assert(out@ =~= self@);
        }
        out
    }
}

} // verus!
