//! Arbitrary-precision integers, held as plain values: a sign and the base
//! 2^32 limbs of the magnitude, least significant first. The arithmetic
//! itself is done by `num_bigint`; each operation below converts its operands
//! into `num_bigint::BigInt`, makes one call, and converts the result back.
//! The contracts state the mathematics of each call over `value()`.

use vstd::prelude::*;
use vstd::arithmetic::power::pow;
use num_bigint::{BigUint, Sign};
use num_integer::Integer;

verus! {

/// The number a limb sequence (least significant limb first) stands for.
pub open spec fn limbs_value(s: Seq<u32>) -> nat
    decreases s.len(),
{
    if s.len() == 0 {
        0
    } else {
        s[0] as nat + 4294967296 * limbs_value(s.drop_first())
    }
}

/// The character of a decimal digit value.
pub open spec fn digit_char(d: int) -> char {
    if d == 0 { '0' }
    else if d == 1 { '1' }
    else if d == 2 { '2' }
    else if d == 3 { '3' }
    else if d == 4 { '4' }
    else if d == 5 { '5' }
    else if d == 6 { '6' }
    else if d == 7 { '7' }
    else if d == 8 { '8' }
    else { '9' }
}

/// The decimal digits of a natural number, most significant first, without
/// leading zeros ("0" for zero).
pub open spec fn decimal_digits(n: nat) -> Seq<char>
    decreases n,
{
    if n < 10 {
        seq![digit_char(n as int)]
    } else {
        decimal_digits(n / 10).push(digit_char((n % 10) as int))
    }
}

/// The absolute value of an integer.
pub open spec fn abs(x: int) -> int {
    if x < 0 { -x } else { x }
}

/// Truncated integer division (rounds toward zero), as Rust's `/`.
pub open spec fn trunc_div(a: int, b: int) -> int {
    if (a >= 0) == (b > 0) { abs(a) / abs(b) } else { -(abs(a) / abs(b)) }
}

/// The remainder of truncated division, with the dividend's sign, as Rust's
/// `%`.
pub open spec fn trunc_rem(a: int, b: int) -> int {
    if a >= 0 { abs(a) % abs(b) } else { -(abs(a) % abs(b)) }
}

/// Is `c` one of the ASCII digits `0`–`9`?
pub open spec fn is_ascii_digit(c: char) -> bool {
    '0' <= c && c <= '9'
}

/// The value of an ASCII digit.
pub open spec fn ascii_digit_value(c: char) -> int {
    (c as int) - ('0' as int)
}

/// The value of a run of ASCII digits, most significant first; `_`
/// separators are skipped.
pub open spec fn digits_value(s: Seq<char>) -> int
    decreases s.len(),
{
    if s.len() == 0 {
        0
    } else if s.last() == '_' {
        digits_value(s.drop_last())
    } else {
        digits_value(s.drop_last()) * 10 + ascii_digit_value(s.last())
    }
}

/// Every character is an ASCII digit or `_`.
pub open spec fn digits_or_separators(t: Seq<char>) -> bool {
    forall|i: int| 0 <= i < t.len() ==> is_ascii_digit(#[trigger] t[i]) || t[i] == '_'
}

/// What `num_bigint` reads as digits once it has taken the optional `-` and
/// `+` signs off a base-10 literal.
pub open spec fn bigint_literal_body(s: Seq<char>) -> Seq<char> {
    let negative = s.len() > 0 && s[0] == '-';
    let t1 = if negative && !(s.len() > 1 && s[1] == '+') { s.drop_first() } else { s };
    if t1.len() > 0 && t1[0] == '+' && !(t1.len() > 1 && t1[1] == '+') {
        t1.drop_first()
    } else {
        t1
    }
}

/// `num_bigint`'s grammar for a base-10 `BigInt` literal: an optional `-`
/// (not followed by `+`), then an optional `+` (not followed by `+`), then a
/// non-empty run of ASCII digits and `_` separators that starts with a digit.
pub open spec fn bigint_literal(s: Seq<char>) -> Option<int> {
    let negative = s.len() > 0 && s[0] == '-';
    let t2 = bigint_literal_body(s);
    if t2.len() == 0 || t2[0] == '_' || !digits_or_separators(t2) {
        None
    } else if negative {
        Some(-digits_value(t2))
    } else {
        Some(digits_value(t2))
    }
}

/// Bitwise AND of two natural numbers, taken bit by bit from the lowest.
pub open spec fn bit_and(a: nat, b: nat) -> nat
    decreases a,
{
    if a == 0 || b == 0 {
        0
    } else {
        2 * bit_and(a / 2, b / 2) + (a % 2) * (b % 2)
    }
}

/// Bitwise OR of two natural numbers.
pub open spec fn bit_or(a: nat, b: nat) -> nat
    decreases a,
{
    if a == 0 {
        b
    } else if b == 0 {
        a
    } else {
        2 * bit_or(a / 2, b / 2) + (if a % 2 == 1 || b % 2 == 1 { 1nat } else { 0nat })
    }
}

/// Bitwise XOR of two natural numbers.
pub open spec fn bit_xor(a: nat, b: nat) -> nat
    decreases a,
{
    if a == 0 {
        b
    } else if b == 0 {
        a
    } else {
        2 * bit_xor(a / 2, b / 2) + (a % 2 + b % 2) % 2
    }
}

/// An arbitrary-precision integer: a sign and the magnitude's base 2^32
/// limbs, least significant first, with no high zero limb. Zero has no limbs
/// and is never negative.
#[derive(Debug, Clone, PartialEq, Eq, Hash)]
pub struct BigInteger {
    negative: bool,
    limbs: Vec<u32>,
}

impl BigInteger {
    /// The representation is canonical: no high zero limb, and zero is not
    /// negative.
    pub closed spec fn wf(&self) -> bool {
        &&& (self.limbs@.len() > 0 ==> self.limbs@.last() != 0)
        &&& (self.limbs@.len() == 0 ==> !self.negative)
    }

    /// The integer this value stands for.
    pub closed spec fn value(&self) -> int {
        if self.negative {
            -(limbs_value(self.limbs@) as int)
        } else {
            limbs_value(self.limbs@) as int
        }
    }

    proof fn lemma_limbs_positive(s: Seq<u32>)
        requires
            s.len() > 0,
            s.last() != 0,
        ensures
            limbs_value(s) > 0,
        decreases s.len(),
    {
        if s.len() > 1 {
            Self::lemma_limbs_positive(s.drop_first());
        }
    }

    /// Zero.
    pub fn zero() -> (r: Self)
        ensures
            r.wf(),
            r.value() == 0,
    {
        BigInteger { negative: false, limbs: Vec::new() }
    }

    /// True exactly for zero.
    pub fn is_zero(&self) -> (r: bool)
        requires
            self.wf(),
        ensures
            r == (self.value() == 0),
    {
        proof {
            if self.limbs@.len() > 0 {
                Self::lemma_limbs_positive(self.limbs@);
            }
        }
        self.limbs.len() == 0
    }

    /// True exactly for a value below zero.
    pub fn is_negative(&self) -> (r: bool)
        requires
            self.wf(),
        ensures
            r == (self.value() < 0),
    {
        proof {
            if self.limbs@.len() > 0 {
                Self::lemma_limbs_positive(self.limbs@);
            }
        }
        self.negative
    }

    /// The negated value.
    pub fn neg(&self) -> (r: Self)
        ensures
            self.wf() ==> r.wf(),
            r.value() == -self.value(),
    {
        if self.limbs.len() == 0 {
            BigInteger { negative: false, limbs: Vec::new() }
        } else {
            BigInteger { negative: !self.negative, limbs: self.limbs.clone() }
        }
    }

    /// The absolute value (the magnitude, as a non-negative integer).
    pub fn magnitude(&self) -> (r: Self)
        requires
            self.wf(),
        ensures
            r.wf(),
            r.value() == abs(self.value()),
    {
        BigInteger { negative: false, limbs: self.limbs.clone() }
    }

    /// An exact copy.
    pub fn copy(&self) -> (r: Self)
        ensures
            r.wf() == self.wf(),
            r.value() == self.value(),
    {
        BigInteger { negative: self.negative, limbs: self.limbs.clone() }
    }

    /// Dropping a high zero limb keeps the number the limbs stand for.
    proof fn lemma_drop_high_zero(s: Seq<u32>)
        requires
            s.len() > 0,
            s.last() == 0,
        ensures
            limbs_value(s.drop_last()) == limbs_value(s),
        decreases s.len(),
    {
        if s.len() > 1 {
            Self::lemma_drop_high_zero(s.drop_first());
            assert(s.drop_first().drop_last() =~= s.drop_last().drop_first());
            assert(s.drop_last()[0] == s[0]);
            assert(limbs_value(s.drop_last()) == s.drop_last()[0] as nat + 4294967296 * limbs_value(
                s.drop_last().drop_first()));
        } else {
            assert(s[0] == 0);
            assert(limbs_value(s.drop_first()) == 0);
            assert(limbs_value(s.drop_last()) == 0);
        }
    }

    /// The same integer in canonical form: high zero limbs dropped, and zero
    /// not negative.
    pub fn canonicalized(&self) -> (r: Self)
        ensures
            r.wf(),
            r.value() == self.value(),
    {
        let mut limbs = self.limbs.clone();
        while limbs.len() > 0 && limbs[limbs.len() - 1] == 0
            invariant
                limbs_value(limbs@) == limbs_value(self.limbs@),
            decreases limbs@.len(),
        {
            proof {
                Self::lemma_drop_high_zero(limbs@);
            }
            limbs.pop();
        }
        let negative = self.negative && limbs.len() > 0;
        BigInteger { negative, limbs }
    }

    /// `BigInt::from(i64)`.
    #[verifier::external_body]
    pub fn from_i64(v: i64) -> (r: Self)
        ensures
            r.wf(),
            r.value() == v,
    {
        let (s, limbs) = num_bigint::BigInt::from(v).to_u32_digits();
        BigInteger { negative: s == Sign::Minus, limbs }
    }

    /// `BigInt + BigInt`.
    #[verifier::external_body]
    pub fn add(&self, other: &Self) -> (r: Self)
        requires
            self.wf(),
            other.wf(),
        ensures
            r.wf(),
            r.value() == self.value() + other.value(),
    {
        let x = num_bigint::BigInt::from_biguint(if self.negative { Sign::Minus } else { Sign::Plus }, BigUint::new(self.limbs.clone()));
        let y = num_bigint::BigInt::from_biguint(if other.negative { Sign::Minus } else { Sign::Plus }, BigUint::new(other.limbs.clone()));
        let (s, limbs) = (x + y).to_u32_digits();
        BigInteger { negative: s == Sign::Minus, limbs }
    }

    /// `BigInt * BigInt`.
    #[verifier::external_body]
    pub fn mul(&self, other: &Self) -> (r: Self)
        requires
            self.wf(),
            other.wf(),
        ensures
            r.wf(),
            r.value() == self.value() * other.value(),
    {
        let x = num_bigint::BigInt::from_biguint(if self.negative { Sign::Minus } else { Sign::Plus }, BigUint::new(self.limbs.clone()));
        let y = num_bigint::BigInt::from_biguint(if other.negative { Sign::Minus } else { Sign::Plus }, BigUint::new(other.limbs.clone()));
        let (s, limbs) = (x * y).to_u32_digits();
        BigInteger { negative: s == Sign::Minus, limbs }
    }

    /// `Integer::div_rem` on `BigInt`: truncated division, the remainder
    /// taking the sign of the dividend.
    #[verifier::external_body]
    pub fn div_rem(&self, other: &Self) -> (r: (Self, Self))
        requires
            self.wf(),
            other.wf(),
            other.value() != 0,
        ensures
            r.0.wf(),
            r.1.wf(),
            r.0.value() == trunc_div(self.value(), other.value()),
            r.1.value() == trunc_rem(self.value(), other.value()),
    {
        let x = num_bigint::BigInt::from_biguint(if self.negative { Sign::Minus } else { Sign::Plus }, BigUint::new(self.limbs.clone()));
        let y = num_bigint::BigInt::from_biguint(if other.negative { Sign::Minus } else { Sign::Plus }, BigUint::new(other.limbs.clone()));
        let (q, m) = x.div_rem(&y);
        let ((qs, ql), (ms, ml)) = (q.to_u32_digits(), m.to_u32_digits());
        (BigInteger { negative: qs == Sign::Minus, limbs: ql }, BigInteger { negative: ms == Sign::Minus, limbs: ml })
    }

    /// `BigInt % BigInt`: the truncated remainder, with the dividend's sign.
    #[verifier::external_body]
    pub fn rem(&self, other: &Self) -> (r: Self)
        requires
            self.wf(),
            other.wf(),
            other.value() != 0,
        ensures
            r.wf(),
            r.value() == trunc_rem(self.value(), other.value()),
    {
        let x = num_bigint::BigInt::from_biguint(if self.negative { Sign::Minus } else { Sign::Plus }, BigUint::new(self.limbs.clone()));
        let y = num_bigint::BigInt::from_biguint(if other.negative { Sign::Minus } else { Sign::Plus }, BigUint::new(other.limbs.clone()));
        let (s, limbs) = (x % y).to_u32_digits();
        BigInteger { negative: s == Sign::Minus, limbs }
    }

    /// `BigInt::pow`.
    #[verifier::external_body]
    pub fn pow(&self, exponent: u32) -> (r: Self)
        requires
            self.wf(),
        ensures
            r.wf(),
            r.value() == pow(self.value(), exponent as nat),
    {
        let x = num_bigint::BigInt::from_biguint(if self.negative { Sign::Minus } else { Sign::Plus }, BigUint::new(self.limbs.clone()));
        let (s, limbs) = x.pow(exponent).to_u32_digits();
        BigInteger { negative: s == Sign::Minus, limbs }
    }

    /// `BigInt::sqrt`: the floor square root of a non-negative value (it
    /// panics on a negative one).
    #[verifier::external_body]
    pub fn sqrt(&self) -> (r: Self)
        requires
            self.wf(),
            self.value() >= 0,
        ensures
            r.wf(),
            r.value() >= 0,
            r.value() * r.value() <= self.value(),
            self.value() < (r.value() + 1) * (r.value() + 1),
    {
        let x = num_bigint::BigInt::from_biguint(if self.negative { Sign::Minus } else { Sign::Plus }, BigUint::new(self.limbs.clone()));
        let (s, limbs) = x.sqrt().to_u32_digits();
        BigInteger { negative: s == Sign::Minus, limbs }
    }

    /// `Integer::is_odd` on `BigInt`.
    #[verifier::external_body]
    pub fn is_odd(&self) -> (r: bool)
        requires
            self.wf(),
        ensures
            r == (self.value() % 2 != 0),
    {
        let x = num_bigint::BigInt::from_biguint(if self.negative { Sign::Minus } else { Sign::Plus }, BigUint::new(self.limbs.clone()));
        x.is_odd()
    }

    /// `BigInt < BigInt`.
    #[verifier::external_body]
    pub fn less_than(&self, other: &Self) -> (r: bool)
        requires
            self.wf(),
            other.wf(),
        ensures
            r == (self.value() < other.value()),
    {
        let x = num_bigint::BigInt::from_biguint(if self.negative { Sign::Minus } else { Sign::Plus }, BigUint::new(self.limbs.clone()));
        let y = num_bigint::BigInt::from_biguint(if other.negative { Sign::Minus } else { Sign::Plus }, BigUint::new(other.limbs.clone()));
        x < y
    }

    /// The decimal text of the magnitude: `BigInt::magnitude().to_string()`.
    #[verifier::external_body]
    pub fn magnitude_text(&self) -> (r: String)
        requires
            self.wf(),
        ensures
            r@ == decimal_digits(abs(self.value()) as nat),
    {
        BigUint::new(self.limbs.clone()).to_string()
    }

    /// `BigInt << u32`: multiplication by a power of two.
    #[verifier::external_body]
    pub fn shl(&self, bits: u32) -> (r: Self)
        requires
            self.wf(),
        ensures
            r.wf(),
            r.value() == self.value() * pow(2, bits as nat),
    {
        let x = num_bigint::BigInt::from_biguint(if self.negative { Sign::Minus } else { Sign::Plus }, BigUint::new(self.limbs.clone()));
        let (s, limbs) = (x << bits).to_u32_digits();
        BigInteger { negative: s == Sign::Minus, limbs }
    }

    /// `BigInt & BigInt` on non-negative operands.
    #[verifier::external_body]
    pub fn bitand(&self, other: &Self) -> (r: Self)
        requires
            self.wf(),
            other.wf(),
            self.value() >= 0,
            other.value() >= 0,
        ensures
            r.wf(),
            r.value() == bit_and(self.value() as nat, other.value() as nat),
    {
        let x = num_bigint::BigInt::from_biguint(if self.negative { Sign::Minus } else { Sign::Plus }, BigUint::new(self.limbs.clone()));
        let y = num_bigint::BigInt::from_biguint(if other.negative { Sign::Minus } else { Sign::Plus }, BigUint::new(other.limbs.clone()));
        let (s, limbs) = (x & y).to_u32_digits();
        BigInteger { negative: s == Sign::Minus, limbs }
    }

    /// `BigInt | BigInt` on non-negative operands.
    #[verifier::external_body]
    pub fn bitor(&self, other: &Self) -> (r: Self)
        requires
            self.wf(),
            other.wf(),
            self.value() >= 0,
            other.value() >= 0,
        ensures
            r.wf(),
            r.value() == bit_or(self.value() as nat, other.value() as nat),
    {
        let x = num_bigint::BigInt::from_biguint(if self.negative { Sign::Minus } else { Sign::Plus }, BigUint::new(self.limbs.clone()));
        let y = num_bigint::BigInt::from_biguint(if other.negative { Sign::Minus } else { Sign::Plus }, BigUint::new(other.limbs.clone()));
        let (s, limbs) = (x | y).to_u32_digits();
        BigInteger { negative: s == Sign::Minus, limbs }
    }

    /// `BigInt ^ BigInt` on non-negative operands.
    #[verifier::external_body]
    pub fn bitxor(&self, other: &Self) -> (r: Self)
        requires
            self.wf(),
            other.wf(),
            self.value() >= 0,
            other.value() >= 0,
        ensures
            r.wf(),
            r.value() == bit_xor(self.value() as nat, other.value() as nat),
    {
        let x = num_bigint::BigInt::from_biguint(if self.negative { Sign::Minus } else { Sign::Plus }, BigUint::new(self.limbs.clone()));
        let y = num_bigint::BigInt::from_biguint(if other.negative { Sign::Minus } else { Sign::Plus }, BigUint::new(other.limbs.clone()));
        let (s, limbs) = (x ^ y).to_u32_digits();
        BigInteger { negative: s == Sign::Minus, limbs }
    }

    /// `u32::try_from(BigInt)`, `None` where the value is out of range.
    #[verifier::external_body]
    pub fn to_u32(&self) -> (r: Option<u32>)
        requires
            self.wf(),
        ensures
            r == (if 0 <= self.value() <= u32::MAX { Some(self.value() as u32) } else { None }),
    {
        let x = num_bigint::BigInt::from_biguint(if self.negative { Sign::Minus } else { Sign::Plus }, BigUint::new(self.limbs.clone()));
        u32::try_from(x).ok()
    }

    /// `str::parse::<BigInt>()`, `None` where it returns an error.
    #[verifier::external_body]
    pub fn parse(text: &str) -> (r: Option<Self>)
        ensures
            r.is_some() == bigint_literal(text@).is_some(),
            r matches Some(v) ==> v.wf() && v.value() == bigint_literal(text@).unwrap(),
    {
        match text.parse::<num_bigint::BigInt>() {
            Ok(x) => {
                let (s, limbs) = x.to_u32_digits();
                Some(BigInteger { negative: s == Sign::Minus, limbs })
            }
            Err(_) => None,
        }
    }
}

} // verus!
