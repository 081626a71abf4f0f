//! Arbitrary-precision base-10 numbers, the engine's core invariant.
//! `BigDecimal` = integer significand × 10^exponent, always normalized (no
//! trailing zeros), so equality is structural. `+ − ×`, integer `^`, and `%`
//! are exact; `/` and `sqrt` round to a working precision of significant
//! digits (banker's rounding).
//!
//! The model of a value is the pair `(significand, exponent)` of integers:
//! `x@ == (s, e)` means `x` is `s × 10^e`, with `s` free of trailing zeros
//! (and `e == 0` when `s == 0`).

pub mod constants;
pub mod format;
pub mod laws;
pub mod math;
pub mod parse;
pub mod rounding;

use vstd::prelude::*;
use vstd::arithmetic::power::*;
use vstd::arithmetic::div_mod::*;
use vstd::arithmetic::mul::*;
use crate::bigint::{BigInteger, abs, decimal_digits, trunc_div, trunc_rem};

verus! {

/// 10^n.
pub open spec fn pow10(n: int) -> int {
    pow(10, n as nat)
}

/// The normalized form of `s × 10^e`: trailing zeros of `s` move into the
/// exponent; zero becomes `(0, 0)`.
pub open spec fn canonical(s: int, e: int) -> (int, int)
    decreases abs(s),
{
    if s == 0 {
        (0, 0)
    } else if s % 10 == 0 {
        canonical(s / 10, e + 1)
    } else {
        (s, e)
    }
}

/// Is `(s, e)` in normalized form?
pub open spec fn is_normalized(v: (int, int)) -> bool {
    (v.0 == 0 && v.1 == 0) || (v.0 != 0 && v.0 % 10 != 0)
}

/// The significand of `v`, rescaled to the (smaller or equal) exponent `m`.
pub open spec fn scaled(v: (int, int), m: int) -> int {
    v.0 * pow10(v.1 - m)
}

/// The smaller of two integers.
pub open spec fn min(a: int, b: int) -> int {
    if a <= b { a } else { b }
}

/// The exponent two values are aligned to: the smaller one.
pub open spec fn common_exponent(a: (int, int), b: (int, int)) -> int {
    min(a.1, b.1)
}

/// The exact sum of two values.
pub open spec fn sum(a: (int, int), b: (int, int)) -> (int, int) {
    let m = common_exponent(a, b);
    canonical(scaled(a, m) + scaled(b, m), m)
}

/// The exact product of two values.
pub open spec fn product(a: (int, int), b: (int, int)) -> (int, int) {
    canonical(a.0 * b.0, a.1 + b.1)
}

/// The negation of a value.
pub open spec fn negation(a: (int, int)) -> (int, int) {
    (-a.0, a.1)
}

/// -1, 0 or 1 as `a` is below, equal to or above `b`.
pub open spec fn compare_values(a: (int, int), b: (int, int)) -> int {
    let m = common_exponent(a, b);
    if scaled(a, m) < scaled(b, m) {
        -1
    } else if scaled(a, m) == scaled(b, m) {
        0
    } else {
        1
    }
}

/// The number of decimal digits of the significand (1 for zero).
pub open spec fn digit_count_of(v: (int, int)) -> int {
    decimal_digits(abs(v.0) as nat).len() as int
}

/// Exponents close enough to align: rescaling to the common exponent takes a
/// power of ten that fits the `u32` the alignment computes it with.
pub open spec fn alignable(a: (int, int), b: (int, int)) -> bool {
    abs(a.1 - b.1) <= u32::MAX
}

/// The normalized form of `(s, e)` has an exponent that fits an `i64`.
pub open spec fn canonical_fits(s: int, e: int) -> bool {
    i64::MIN <= e <= i64::MAX && canonical(s, e).1 <= i64::MAX
}

/// Truncated division by ten leaves no remainder exactly for multiples of
/// ten, and then it is exact division.
pub proof fn lemma_trunc_ten(s: int)
    ensures
        (trunc_rem(s, 10) == 0) == (s % 10 == 0),
        s % 10 == 0 ==> trunc_div(s, 10) == s / 10,
{
    lemma_fundamental_div_mod(s, 10);
    lemma_fundamental_div_mod(abs(s), 10);
    if s < 0 {
        if s % 10 == 0 {
            lemma_fundamental_div_mod_converse(-s, 10, -(s / 10), 0);
        }
        if (-s) % 10 == 0 {
            lemma_fundamental_div_mod_converse(s, 10, -((-s) / 10), 0);
        }
    }
}

/// The normalized exact sum has an exponent that fits an `i64` (only a
/// carry out of equal exponents at the top of the range can leave it).
pub open spec fn sum_fits(a: (int, int), b: (int, int)) -> bool {
    let m = common_exponent(a, b);
    canonical(scaled(a, m) + scaled(b, m), m).1 <= i64::MAX
}

pub proof fn lemma_canonical(s: int, e: int)
    ensures
        is_normalized(canonical(s, e)),
        s != 0 ==> canonical(s, e).1 >= e,
        s != 0 ==> canonical(s, e).1 < e + abs(s),
        s != 0 ==> canonical(s, e).0 != 0,
        s != 0 ==> canonical(s, e).0 * pow10(canonical(s, e).1 - e) == s,
        (s < 0) == (canonical(s, e).0 < 0),
        canonical(s, e).0 == 0 <==> s == 0,
    decreases abs(s),
{
    reveal(pow);
    if s != 0 && s % 10 == 0 {
        lemma_fundamental_div_mod(s, 10);
        lemma_canonical(s / 10, e + 1);
        let c = canonical(s / 10, e + 1);
        lemma_pow_adds(10, 1, (c.1 - e - 1) as nat);
        assert(pow10(c.1 - e) == pow10(1) * pow10(c.1 - e - 1)) by {
            assert((c.1 - e) as nat == 1 + (c.1 - e - 1) as nat);
        }
        assert(pow10(1) == 10) by { lemma_pow1(10); }
        let p = pow10(c.1 - e - 1);
        assert(c.0 * (10 * p) == 10 * (c.0 * p)) by (nonlinear_arith);
    } else if s != 0 {
        lemma_pow0(10);
    }
}

/// A normalized value is its own canonical form.
pub proof fn lemma_canonical_normalized(v: (int, int))
    requires
        is_normalized(v),
    ensures
        canonical(v.0, v.1) == v,
{
}

/// Scaling a value up by a power of ten does not change its normalized form.
pub proof fn lemma_canonical_scale(s: int, e: int, k: nat)
    ensures
        canonical(s * pow10(k as int), e - k) == canonical(s, e),
    decreases k,
{
    reveal(pow);
    if k == 0 {
        lemma_pow0(10);
    } else {
        lemma_canonical_scale(s, e, (k - 1) as nat);
        let t = s * pow10(k - 1);
        lemma_pow_adds(10, (k - 1) as nat, 1);
        lemma_pow1(10);
        assert(pow10(k as int) == pow10(k - 1) * 10) by {
            assert(k as nat == (k - 1) as nat + 1);
        }
        lemma_mul_is_associative(s, pow10(k - 1), 10);
        if t != 0 {
            lemma_mod_multiples_basic(t, 10);
            lemma_div_multiples_vanish(t, 10);
        }
    }
}

/// Working precision for inexact operations (division, roots): the number
/// of significant digits they carry. A context is a plain value; a scope
/// that needs another precision takes `with(digits)` and leaves the
/// enclosing context as it was.
pub struct PrecisionContext {
    digits: usize,
}

impl View for PrecisionContext {
    type V = usize;

    closed spec fn view(&self) -> usize {
        self.digits
    }
}

impl PrecisionContext {
    /// The default context: 50 significant digits.
    pub fn new() -> (r: Self)
        ensures
            r@ == 50,
    {
        PrecisionContext { digits: 50 }
    }

    /// Significant digits carried by inexact operations.
    pub fn current(&self) -> (r: usize)
        ensures
            r == self@,
    {
        self.digits
    }

    /// The context for a scope working at `digits` significant digits.
    pub fn with(&self, digits: usize) -> (r: Self)
        ensures
            r@ == digits,
    {
        PrecisionContext { digits }
    }
}

/// An arbitrary-precision decimal number: `significand × 10^exponent`.
///
/// Addition, subtraction, and multiplication are exact. Division and roots
/// are computed to a given number of significant digits. Values are kept
/// normalized (no trailing zeros in the significand) so equality is
/// structural.
#[derive(Debug, Clone, PartialEq, Eq, Hash)]
pub struct BigDecimal {
    significand: BigInteger,
    exponent: i64,
}

impl View for BigDecimal {
    type V = (int, int);

    closed spec fn view(&self) -> (int, int) {
        (self.significand.value(), self.exponent as int)
    }
}

impl BigDecimal {
    /// The representation invariant: a canonical significand and a
    /// normalized `(significand, exponent)` pair.
    pub closed spec fn wf(&self) -> bool {
        &&& self.significand.wf()
        &&& is_normalized(self@)
    }

    /// A well-formed value is normalized: zero has exponent 0, any other
    /// significand no trailing zero.
    pub proof fn lemma_normalized(&self)
        requires
            self.wf(),
        ensures
            is_normalized(self@),
    {
    }

    /// The exponent always fits an `i64`.
    pub proof fn lemma_exponent_range(&self)
        ensures
            i64::MIN <= self@.1 <= i64::MAX,
    {
    }

    /// `significand × 10^exponent`, normalized.
    pub fn new(significand: BigInteger, exponent: i64) -> (r: Self)
        requires
            significand.wf(),
            canonical_fits(significand.value(), exponent as int),
        ensures
            r.wf(),
            r@ == canonical(significand.value(), exponent as int),
    {
        let mut value = BigDecimal { significand, exponent };
        value.normalize();
        value
    }

    /// Strips trailing zeros from the significand into the exponent; zero
    /// gets exponent 0.
    fn normalize(&mut self)
        requires
            old(self).significand.wf(),
            canonical_fits(old(self)@.0, old(self)@.1),
        ensures
            final(self).wf(),
            final(self)@ == canonical(old(self)@.0, old(self)@.1),
    {
        proof {
            lemma_canonical(self@.0, self@.1);
        }
        if self.significand.is_zero() {
            self.exponent = 0;
            return;
        }
        let ten = BigInteger::from_i64(10);
        loop
            invariant
                self.significand.wf(),
                ten.wf(),
                ten.value() == 10,
                self@.0 != 0,
                canonical(self@.0, self@.1) == canonical(old(self)@.0, old(self)@.1),
                canonical(old(self)@.0, old(self)@.1).1 <= i64::MAX,
            ensures
                self.significand.wf(),
                self@.0 != 0,
                self@.0 % 10 != 0,
                canonical(self@.0, self@.1) == canonical(old(self)@.0, old(self)@.1),
            decreases abs(self@.0),
        {
            let (q, r) = self.significand.div_rem(&ten);
            proof {
                lemma_trunc_ten(self@.0);
            }
            if !r.is_zero() {
                break;
            }
            proof {
                lemma_fundamental_div_mod(self@.0, 10);
                lemma_canonical(self@.0 / 10, self@.1 + 1);
            }
            self.significand = q;
            self.exponent = self.exponent + 1;
        }
    }

    /// `significand × 10^exponent`, normalized, or `None` when the
    /// normalized exponent leaves the `i64` range.
    pub fn checked_new(significand: BigInteger, exponent: i64) -> (r: Option<Self>)
        requires
            significand.wf(),
        ensures
            r is Some <==> canonical_fits(significand.value(), exponent as int),
            r matches Some(d) ==> d.wf() && d@ == canonical(significand.value(), exponent as int),
    {
        let ghost s0 = significand.value();
        let ghost e0 = exponent as int;
        proof {
            lemma_canonical(s0, e0);
        }
        let mut value = BigDecimal { significand, exponent };
        if value.significand.is_zero() {
            value.exponent = 0;
            return Some(value);
        }
        let ten = BigInteger::from_i64(10);
        loop
            invariant
                value.significand.wf(),
                ten.wf(),
                ten.value() == 10,
                value@.0 != 0,
                canonical(value@.0, value@.1) == canonical(s0, e0),
                s0 == significand.value(),
                e0 == exponent as int,
            decreases abs(value@.0),
        {
            let (q, r) = value.significand.div_rem(&ten);
            proof {
                lemma_trunc_ten(value@.0);
            }
            if r.is_zero() {
                if value.exponent == i64::MAX {
                    proof {
                        lemma_fundamental_div_mod(value@.0, 10);
                        lemma_canonical(value@.0 / 10, value@.1 + 1);
                        assert(value@.0 % 10 == 0);
                        assert(value@.0 / 10 != 0);
                        assert(canonical(value@.0, value@.1) == canonical(value@.0 / 10, value@.1 + 1));
                        assert(canonical(s0, e0).1 > i64::MAX);
                    }
                    return None;
                }
                proof {
                    lemma_fundamental_div_mod(value@.0, 10);
                    lemma_canonical(value@.0 / 10, value@.1 + 1);
                }
                value.significand = q;
                value.exponent = value.exponent + 1;
            } else {
                proof {
                    assert(value@.0 % 10 != 0);
                    assert(canonical(value@.0, value@.1) == value@);
                }
                return Some(value);
            }
        }
    }

    /// The same value normalized, or `None` when its normalized exponent
    /// leaves the `i64` range; a well-formed value comes back unchanged.
    pub fn renormalized(&self) -> (r: Option<Self>)
        ensures
            r is Some <==> canonical_fits(self@.0, self@.1),
            r matches Some(d) ==> d.wf() && d@ == canonical(self@.0, self@.1),
    {
        Self::checked_new(self.significand.canonicalized(), self.exponent)
    }

    /// The value of an `i64`.
    pub fn from_int(value: i64) -> (r: Self)
        ensures
            r.wf(),
            r@ == canonical(value as int, 0),
    {
        let significand = BigInteger::from_i64(value);
        proof {
            lemma_canonical(value as int, 0);
        }
        Self::new(significand, 0)
    }

    /// Zero.
    pub fn zero() -> (r: Self)
        ensures
            r.wf(),
            r@ == (0int, 0int),
    {
        Self::from_int(0)
    }

    /// One.
    pub fn one() -> (r: Self)
        ensures
            r.wf(),
            r@ == (1int, 0int),
    {
        let r = Self::from_int(1);
        proof {
            assert(1int % 10 == 1);
        }
        r
    }

    /// The significand (an integer without trailing zeros).
    pub fn significand(&self) -> (r: &BigInteger)
        requires
            self.wf(),
        ensures
            r.wf(),
            r.value() == self@.0,
    {
        &self.significand
    }

    /// The power of ten the significand is scaled by.
    pub fn exponent(&self) -> (r: i64)
        ensures
            r == self@.1,
    {
        self.exponent
    }

    /// True exactly for zero.
    pub fn is_zero(&self) -> (r: bool)
        requires
            self.wf(),
        ensures
            r == (self@.0 == 0),
    {
        self.significand.is_zero()
    }

    /// True exactly for a value below zero.
    pub fn is_negative(&self) -> (r: bool)
        requires
            self.wf(),
        ensures
            r == (self@.0 < 0),
    {
        self.significand.is_negative()
    }

    /// True when the value has no fractional part.
    pub fn is_integer(&self) -> (r: bool)
        requires
            self.wf(),
        ensures
            r == (self@.1 >= 0),
    {
        self.exponent >= 0
    }

    /// An exact copy.
    pub fn copy(&self) -> (r: Self)
        requires
            self.wf(),
        ensures
            r.wf(),
            r@ == self@,
    {
        BigDecimal { significand: self.significand.copy(), exponent: self.exponent }
    }

    /// Number of significant decimal digits in the significand (1 for zero).
    pub fn digit_count(&self) -> (r: i64)
        requires
            self.wf(),
            digit_count_of(self@) <= i64::MAX,
        ensures
            r == digit_count_of(self@),
    {
        let text = self.significand.magnitude_text();
        let n = text.unicode_len();
        n as i64
    }

    /// The negated value.
    pub fn neg(&self) -> (r: Self)
        ensures
            self.wf() ==> r.wf(),
            r@ == negation(self@),
    {
        proof {
            if self.wf() && self@.0 != 0 {
                assert((-self@.0) % 10 != 0) by {
                    if (-self@.0) % 10 == 0 {
                        lemma_fundamental_div_mod(-self@.0, 10);
                        lemma_fundamental_div_mod_converse(self@.0, 10, -((-self@.0) / 10), 0);
                    }
                }
            }
        }
        BigDecimal { significand: self.significand.neg(), exponent: self.exponent }
    }

    /// 10^n.
    fn power_of_ten(n: u32) -> (r: BigInteger)
        ensures
            r.wf(),
            r.value() == pow10(n as int),
    {
        BigInteger::from_i64(10).pow(n)
    }

    /// Rescales both values to a common exponent and returns the
    /// significands.
    fn aligned(lhs: &Self, rhs: &Self) -> (r: (BigInteger, BigInteger))
        requires
            lhs.wf(),
            rhs.wf(),
            alignable(lhs@, rhs@),
        ensures
            r.0.wf(),
            r.1.wf(),
            r.0.value() == scaled(lhs@, common_exponent(lhs@, rhs@)),
            r.1.value() == scaled(rhs@, common_exponent(lhs@, rhs@)),
    {
        let common = if lhs.exponent <= rhs.exponent { lhs.exponent } else { rhs.exponent };
        let l = lhs.significand.mul(&Self::power_of_ten((lhs.exponent - common) as u32));
        let r = rhs.significand.mul(&Self::power_of_ten((rhs.exponent - common) as u32));
        (l, r)
    }

    /// The exact sum.
    pub fn add(&self, rhs: &Self) -> (r: Self)
        requires
            self.wf(),
            rhs.wf(),
            alignable(self@, rhs@),
            sum_fits(self@, rhs@),
        ensures
            r.wf(),
            r@ == sum(self@, rhs@),
    {
        let common = if self.exponent <= rhs.exponent { self.exponent } else { rhs.exponent };
        let (l, r) = Self::aligned(self, rhs);
        let total = l.add(&r);
        Self::new(total, common)
    }

    /// The exact difference.
    pub fn sub(&self, rhs: &Self) -> (r: Self)
        requires
            self.wf(),
            rhs.wf(),
            alignable(self@, rhs@),
            sum_fits(self@, negation(rhs@)),
        ensures
            r.wf(),
            r@ == sum(self@, negation(rhs@)),
    {
        let negated = rhs.neg();
        self.add(&negated)
    }

    /// The exact product.
    pub fn mul(&self, rhs: &Self) -> (r: Self)
        requires
            self.wf(),
            rhs.wf(),
            canonical_fits(self@.0 * rhs@.0, self@.1 + rhs@.1),
        ensures
            r.wf(),
            r@ == product(self@, rhs@),
    {
        let s = self.significand.mul(&rhs.significand);
        Self::new(s, self.exponent + rhs.exponent)
    }

    /// Equality of values (both are normalized, so it is equality of their
    /// significands and exponents).
    pub fn equals(&self, other: &Self) -> (r: bool)
        requires
            self.wf(),
            other.wf(),
        ensures
            r == (self@ == other@),
    {
        self.exponent == other.exponent && !self.significand.less_than(&other.significand)
            && !other.significand.less_than(&self.significand)
    }

    /// Compares by value: -1, 0 or 1 as `self` is below, equal to or above
    /// `other`.
    pub fn compare(&self, other: &Self) -> (r: i8)
        requires
            self.wf(),
            other.wf(),
            alignable(self@, other@),
        ensures
            r == compare_values(self@, other@),
    {
        let (l, r) = Self::aligned(self, other);
        if l.less_than(&r) {
            -1
        } else if r.less_than(&l) {
            1
        } else {
            0
        }
    }
}

} // verus!
