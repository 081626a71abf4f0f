//! Exact integer powers, square roots to a working precision, and integer
//! extraction.

use vstd::prelude::*;
use vstd::arithmetic::power::*;
use vstd::arithmetic::mul::*;
use super::{BigDecimal, canonical, canonical_fits, digit_count_of, pow10, lemma_canonical};
use super::rounding::{quotient, quotient_fits, rounded_significant, rounded_significant_fits};
use super::format::{formatted_fits, digits_of, formatted_text, lemma_decimal_digits_nonempty};
use crate::bigint::{BigInteger, abs, decimal_digits, digits_value, is_ascii_digit, digit_char};
use crate::error::EngineError;
use crate::text::{parse_i64, i64_literal, zeros};

verus! {

/// What raising a value to an integer power yields.
pub enum PowerOutcome {
    Value((int, int)),
    /// `0^0`.
    Undefined,
    /// More than a million result digits.
    TooLarge,
    /// A negative power of zero.
    DivisionByZero,
}

/// `i64::saturating_mul`: the product, clamped to the `i64` range.
pub open spec fn saturating_product(a: int, b: int) -> int {
    if a * b > i64::MAX { i64::MAX as int } else if a * b < i64::MIN { i64::MIN as int } else { a * b }
}

/// `a.saturating_mul(b)` on `i64`: the checked product, else the bound on
/// the side of the true product's sign.
pub fn saturating_mul(a: i64, b: i64) -> (r: i64)
    ensures
        r == saturating_product(a as int, b as int),
{
    match a.checked_mul(b) {
        Some(p) => p,
        None => {
            proof {
                if a > 0 && b > 0 || a < 0 && b < 0 {
                    assert(a * b > 0) by (nonlinear_arith)
                        requires a > 0 && b > 0 || a < 0 && b < 0;
                } else if a == 0 || b == 0 {
                    assert(a * b == 0) by (nonlinear_arith)
                        requires a == 0 || b == 0;
                } else {
                    assert(a * b < 0) by (nonlinear_arith)
                        requires a > 0 && b < 0 || a < 0 && b > 0;
                }
            }
            if (a > 0) == (b > 0) { i64::MAX } else { i64::MIN }
        },
    }
}

/// The exact value of `v^n` for `n > 0`, guarded by the size cap.
pub open spec fn positive_power(v: (int, int), n: int) -> PowerOutcome {
    if saturating_product(digit_count_of(v), n) > 1_000_000 {
        PowerOutcome::TooLarge
    } else {
        PowerOutcome::Value(canonical(pow(v.0, n as nat), v.1 * n))
    }
}

/// `v^n`: exact for positive exponents, `0^0` undefined, a negative
/// exponent divides one by the positive power at `precision` digits.
pub open spec fn power_outcome(v: (int, int), n: int, precision: int) -> PowerOutcome {
    if n == 0 {
        if v.0 == 0 { PowerOutcome::Undefined } else { PowerOutcome::Value((1, 0)) }
    } else if n > 0 {
        positive_power(v, n)
    } else {
        match positive_power(v, -n) {
            PowerOutcome::Value(x) => {
                if x.0 == 0 { PowerOutcome::DivisionByZero } else { PowerOutcome::Value(quotient((1, 0), x, precision)) }
            }
            other => other,
        }
    }
}

/// Raising to a power stays within machine limits.
pub open spec fn power_fits(v: (int, int), n: int, precision: int) -> bool {
    &&& i64::MIN < n
    &&& digit_count_of(v) <= i64::MAX
    &&& (n != 0 ==> (positive_power(v, abs(n)) matches PowerOutcome::Value(_) ==> canonical_fits(pow(v.0, abs(n) as nat), v.1 * abs(n))))
    &&& (n < 0 ==> (positive_power(v, -n) matches PowerOutcome::Value(x) ==> (x.0 != 0 ==> quotient_fits((1, 0), x, precision))))
}

/// Does `r` report `outcome`?
pub open spec fn reports(r: Result<BigDecimal, EngineError>, outcome: PowerOutcome) -> bool {
    match outcome {
        PowerOutcome::Value(x) => r matches Ok(v) && v.wf() && v@ == x,
        PowerOutcome::Undefined => r matches Err(EngineError::DomainError { message }) && message@ == "0^0 is undefined"@,
        PowerOutcome::TooLarge => r matches Err(EngineError::DomainError { message }) && message@ == "result of ^ is too large"@,
        PowerOutcome::DivisionByZero => r == Err::<BigDecimal, EngineError>(EngineError::DivisionByZero),
    }
}

/// The floor square root of a non-negative integer.
pub open spec fn floor_sqrt(n: int) -> int {
    choose|r: int| #[trigger] is_floor_sqrt(r, n)
}

/// `r` is the floor square root of `n`.
pub open spec fn is_floor_sqrt(r: int, n: int) -> bool {
    r >= 0 && r * r <= n && n < (r + 1) * (r + 1)
}

/// The even scaling shift the square root works at: enough digits for
/// `precision` plus guard digits, adjusted so the exponent stays even.
pub open spec fn root_shift(v: (int, int), precision: int) -> int {
    let s0 = 2 * (precision + 2 - digit_count_of(v) / 2);
    let s1 = if s0 < 0 { 0 } else { s0 };
    if (v.1 - s1) % 2 != 0 { s1 + 1 } else { s1 }
}

/// The square root of a positive value to `precision` significant digits;
/// exact when the root terminates.
pub open spec fn square_root_of(v: (int, int), precision: int) -> (int, int) {
    let shift = root_shift(v, precision);
    let scaled = v.0 * pow10(shift);
    let root = floor_sqrt(scaled);
    let result = canonical(root, (v.1 - shift) / 2);
    if root * root == scaled { result } else { rounded_significant(result, precision) }
}

/// The square root stays within machine limits.
pub open spec fn square_root_fits(v: (int, int), precision: int) -> bool {
    let shift = root_shift(v, precision);
    let scaled = v.0 * pow10(shift);
    let root = floor_sqrt(scaled);
    v.0 > 0 ==> {
        &&& precision <= i64::MAX
        &&& digit_count_of(v) <= i64::MAX
        &&& 2 * (precision + 2 - digit_count_of(v) / 2) + 1 <= i64::MAX
        &&& i64::MIN <= 2 * (precision + 2 - digit_count_of(v) / 2)
        &&& shift <= u32::MAX
        &&& i64::MIN <= v.1 - shift
        &&& canonical_fits(root, (v.1 - shift) / 2)
        &&& rounded_significant_fits(canonical(root, (v.1 - shift) / 2), precision)
    }
}

/// The value as an `i64`, when it is an integer within range (and its
/// exponent at most 18).
pub open spec fn int_value_of(v: (int, int)) -> Option<i64> {
    if v.1 < 0 || v.1 > 18 {
        None
    } else if i64::MIN <= v.0 * pow10(v.1) <= i64::MAX {
        Some((v.0 * pow10(v.1)) as i64)
    } else {
        None
    }
}

/// Every character of a decimal digit string is an ASCII digit.
pub proof fn lemma_decimal_digits_ascii(n: nat)
    ensures
        forall|i: int| 0 <= i < decimal_digits(n).len() ==> is_ascii_digit(#[trigger] decimal_digits(n)[i]),
        digits_value(decimal_digits(n)) == n,
    decreases n,
{
    if n < 10 {
        let s = decimal_digits(n);
        assert(s.drop_last().len() == 0);
        assert(digits_value(s.drop_last()) == 0);
    } else {
        lemma_decimal_digits_ascii(n / 10);
        let s = decimal_digits(n);
        assert(s.drop_last() == decimal_digits(n / 10));
        assert(n == (n / 10) * 10 + n % 10);
    }
}

/// Appending zeros multiplies a digit string's value by a power of ten.
pub proof fn lemma_digits_value_zeros(s: Seq<char>, k: nat)
    ensures
        digits_value(s + zeros(k as int)) == digits_value(s) * pow10(k as int),
    decreases k,
{
    reveal(pow);
    if k == 0 {
        assert(s + zeros(0) == s);
    } else {
        lemma_digits_value_zeros(s, (k - 1) as nat);
        let t = s + zeros(k as int);
        assert(t.drop_last() == s + zeros(k - 1));
        assert(t.last() == '0');
        assert(pow10(k as int) == 10 * pow10(k - 1)) by {
            assert(k as nat == ((k - 1) as nat + 1) as nat);
        }
        lemma_mul_is_associative(digits_value(s), pow10(k - 1), 10);
        lemma_mul_is_commutative(pow10(k - 1), 10);
    }
}

impl BigDecimal {
    /// The positive power `v^n`, or the size-cap error.
    fn positive_power(&self, n: i64) -> (r: Result<Self, EngineError>)
        requires
            self.wf(),
            n > 0,
            digit_count_of(self@) <= i64::MAX,
            positive_power(self@, n as int) matches PowerOutcome::Value(_) ==> canonical_fits(pow(self@.0, n as nat), self@.1 * n),
        ensures
            reports(r, positive_power(self@, n as int)),
    {
        if saturating_mul(self.digit_count(), n) > 1_000_000 {
            return Err(EngineError::DomainError { message: String::from_str("result of ^ is too large") });
        }
        proof {
            lemma_decimal_digits_nonempty(abs(self@.0) as nat);
            assert(digit_count_of(self@) * n >= n) by (nonlinear_arith)
                requires digit_count_of(self@) >= 1, n > 0;
        }
        let p = self.significand.pow(n as u32);
        Ok(Self::new(p, self.exponent * n))
    }

    /// Raises to an integer power. Exact for positive exponents; negative
    /// exponents divide at `precision` significant digits.
    pub fn power(&self, n: i64, precision: usize) -> (r: Result<Self, EngineError>)
        requires
            self.wf(),
            power_fits(self@, n as int, precision as int),
        ensures
            reports(r, power_outcome(self@, n as int, precision as int)),
    {
        if n == 0 {
            if self.is_zero() {
                return Err(EngineError::DomainError { message: String::from_str("0^0 is undefined") });
            }
            return Ok(Self::one());
        }
        if n < 0 {
            let positive = match self.positive_power(-n) {
                Ok(p) => p,
                Err(e) => return Err(e),
            };
            return Self::one().div(&positive, precision);
        }
        self.positive_power(n)
    }

    /// Square root via the integer floor square root, to `precision`
    /// significant digits. Exact when the root terminates
    /// (sqrt(2.25) == 1.5); a negative value is an error.
    pub fn square_root(&self, precision: usize) -> (r: Result<Self, EngineError>)
        requires
            self.wf(),
            square_root_fits(self@, precision as int),
        ensures
            self@.0 < 0 ==> (r matches Err(EngineError::DomainError { message }) && message@ == "sqrt of a negative number"@),
            self@.0 == 0 ==> (r matches Ok(z) && z.wf() && z@ == (0int, 0int)),
            self@.0 > 0 ==> (r matches Ok(z) && z.wf() && z@ == square_root_of(self@, precision as int)),
    {
        if self.is_negative() {
            return Err(EngineError::DomainError { message: String::from_str("sqrt of a negative number") });
        }
        if self.is_zero() {
            return Ok(Self::zero());
        }
        let precision = precision as i64;
        let mut shift = 2 * (precision + 2 - self.digit_count() / 2);
        if shift < 0 {
            shift = 0;
        }
        if (self.exponent - shift) % 2 != 0 {
            shift += 1;
        }
        let scaled = self.significand.mul(&Self::power_of_ten(shift as u32));
        proof {
            vstd::arithmetic::power::lemma_pow_positive(10, shift as nat);
            vstd::arithmetic::mul::lemma_mul_strictly_positive(self@.0, pow10(shift as int));
        }
        let root = scaled.sqrt();
        let square = root.mul(&root);
        let exact = !square.less_than(&scaled) && !scaled.less_than(&square);
        proof {
            assert(floor_sqrt(scaled.value()) == root.value()) by {
                let r = root.value();
                let n = scaled.value();
                assert(is_floor_sqrt(r, n));
                let c = floor_sqrt(n);
                assert(is_floor_sqrt(c, n));
                if c < r {
                    assert((c + 1) * (c + 1) <= r * r) by (nonlinear_arith)
                        requires c >= 0, c < r;
                } else if r < c {
                    assert((r + 1) * (r + 1) <= c * c) by (nonlinear_arith)
                        requires r >= 0, r < c;
                }
            }
        }
        let result = Self::new(root, (self.exponent - shift) / 2);
        if exact {
            Ok(result)
        } else {
            Ok(result.rounded_to_significant_digits(precision as usize))
        }
    }

    /// The exact `i64` value of an integer within `i64` range (exponent at
    /// most 18); `None` otherwise.
    pub fn int_value(&self) -> (r: Option<i64>)
        requires
            self.wf(),
            digit_count_of(self@) <= i64::MAX - 18,
        ensures
            r == int_value_of(self@),
    {
        if !self.is_integer() || self.exponent > 18 {
            return None;
        }
        let text = self.formatted(i64::MAX);
        proof {
            self.lemma_integer_text();
        }
        parse_i64(text.as_str())
    }

    /// The plain text of an integer parses back to its value.
    proof fn lemma_integer_text(&self)
        requires
            self.wf(),
            0 <= self@.1 <= 18,
            digit_count_of(self@) <= i64::MAX - 18,
        ensures
            i64_literal(formatted_text(self@, i64::MAX as int)) == int_value_of(self@),
    {
        let v = self@;
        let d = digits_of(v);
        lemma_decimal_digits_ascii(abs(v.0) as nat);
        lemma_decimal_digits_nonempty(abs(v.0) as nat);
        lemma_digits_value_zeros(d, v.1 as nat);
        let body = d + zeros(v.1);
        assert(forall|i: int| 0 <= i < body.len() ==> is_ascii_digit(#[trigger] body[i])) by {
            assert forall|i: int| 0 <= i < body.len() implies is_ascii_digit(#[trigger] body[i]) by {
                if i < d.len() {
                    assert(body[i] == d[i]);
                } else {
                    assert(body[i] == '0');
                }
            }
        }
        vstd::arithmetic::power::lemma_pow_positive(10, v.1 as nat);
        if v.0 == 0 {
            reveal(pow);
            assert(formatted_text(v, i64::MAX as int) == seq!['0']);
            assert(seq!['0'].drop_last().len() == 0);
            assert(digits_value(seq!['0'].drop_last()) == 0);
        } else if v.0 < 0 {
            let t = formatted_text(v, i64::MAX as int);
            assert(t == seq!['-'] + body);
            assert(t.drop_first() == body);
            lemma_mul_is_commutative(-v.0, pow10(v.1));
            assert(-(abs(v.0) * pow10(v.1)) == v.0 * pow10(v.1)) by (nonlinear_arith)
                requires v.0 < 0, abs(v.0) == -v.0;
        } else {
            let t = formatted_text(v, i64::MAX as int);
            assert(t == body);
            assert(t.len() > 0 && t[0] != '+' && t[0] != '-') by {
                assert(t[0] == d[0]);
            }
        }
    }

    /// The exact integer value of an integer (no 2^63 ceiling); `None` for a
    /// fractional value or an exponent above 10,000.
    pub fn big_int_value(&self) -> (r: Option<BigInteger>)
        requires
            self.wf(),
        ensures
            match r {
                Some(x) => self@.1 >= 0 && self@.1 <= 10_000 && x.wf() && x.value() == self@.0 * pow10(self@.1),
                None => self@.1 < 0 || self@.1 > 10_000,
            },
    {
        if !self.is_integer() || self.exponent < 0 {
            return None;
        }
        if self.exponent > 10_000 {
            return None;
        }
        Some(self.significand.mul(&Self::power_of_ten(self.exponent as u32)))
    }
}

} // verus!
