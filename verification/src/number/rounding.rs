//! Rounding (banker's and half-up), division to a working precision, and the
//! truncated remainder.

use vstd::prelude::*;
use vstd::arithmetic::power::*;
use super::{BigDecimal, pow10, canonical, canonical_fits, digit_count_of, common_exponent, scaled, alignable};
use crate::bigint::{BigInteger, abs, trunc_div, trunc_rem};
use crate::error::EngineError;

verus! {

/// Banker's rounding of `q + r/d`, given the truncated quotient `q` and the
/// discarded remainder `r` (`|r| < |d|`, with the sign of the dividend): more
/// than half rounds away from zero, exactly half rounds to the even neighbor.
pub open spec fn round_half_even(q: int, r: int, d: int) -> int {
    if r == 0 {
        q
    } else {
        let twice = 2 * abs(r);
        let bump = twice > abs(d) || (twice == abs(d) && q % 2 != 0);
        if !bump {
            q
        } else if r < 0 {
            q - 1
        } else {
            q + 1
        }
    }
}

/// Half-up rounding of `q + r/d` (Java HALF_UP): half or more rounds away
/// from zero.
pub open spec fn round_half_up(q: int, r: int, d: int) -> int {
    if r == 0 {
        q
    } else if 2 * abs(r) < abs(d) {
        q
    } else if r < 0 {
        q - 1
    } else {
        q + 1
    }
}

/// `v` rounded (banker's) so that at most `digits` significant digits remain.
pub open spec fn rounded_significant(v: (int, int), digits: int) -> (int, int) {
    let excess = digit_count_of(v) - digits;
    if excess <= 0 {
        v
    } else {
        let scale = pow10(excess);
        canonical(round_half_even(trunc_div(v.0, scale), trunc_rem(v.0, scale), scale), v.1 + excess)
    }
}

/// Rounding to significant digits stays within machine limits: the power of
/// ten fits a `u32` exponent and the result's exponent fits an `i64`.
pub open spec fn rounded_significant_fits(v: (int, int), digits: int) -> bool {
    let excess = digit_count_of(v) - digits;
    &&& digits <= i64::MAX
    &&& digit_count_of(v) <= u32::MAX
    &&& (excess > 0 ==> {
        let scale = pow10(excess);
        canonical_fits(round_half_even(trunc_div(v.0, scale), trunc_rem(v.0, scale), scale), v.1 + excess)
    })
}

/// `v` rounded to `places` decimal places, by the given rounding of the
/// discarded part (`half_up` selects half-up, else banker's).
pub open spec fn rounded_places(v: (int, int), places: int, half_up: bool) -> (int, int) {
    if v.1 >= -places {
        v
    } else {
        let scale = pow10(-places - v.1);
        let q = trunc_div(v.0, scale);
        let r = trunc_rem(v.0, scale);
        canonical(if half_up { round_half_up(q, r, scale) } else { round_half_even(q, r, scale) }, -places)
    }
}

/// Rounding to places stays within machine limits.
pub open spec fn rounded_places_fits(v: (int, int), places: int, half_up: bool) -> bool {
    &&& i64::MIN < places
    &&& (v.1 < -places ==> {
        let scale = pow10(-places - v.1);
        let q = trunc_div(v.0, scale);
        let r = trunc_rem(v.0, scale);
        &&& -places - v.1 <= u32::MAX
        &&& canonical_fits(if half_up { round_half_up(q, r, scale) } else { round_half_even(q, r, scale) }, -places)
    })
}

/// The digits by which division scales the dividend: enough for
/// `precision` significant digits plus two guard digits.
pub open spec fn division_shift(a: (int, int), b: (int, int), precision: int) -> int {
    digit_count_of(b) - digit_count_of(a) + precision + 2
}

/// The quotient `a / b` before the final rounding to `precision` digits:
/// the dividend's significand scaled by the shift, divided with banker's
/// rounding, at the matching exponent.
pub open spec fn division_unrounded(a: (int, int), b: (int, int), precision: int) -> (int, int) {
    let shift = division_shift(a, b, precision);
    let numerator = if shift > 0 { a.0 * pow10(shift) } else { a.0 };
    let exponent = if shift > 0 { a.1 - b.1 - shift } else { a.1 - b.1 };
    canonical(round_half_even(trunc_div(numerator, b.0), trunc_rem(numerator, b.0), b.0), exponent)
}

/// `a / b` to `precision` significant digits (zero divided by anything
/// nonzero is zero).
pub open spec fn quotient(a: (int, int), b: (int, int), precision: int) -> (int, int) {
    if a.0 == 0 {
        (0, 0)
    } else {
        rounded_significant(division_unrounded(a, b, precision), precision)
    }
}

/// Division stays within machine limits: the digit counts, the shift and
/// every exponent it computes fit their machine integers.
pub open spec fn quotient_fits(a: (int, int), b: (int, int), precision: int) -> bool {
    let shift = division_shift(a, b, precision);
    let numerator = if shift > 0 { a.0 * pow10(shift) } else { a.0 };
    let exponent = if shift > 0 { a.1 - b.1 - shift } else { a.1 - b.1 };
    a.0 != 0 ==> {
        &&& precision <= i64::MAX
        &&& digit_count_of(a) <= u32::MAX
        &&& digit_count_of(b) <= u32::MAX
        &&& i64::MIN <= shift <= i64::MAX
        &&& shift <= u32::MAX
        &&& i64::MIN <= a.1 - b.1 <= i64::MAX
        &&& i64::MIN <= exponent
        &&& canonical_fits(round_half_even(trunc_div(numerator, b.0), trunc_rem(numerator, b.0), b.0), exponent)
        &&& rounded_significant_fits(division_unrounded(a, b, precision), precision)
    }
}

/// The truncated remainder of `a / b`, with the sign of `a`.
pub open spec fn remainder(a: (int, int), b: (int, int)) -> (int, int) {
    let m = common_exponent(a, b);
    canonical(trunc_rem(scaled(a, m), scaled(b, m)), m)
}

/// The remainder's normalized exponent fits an `i64`.
pub open spec fn remainder_fits(a: (int, int), b: (int, int)) -> bool {
    let m = common_exponent(a, b);
    canonical_fits(trunc_rem(scaled(a, m), scaled(b, m)), m)
}

impl BigDecimal {
    /// Rounds so that at most `digits` significant digits remain (banker's
    /// rounding).
    pub fn rounded_to_significant_digits(&self, digits: usize) -> (r: Self)
        requires
            self.wf(),
            rounded_significant_fits(self@, digits as int),
        ensures
            r.wf(),
            r@ == rounded_significant(self@, digits as int),
    {
        let excess = self.digit_count() - digits as i64;
        if excess <= 0 {
            return self.copy();
        }
        let scale = Self::power_of_ten(excess as u32);
        proof {
            vstd::arithmetic::power::lemma_pow_positive(10, excess as nat);
        }
        let (q, r) = self.significand.div_rem(&scale);
        let rounded = Self::round_half_even_integer(q, &r, &scale);
        Self::new(rounded, self.exponent + excess)
    }

    /// Rounds to `places` decimal places (banker's rounding). Negative
    /// `places` rounds left of the decimal point (`round(1234, -2)` → `1200`).
    pub fn rounded_to_places(&self, places: i64) -> (r: Self)
        requires
            self.wf(),
            rounded_places_fits(self@, places as int, false),
        ensures
            r.wf(),
            r@ == rounded_places(self@, places as int, false),
    {
        if self.exponent >= -places {
            return self.copy();
        }
        let scale = Self::power_of_ten((-places - self.exponent) as u32);
        proof {
            vstd::arithmetic::power::lemma_pow_positive(10, (-places - self.exponent) as nat);
        }
        let (q, r) = self.significand.div_rem(&scale);
        Self::new(Self::round_half_even_integer(q, &r, &scale), -places)
    }

    /// Banker's rounding of `quotient` given the discarded `remainder`.
    fn round_half_even_integer(quotient: BigInteger, remainder: &BigInteger, divisor: &BigInteger) -> (r: BigInteger)
        requires
            quotient.wf(),
            remainder.wf(),
            divisor.wf(),
        ensures
            r.wf(),
            r.value() == round_half_even(quotient.value(), remainder.value(), divisor.value()),
    {
        if remainder.is_zero() {
            return quotient;
        }
        let two = BigInteger::from_i64(2);
        let twice = remainder.magnitude().mul(&two);
        let magnitude = divisor.magnitude();
        let bump = if magnitude.less_than(&twice) {
            true
        } else if twice.less_than(&magnitude) {
            false
        } else {
            quotient.is_odd()
        };
        if !bump {
            return quotient;
        }
        let step = if remainder.is_negative() { BigInteger::from_i64(-1) } else { BigInteger::from_i64(1) };
        quotient.add(&step)
    }

    /// Rounds to `places` decimal places with half **away from zero** (Java
    /// HALF_UP), the fixed-precision `decimal` type's `Rounding.HalfUp` mode.
    pub fn rounded_half_up_to_places(&self, places: i64) -> (r: Self)
        requires
            self.wf(),
            rounded_places_fits(self@, places as int, true),
        ensures
            r.wf(),
            r@ == rounded_places(self@, places as int, true),
    {
        if self.exponent >= -places {
            return self.copy();
        }
        let scale = Self::power_of_ten((-places - self.exponent) as u32);
        proof {
            vstd::arithmetic::power::lemma_pow_positive(10, (-places - self.exponent) as nat);
        }
        let (q, r) = self.significand.div_rem(&scale);
        Self::new(Self::round_half_up_integer(q, &r, &scale), -places)
    }

    /// Half-or-more rounds away from zero (no even tie-break).
    fn round_half_up_integer(quotient: BigInteger, remainder: &BigInteger, divisor: &BigInteger) -> (r: BigInteger)
        requires
            quotient.wf(),
            remainder.wf(),
            divisor.wf(),
        ensures
            r.wf(),
            r.value() == round_half_up(quotient.value(), remainder.value(), divisor.value()),
    {
        if remainder.is_zero() {
            return quotient;
        }
        let two = BigInteger::from_i64(2);
        let twice = remainder.magnitude().mul(&two);
        if twice.less_than(&divisor.magnitude()) {
            return quotient;
        }
        let step = if remainder.is_negative() { BigInteger::from_i64(-1) } else { BigInteger::from_i64(1) };
        quotient.add(&step)
    }

    /// Division to `precision` significant digits. Exact when the quotient
    /// terminates within the precision; division by zero is an error.
    pub fn div(&self, rhs: &Self, precision: usize) -> (r: Result<Self, EngineError>)
        requires
            self.wf(),
            rhs.wf(),
            rhs@.0 != 0 ==> quotient_fits(self@, rhs@, precision as int),
        ensures
            rhs@.0 == 0 ==> r == Err::<Self, EngineError>(EngineError::DivisionByZero),
            rhs@.0 != 0 ==> (r matches Ok(q) && q.wf() && q@ == quotient(self@, rhs@, precision as int)),
    {
        if rhs.is_zero() {
            return Err(EngineError::DivisionByZero);
        }
        if self.is_zero() {
            return Ok(Self::zero());
        }
        let precision = precision as i64;
        let shift = rhs.digit_count() - self.digit_count() + precision + 2;
        let mut numerator = self.significand.copy();
        let mut exponent = self.exponent - rhs.exponent;
        if shift > 0 {
            numerator = numerator.mul(&Self::power_of_ten(shift as u32));
            exponent = exponent - shift;
        }
        let (q, r) = numerator.div_rem(&rhs.significand);
        let rounded = Self::round_half_even_integer(q, &r, &rhs.significand);
        let unrounded = Self::new(rounded, exponent);
        Ok(unrounded.rounded_to_significant_digits(precision as usize))
    }

    /// Truncated remainder, matching the sign of the dividend; a zero divisor
    /// is an error.
    pub fn rem(&self, rhs: &Self) -> (r: Result<Self, EngineError>)
        requires
            self.wf(),
            rhs.wf(),
            alignable(self@, rhs@),
            rhs@.0 != 0 ==> remainder_fits(self@, rhs@),
        ensures
            rhs@.0 == 0 ==> r == Err::<Self, EngineError>(EngineError::DivisionByZero),
            rhs@.0 != 0 ==> (r matches Ok(q) && q.wf() && q@ == remainder(self@, rhs@)),
    {
        if rhs.is_zero() {
            return Err(EngineError::DivisionByZero);
        }
        let common = if self.exponent <= rhs.exponent { self.exponent } else { rhs.exponent };
        let (l, r) = Self::aligned(self, rhs);
        proof {
            assert(scaled(rhs@, common as int) != 0) by {
                vstd::arithmetic::power::lemma_pow_positive(10, (rhs@.1 - common) as nat);
                vstd::arithmetic::mul::lemma_mul_nonzero(rhs@.0, pow10(rhs@.1 - common));
            }
        }
        let m = l.rem(&r);
        Ok(Self::new(m, common))
    }
}

} // verus!
