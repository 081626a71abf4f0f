//! The exact part of `^` and `pow()`: what is decided without leaving
//! decimal arithmetic. A non-integer exponent of a non-negative base is
//! computed in floating point by the host.

use vstd::prelude::*;
use crate::error::EngineError;
use crate::number::{BigDecimal, digit_count_of};
use crate::number::math::{power_outcome, power_fits, reports, int_value_of};

verus! {

/// `base ^ exponent` where exact arithmetic decides it: an integer exponent
/// gives the exact power (a negative one divides at `precision` significant
/// digits); a negative base with a non-integer exponent is an error. `None`
/// leaves a non-negative base with a non-integer exponent to floating point.
pub fn exact_pow(base: &BigDecimal, exponent: &BigDecimal, precision: usize) -> (r: Option<
    Result<BigDecimal, EngineError>,
>)
    requires
        base.wf(),
        exponent.wf(),
        digit_count_of(exponent@) <= i64::MAX - 18,
        int_value_of(exponent@) matches Some(n) ==> power_fits(base@, n as int, precision as int),
    ensures
        match int_value_of(exponent@) {
            Some(n) => r matches Some(x) && reports(x, power_outcome(base@, n as int, precision as int)),
            None => if base@.0 < 0 {
                r matches Some(Err(EngineError::DomainError { message })) && message@
                    == "negative base with non-integer exponent"@
            } else {
                r is None
            },
        },
{
    if let Some(n) = exponent.int_value() {
        return Some(base.power(n, precision));
    }
    if base.is_negative() {
        return Some(Err(EngineError::domain(String::from_str("negative base with non-integer exponent"))));
    }
    None
}

} // verus!
