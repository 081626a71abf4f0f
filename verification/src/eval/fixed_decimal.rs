//! A bounded, checked fixed-precision decimal, built by
//! `Decimal(value, precision, scale[, Rounding.X])`: SQL `DECIMAL(p, s)`,
//! at most `precision` significant digits and exactly `scale` fractional
//! digits. The value is rounded to `scale`; exceeding `precision` is an
//! overflow error.

use vstd::prelude::*;
use crate::bigint::{BigInteger, abs, decimal_digits};
use crate::error::EngineError;
use crate::number::{BigDecimal, pow10, canonical, lemma_canonical, sum, product, negation, alignable, sum_fits, canonical_fits};
use crate::number::rounding::{quotient, quotient_fits};
use crate::ast::BinaryOperator;
use crate::eval::value::{Value, value_wf, kind_name_of};
use crate::number::rounding::{rounded_places, rounded_places_fits};
use crate::text::{int_text, i64_text, zeros, zero_string, chars_of, string_of, push_char};

verus! {

/// How a `Decimal` rounds its value to scale: a constructor option,
/// carried with the value so it governs every later rounding too.
#[derive(Debug, Clone, Copy, PartialEq, Eq, Structural)]
pub enum DecimalRounding {
    /// Round half to even (the engine's standard, the default).
    Bankers,
    /// Round half away from zero.
    HalfUp,
}

/// The raw-value spelling used in mixing-error messages.
pub open spec fn rounding_name(r: DecimalRounding) -> Seq<char> {
    match r {
        DecimalRounding::Bankers => "bankers"@,
        DecimalRounding::HalfUp => "halfUp"@,
    }
}

impl DecimalRounding {
    /// The raw-value spelling used in mixing-error messages ("bankers",
    /// "halfUp").
    pub fn raw_name(&self) -> (r: &'static str)
        ensures
            r@ == rounding_name(*self),
    {
        match self {
            DecimalRounding::Bankers => "bankers",
            DecimalRounding::HalfUp => "halfUp",
        }
    }
}

/// The largest precision a Decimal may declare. Since `scale <= precision`,
/// this is also the maximum scale.
pub const MAX_PRECISION: i64 = 1000;

#[derive(Debug, Clone, PartialEq, Eq)]
pub struct FixedDecimal {
    /// Already rounded to `scale` and within `precision`.
    pub value: BigDecimal,
    pub precision: i64,
    pub scale: i64,
    pub rounding: DecimalRounding,
}

/// The integer a value shows at `scale` fractional digits: value × 10^scale.
pub open spec fn unscaled_of(v: (int, int), scale: int) -> int {
    v.0 * pow10(v.1 + scale)
}

/// A value padded to exactly `scale` fractional digits: "10.50", "0.05".
pub open spec fn fixed_text_of(v: (int, int), scale: int) -> Seq<char> {
    let u = unscaled_of(v, scale);
    let d = decimal_digits(abs(u) as nat);
    let body = if scale > 0 {
        let padded = if d.len() <= scale { zeros(scale - d.len() + 1) + d } else { d };
        let cut = padded.len() - scale;
        padded.take(cut) + seq!['.'] + padded.skip(cut)
    } else {
        d
    };
    (if u < 0 { seq!['-'] } else { Seq::empty() }) + body
}

/// A value rounded to a decimal's scale by its rounding.
pub open spec fn rounded_for(v: (int, int), scale: int, rounding: DecimalRounding) -> (int, int) {
    rounded_places(v, scale, rounding == DecimalRounding::HalfUp)
}

/// The precision error's message.
pub open spec fn precision_message(precision: int) -> Seq<char> {
    "Decimal precision must be between 1 and 1000, got "@ + int_text(precision)
}

/// The scale error's message.
pub open spec fn scale_message(precision: int, scale: int) -> Seq<char> {
    "Decimal scale must be between 0 and the precision ("@ + int_text(precision) + "), got "@ + int_text(scale)
}

/// The overflow error's message.
pub open spec fn overflow_message(v: (int, int), precision: int, scale: int) -> Seq<char> {
    fixed_text_of(v, scale) + " exceeds Decimal("@ + int_text(precision) + ", "@ + int_text(scale) + ") — more than "@
        + int_text(precision) + " digits"@
}

/// Constructing stays within machine limits: the rounding fits and the
/// rounded value's power-of-ten shift fits a `u32`.
pub open spec fn decimal_fits(v: (int, int), scale: int, rounding: DecimalRounding) -> bool {
    &&& rounded_places_fits(v, scale, rounding == DecimalRounding::HalfUp)
    &&& rounded_for(v, scale, rounding).1 + scale <= u32::MAX
}

/// Is `e` the domain error with this message?
pub open spec fn is_domain_error(e: EngineError, message: Seq<char>) -> bool {
    e matches EngineError::DomainError { message: m } && m@ == message
}

/// A value's exponent after rounding to `places` is at least `-places`.
proof fn lemma_rounded_exponent(v: (int, int), places: int, half_up: bool)
    requires
        v.0 == 0 ==> v.1 == 0,
        places >= 0,
    ensures
        rounded_places(v, places, half_up).1 >= -places,
{
    if v.1 < -places {
        let scale = pow10(-places - v.1);
        let q = crate::bigint::trunc_div(v.0, scale);
        let r = crate::bigint::trunc_rem(v.0, scale);
        let s = if half_up {
            crate::number::rounding::round_half_up(q, r, scale)
        } else {
            crate::number::rounding::round_half_even(q, r, scale)
        };
        lemma_canonical(s, -places);
    }
}

impl FixedDecimal {
    /// The value scaled to an integer: value × 10^(exponent + scale).
    fn unscaled(value: &BigDecimal, scale: i64) -> (r: BigInteger)
        requires
            value.wf(),
            0 <= value@.1 + scale <= u32::MAX,
        ensures
            r.wf(),
            r.value() == unscaled_of(value@, scale as int),
    {
        let shift = (value.exponent() + scale) as u32;
        let ten = BigInteger::from_i64(10);
        value.significand().mul(&ten.pow(shift))
    }

    /// A value padded to exactly `scale` fractional digits.
    fn render(value: &BigDecimal, scale: i64) -> (r: String)
        requires
            value.wf(),
            0 <= value@.1 + scale <= u32::MAX,
            0 <= scale <= MAX_PRECISION,
        ensures
            r@ == fixed_text_of(value@, scale as int),
    {
        let unscaled = Self::unscaled(value, scale);
        let negative = unscaled.is_negative();
        let text = unscaled.magnitude_text();
        let ghost d = decimal_digits(abs(unscaled.value()) as nat);
        let mut digits = chars_of(text.as_str());
        let mut body = String::new();
        if scale > 0 {
            let places = scale as usize;
            let mut padded = String::new();
            if digits.len() <= places {
                padded = zero_string(places - digits.len() + 1);
            }
            padded.append(text.as_str());
            let all = chars_of(padded.as_str());
            let cut = all.len() - places;
            body = string_of(&all, 0, cut);
            push_char(&mut body, '.');
            let tail = string_of(&all, cut, all.len());
            body.append(tail.as_str());
            proof {
                assert(all@.subrange(0, cut as int) =~= all@.take(cut as int));
                assert(all@.subrange(cut as int, all@.len() as int) =~= all@.skip(cut as int));
            }
        } else {
            body = text;
        }
        let mut out = String::new();
        if negative {
            push_char(&mut out, '-');
        }
        out.append(body.as_str());
        proof {
            assert(out@ =~= fixed_text_of(value@, scale as int));
        }
        out
    }

    /// A checked decimal: `precision` in 1...1000 and `scale` in
    /// 0...precision, the value rounded to `scale` places by `rounding` and
    /// holding at most `precision` digits.
    pub fn new(raw_value: BigDecimal, precision: i64, scale: i64, rounding: DecimalRounding) -> (r: Result<Self, EngineError>)
        requires
            raw_value.wf(),
            1 <= precision <= MAX_PRECISION && 0 <= scale <= precision ==> decimal_fits(raw_value@, scale as int,
                rounding),
        ensures
            !(1 <= precision <= MAX_PRECISION) ==> (r matches Err(e) && is_domain_error(e, precision_message(
                precision as int))),
            1 <= precision <= MAX_PRECISION && !(0 <= scale <= precision) ==> (r matches Err(e) && is_domain_error(e,
                scale_message(precision as int, scale as int))),
            1 <= precision <= MAX_PRECISION && 0 <= scale <= precision ==> ({
                let v = rounded_for(raw_value@, scale as int, rounding);
                if abs(unscaled_of(v, scale as int)) >= pow10(precision as int) {
                    r matches Err(e) && is_domain_error(e, overflow_message(v, precision as int, scale as int))
                } else {
                    r matches Ok(d) && d.wf() && d.value@ == v && d.precision == precision && d.scale == scale
                        && d.rounding == rounding
                }
            }),
    {
        if !(1 <= precision && precision <= MAX_PRECISION) {
            let mut message = String::from_str("Decimal precision must be between 1 and 1000, got ");
            let shown = i64_text(precision);
            message.append(shown.as_str());
            return Err(EngineError::domain(message));
        }
        if scale < 0 || scale > precision {
            let mut message = String::from_str("Decimal scale must be between 0 and the precision (");
            let shown = i64_text(precision);
            message.append(shown.as_str());
            message.append("), got ");
            let got = i64_text(scale);
            message.append(got.as_str());
            return Err(EngineError::domain(message));
        }
        let rounded = match rounding {
            DecimalRounding::HalfUp => raw_value.rounded_half_up_to_places(scale),
            DecimalRounding::Bankers => raw_value.rounded_to_places(scale),
        };
        proof {
            raw_value.lemma_normalized();
            lemma_rounded_exponent(raw_value@, scale as int, rounding == DecimalRounding::HalfUp);
        }
        let unscaled = Self::unscaled(&rounded, scale);
        let limit = BigInteger::from_i64(10).pow(precision as u32);
        proof {
            vstd::arithmetic::power::lemma_pow_positive(10, precision as nat);
        }
        if !unscaled.magnitude().less_than(&limit) {
            let mut message = Self::render(&rounded, scale);
            message.append(" exceeds Decimal(");
            let p = i64_text(precision);
            message.append(p.as_str());
            message.append(", ");
            let s = i64_text(scale);
            message.append(s.as_str());
            message.append(") — more than ");
            message.append(p.as_str());
            message.append(" digits");
            return Err(EngineError::domain(message));
        }
        Ok(FixedDecimal { value: rounded, precision, scale, rounding })
    }
}

/// The canonical, re-parseable constructor spelling: the shortest form
/// that round-trips.
pub open spec fn description_of(d: FixedDecimal) -> Seq<char> {
    let text = fixed_text_of(d.value@, d.scale as int);
    if d.precision == MAX_PRECISION && d.rounding == DecimalRounding::Bankers {
        let natural = if -d.value@.1 > 0 { -d.value@.1 } else { 0 };
        if d.scale == natural {
            "Decimal("@ + text + seq![')']
        } else {
            "Decimal("@ + text + ", "@ + int_text(d.scale as int) + seq![')']
        }
    } else {
        "Decimal("@ + text + ", "@ + int_text(d.precision as int) + ", "@ + int_text(d.scale as int) + (if d.rounding
            == DecimalRounding::HalfUp {
            ", Rounding.HalfUp"@
        } else {
            Seq::empty()
        }) + seq![')']
    }
}

impl FixedDecimal {
    /// The invariant every constructed decimal keeps: a well-formed value
    /// rounded to `scale`, a valid precision and scale, and at most
    /// `precision` digits.
    pub open spec fn wf(&self) -> bool {
        &&& self.value.wf()
        &&& 1 <= self.precision <= MAX_PRECISION
        &&& 0 <= self.scale <= self.precision
        &&& 0 <= self.value@.1 + self.scale <= u32::MAX
        &&& abs(unscaled_of(self.value@, self.scale as int)) < pow10(self.precision as int)
    }

    /// "Decimal(5, 2)", for type names and error messages.
    pub fn type_text(&self) -> (r: String)
        ensures
            r@ == "Decimal("@ + int_text(self.precision as int) + ", "@ + int_text(self.scale as int) + seq![')'],
    {
        let mut out = String::from_str("Decimal(");
        let p = i64_text(self.precision);
        out.append(p.as_str());
        out.append(", ");
        let s = i64_text(self.scale);
        out.append(s.as_str());
        push_char(&mut out, ')');
        proof {
            assert(out@ =~= "Decimal("@ + int_text(self.precision as int) + ", "@ + int_text(self.scale as int) + seq![')']);
        }
        out
    }

    /// The value padded to exactly `scale` fractional digits: "10.50",
    /// "0.05".
    pub fn text(&self) -> (r: String)
        requires
            self.wf(),
        ensures
            r@ == fixed_text_of(self.value@, self.scale as int),
    {
        Self::render(&self.value, self.scale)
    }

    /// The canonical, re-parseable constructor spelling, the shortest form
    /// that round-trips: a max-precision banker's value hides the precision
    /// (`Decimal(0.5)` when the scale is the value's own, else
    /// `Decimal(0.50, 2)`); everything else is the full form, the rounding
    /// shown only when not the default.
    pub fn description(&self) -> (r: String)
        requires
            self.wf(),
        ensures
            r@ == description_of(*self),
    {
        let text = self.text();
        let mut out = String::from_str("Decimal(");
        out.append(text.as_str());
        if self.precision == MAX_PRECISION && self.rounding == DecimalRounding::Bankers {
            let natural = if -self.value.exponent() > 0 { -self.value.exponent() } else { 0 };
            if self.scale != natural {
                out.append(", ");
                let s = i64_text(self.scale);
                out.append(s.as_str());
            }
        } else {
            out.append(", ");
            let p = i64_text(self.precision);
            out.append(p.as_str());
            out.append(", ");
            let s = i64_text(self.scale);
            out.append(s.as_str());
            if self.rounding == DecimalRounding::HalfUp {
                out.append(", Rounding.HalfUp");
            }
        }
        push_char(&mut out, ')');
        proof {
            assert(out@ =~= description_of(*self));
        }
        out
    }
}

/// The result type of decimal arithmetic: precision and scale promote to
/// the widest; rounding never reconciles (a mismatch is an error).
pub open spec fn decimal_type_of(lhs: Value, rhs: Value) -> Result<(int, int, DecimalRounding), Seq<char>> {
    match (lhs, rhs) {
        (Value::FixedDecimal(a), Value::FixedDecimal(b)) => if a.rounding != b.rounding {
            Err("can't mix decimals with different rounding ("@ + rounding_name(a.rounding) + " and "@
                + rounding_name(b.rounding) + ") — cast one"@)
        } else {
            Ok((
                if a.precision >= b.precision { a.precision as int } else { b.precision as int },
                if a.scale >= b.scale { a.scale as int } else { b.scale as int },
                a.rounding,
            ))
        },
        (Value::FixedDecimal(a), _) => Ok((a.precision as int, a.scale as int, a.rounding)),
        (_, Value::FixedDecimal(b)) => Ok((b.precision as int, b.scale as int, b.rounding)),
        _ => Err("fixed-precision arithmetic with no decimal operand"@),
    }
}

/// An operand as an exact value: a decimal's value or a plain number,
/// absorbed exactly; anything else (a fixed-width integer too) is refused.
pub open spec fn decimal_operand_of(v: Value) -> Result<(int, int), Seq<char>> {
    match v {
        Value::FixedDecimal(d) => Ok(d.value@),
        Value::Number(n) => Ok(n@),
        _ => Err("can't combine "@ + kind_name_of(v) + " with a fixed-precision decimal — cast it (e.g. Decimal(…))"@),
    }
}

/// What decimal arithmetic yields: a decimal (value, precision, scale,
/// rounding), a domain error's message, or division by zero.
pub enum DecimalOutcome {
    Value((int, int), int, int, DecimalRounding),
    Refused(Seq<char>),
    DivisionByZero,
}

/// The checked constructor's verdict on a raw result: rounded to the scale,
/// and refused when it holds more than `precision` digits.
pub open spec fn decimal_checked(raw: (int, int), precision: int, scale: int, rounding: DecimalRounding) -> DecimalOutcome {
    let v = rounded_for(raw, scale, rounding);
    if abs(unscaled_of(v, scale)) >= pow10(precision) {
        DecimalOutcome::Refused(overflow_message(v, precision, scale))
    } else {
        DecimalOutcome::Value(v, precision, scale, rounding)
    }
}

/// The raw result of an operation on two exact values, if it has one.
pub open spec fn decimal_raw(op: BinaryOperator, a: (int, int), b: (int, int), digits: int) -> Option<(int, int)> {
    match op {
        BinaryOperator::Add => Some(sum(a, b)),
        BinaryOperator::Subtract => Some(sum(a, negation(b))),
        BinaryOperator::Multiply => Some(product(a, b)),
        BinaryOperator::Divide => if b.0 == 0 { None } else { Some(quotient(a, b, digits)) },
        _ => None,
    }
}

/// `+ − × ÷` on fixed-precision operands: scale and precision promote to
/// the widest, rounding never reconciles, a plain number is absorbed and
/// the result rounded to the scale, range-checked, erring rather than
/// wrapping. `^` and modulo are refused. Division works to `digits`
/// significant digits.
pub open spec fn decimal_outcome(op: BinaryOperator, lhs: Value, rhs: Value, digits: int) -> DecimalOutcome {
    match decimal_type_of(lhs, rhs) {
        Err(m) => DecimalOutcome::Refused(m),
        Ok((precision, scale, rounding)) => match decimal_operand_of(lhs) {
            Err(m) => DecimalOutcome::Refused(m),
            Ok(a) => match decimal_operand_of(rhs) {
                Err(m) => DecimalOutcome::Refused(m),
                Ok(b) => match op {
                    BinaryOperator::Power => DecimalOutcome::Refused(
                        "a fixed-precision decimal doesn't support ^ (power) — convert it to a Number first"@,
                    ),
                    BinaryOperator::Modulo => DecimalOutcome::Refused(
                        "a fixed-precision decimal doesn't support modulo — convert it to a Number first"@,
                    ),
                    _ => match decimal_raw(op, a, b, digits) {
                        Some(raw) => decimal_checked(raw, precision, scale, rounding),
                        None => DecimalOutcome::DivisionByZero,
                    },
                },
            },
        },
    }
}

/// Can the arithmetic and the rounding be carried out within machine
/// limits?
pub open spec fn decimal_arith_fits(op: BinaryOperator, lhs: Value, rhs: Value, digits: int) -> bool {
    match (decimal_type_of(lhs, rhs), decimal_operand_of(lhs), decimal_operand_of(rhs)) {
        (Ok((_, scale, rounding)), Ok(a), Ok(b)) => {
            &&& (op == BinaryOperator::Add || op == BinaryOperator::Subtract) ==> alignable(a, b)
            &&& op == BinaryOperator::Add ==> sum_fits(a, b)
            &&& op == BinaryOperator::Subtract ==> sum_fits(a, negation(b))
            &&& op == BinaryOperator::Multiply ==> canonical_fits(a.0 * b.0, a.1 + b.1)
            &&& (op == BinaryOperator::Divide && b.0 != 0) ==> quotient_fits(a, b, digits)
            &&& (decimal_raw(op, a, b, digits) matches Some(raw) ==> decimal_fits(raw, scale, rounding))
        },
        _ => true,
    }
}

/// Does `r` report the outcome?
pub open spec fn reports_decimal(r: Result<FixedDecimal, EngineError>, outcome: DecimalOutcome) -> bool {
    match outcome {
        DecimalOutcome::Value(v, precision, scale, rounding) => r matches Ok(d) && d.wf() && d.value@ == v
            && d.precision == precision && d.scale == scale && d.rounding == rounding,
        DecimalOutcome::Refused(message) => r matches Err(e) && is_domain_error(e, message),
        DecimalOutcome::DivisionByZero => r matches Err(EngineError::DivisionByZero),
    }
}

impl FixedDecimal {
    /// True when fixed-precision arithmetic applies: either operand is a
    /// decimal.
    pub fn is_involved(lhs: &Value, rhs: &Value) -> (r: bool)
        ensures
            r == (*lhs is FixedDecimal || *rhs is FixedDecimal),
    {
        matches!(lhs, Value::FixedDecimal(_)) || matches!(rhs, Value::FixedDecimal(_))
    }

    /// The result type: precision and scale promote to the widest; rounding
    /// never reconciles.
    fn resolved_type(lhs: &Value, rhs: &Value) -> (r: Result<(i64, i64, DecimalRounding), EngineError>)
        requires
            value_wf(*lhs),
            value_wf(*rhs),
        ensures
            match decimal_type_of(*lhs, *rhs) {
                Ok((p, s, rounding)) => r matches Ok((rp, rs, rr)) && rp == p && rs == s && rr == rounding
                    && 1 <= p <= MAX_PRECISION && 0 <= s <= p,
                Err(m) => r matches Err(e) && is_domain_error(e, m),
            },
    {
        match (lhs, rhs) {
            (Value::FixedDecimal(a), Value::FixedDecimal(b)) => {
                if a.rounding != b.rounding {
                    let mut message = String::from_str("can't mix decimals with different rounding (");
                    message.append(a.rounding.raw_name());
                    message.append(" and ");
                    message.append(b.rounding.raw_name());
                    message.append(") — cast one");
                    return Err(EngineError::domain(message));
                }
                Ok((
                    if a.precision >= b.precision { a.precision } else { b.precision },
                    if a.scale >= b.scale { a.scale } else { b.scale },
                    a.rounding,
                ))
            },
            (Value::FixedDecimal(a), _) => Ok((a.precision, a.scale, a.rounding)),
            (_, Value::FixedDecimal(b)) => Ok((b.precision, b.scale, b.rounding)),
            _ => Err(EngineError::domain(String::from_str("fixed-precision arithmetic with no decimal operand"))),
        }
    }

    /// An operand as an exact value.
    fn operand(value: &Value) -> (r: Result<BigDecimal, EngineError>)
        requires
            value_wf(*value),
        ensures
            match decimal_operand_of(*value) {
                Ok(v) => r matches Ok(n) && n.wf() && n@ == v,
                Err(m) => r matches Err(e) && is_domain_error(e, m),
            },
    {
        match value {
            Value::FixedDecimal(d) => Ok(d.value.copy()),
            Value::Number(n) => Ok(n.copy()),
            _ => {
                let mut message = String::from_str("can't combine ");
                let kind = value.kind_name();
                message.append(kind.as_str());
                message.append(" with a fixed-precision decimal — cast it (e.g. Decimal(…))");
                Err(EngineError::domain(message))
            },
        }
    }

    /// `+ − × ÷` on fixed-precision operands: scale and precision promote to
    /// the widest; rounding never reconciles; a plain number is absorbed
    /// and rounded to the decimal's scale; the result is range-checked and
    /// errs rather than wraps. Division works to `digits` significant
    /// digits.
    pub fn apply_binary(op: BinaryOperator, lhs: &Value, rhs: &Value, digits: usize) -> (r: Result<FixedDecimal, EngineError>)
        requires
            value_wf(*lhs),
            value_wf(*rhs),
            decimal_arith_fits(op, *lhs, *rhs, digits as int),
        ensures
            reports_decimal(r, decimal_outcome(op, *lhs, *rhs, digits as int)),
    {
        let (precision, scale, rounding) = match Self::resolved_type(lhs, rhs) {
            Ok(t) => t,
            Err(e) => return Err(e),
        };
        let a = match Self::operand(lhs) {
            Ok(v) => v,
            Err(e) => return Err(e),
        };
        let b = match Self::operand(rhs) {
            Ok(v) => v,
            Err(e) => return Err(e),
        };
        let raw = match op {
            BinaryOperator::Add => a.add(&b),
            BinaryOperator::Subtract => a.sub(&b),
            BinaryOperator::Multiply => a.mul(&b),
            BinaryOperator::Divide => match a.div(&b, digits) {
                Ok(q) => q,
                Err(e) => return Err(e),
            },
            BinaryOperator::Power => return Err(
                EngineError::domain(
                    String::from_str("a fixed-precision decimal doesn't support ^ (power) — convert it to a Number first"),
                ),
            ),
            BinaryOperator::Modulo => return Err(
                EngineError::domain(
                    String::from_str("a fixed-precision decimal doesn't support modulo — convert it to a Number first"),
                ),
            ),
        };
        FixedDecimal::new(raw, precision, scale, rounding)
    }
}

} // verus!
