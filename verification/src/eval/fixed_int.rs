//! A bounded, checked integer, built by the `Int8…Int256` / `UInt8…UInt256`
//! constructors (or `Int(value, bits)` / `UInt(value, bits)`). Exact like the
//! rest of the engine, but with a declared width: arithmetic that leaves the
//! range is an error, never a wraparound.

use vstd::prelude::*;
use vstd::arithmetic::power::*;
use crate::ast::BinaryOperator;
use crate::bigint::{BigInteger, bit_and, bit_or, bit_xor, trunc_div, trunc_rem, abs};
use crate::error::EngineError;
use crate::number::{BigDecimal, canonical, canonical_fits, pow10, lemma_canonical};
use crate::number::format::{formatted_text, formatted_fits};
use crate::text::{int_text, i64_text};
use crate::eval::value::{Value, value_wf, number_of, kind_name_of};

verus! {

/// The widths a fixed-width integer may have.
pub open spec fn allowed_width(bits: int) -> bool {
    bits == 8 || bits == 16 || bits == 32 || bits == 64 || bits == 128 || bits == 256
}

/// The least value of a width and signedness.
pub open spec fn lowest(bits: int, signed: bool) -> int {
    if signed { -pow(2, (bits - 1) as nat) } else { 0 }
}

/// The greatest value of a width and signedness.
pub open spec fn highest(bits: int, signed: bool) -> int {
    if signed { pow(2, (bits - 1) as nat) - 1 } else { pow(2, bits as nat) - 1 }
}

/// Does `v` lie in the range of the type?
pub open spec fn in_range(v: int, bits: int, signed: bool) -> bool {
    lowest(bits, signed) <= v <= highest(bits, signed)
}

/// `Int32`, `UInt8`: the name of a width and signedness.
pub open spec fn fixed_type_name(bits: int, signed: bool) -> Seq<char> {
    (if signed { "Int"@ } else { "UInt"@ }) + int_text(bits)
}

/// The message for a width that is not allowed.
pub open spec fn width_message(bits: int) -> Seq<char> {
    "fixed-width needs a width of 8, 16, 32, 64, 128, or 256 — got "@ + int_text(bits)
}

/// The message for a value out of its type's range.
pub open spec fn range_message(v: int, bits: int, signed: bool) -> Seq<char> {
    int_text(v) + " is out of range for "@ + fixed_type_name(bits, signed) + " ("@ + int_text(
        lowest(bits, signed),
    ) + " … "@ + int_text(highest(bits, signed)) + ")"@
}

/// What the checked constructor makes of a value: the value itself, or the
/// message of the width or range error. There is no silent truncation.
pub open spec fn checked(v: int, bits: int, signed: bool) -> Result<int, Seq<char>> {
    if !allowed_width(bits) {
        Err(width_message(bits))
    } else if !in_range(v, bits, signed) {
        Err(range_message(v, bits, signed))
    } else {
        Ok(v)
    }
}

/// The re-parseable constructor spelling: `Int32(27374)`, `UInt8(255)`.
pub open spec fn fixed_description(v: int, bits: int, signed: bool) -> Seq<char> {
    fixed_type_name(bits, signed) + "("@ + int_text(v) + ")"@
}

/// A bounded, checked integer: its value, width in bits and signedness.
#[derive(Debug, Clone, PartialEq, Eq)]
pub struct FixedInt {
    pub value: BigInteger,
    pub bits: u32,
    pub signed: bool,
}

/// The decimal text of an integer.
fn integer_text(x: &BigInteger) -> (r: String)
    requires
        x.wf(),
    ensures
        r@ == int_text(x.value()),
{
    let digits = x.magnitude_text();
    if x.is_negative() {
        let mut out = String::from_str("-");
        out.append(digits.as_str());
        proof {
            reveal_strlit("-");
            assert(out@ == seq!['-'] + digits@);
        }
        out
    } else {
        digits
    }
}

/// 2^n is positive, and doubles from one exponent to the next.
pub proof fn lemma_pow2_step(n: nat)
    ensures
        pow(2, n) > 0,
        pow(2, n + 1) == 2 * pow(2, n),
{
    lemma_pow_positive(2, n);
    reveal(pow);
    assert(pow(2, n + 1) == 2 * pow(2, (n + 1 - 1) as nat));
}

/// 2^n is at most 10^n.
proof fn lemma_pow2_below_pow10(n: nat)
    ensures
        pow(2, n) <= pow(10, n),
    decreases n,
{
    reveal(pow);
    if n > 0 {
        lemma_pow2_below_pow10((n - 1) as nat);
        lemma_pow_positive(2, (n - 1) as nat);
    }
}

/// Normalizing a value below 10^k moves fewer than k zeros into the exponent.
proof fn lemma_canonical_below(s: int, e: int, k: nat)
    requires
        s != 0,
        abs(s) < pow(10, k),
    ensures
        canonical(s, e).1 < e + k,
    decreases k,
{
    reveal(pow);
    if s % 10 == 0 {
        if k == 0 {
            assert(false);
        }
        assert(abs(s / 10) < pow(10, (k - 1) as nat)) by {
            assert(pow(10, k) == 10 * pow(10, (k - 1) as nat));
            if s > 0 {
                assert(s == 10 * (s / 10));
            } else {
                assert(s == 10 * (s / 10));
            }
        }
        lemma_canonical_below(s / 10, e + 1, (k - 1) as nat);
    } else {
        assert(k > 0) by {
            if k == 0 {
                assert(pow(10, 0) == 1);
            }
        }
    }
}

impl FixedInt {
    /// The value is well formed, the width allowed and the value in range.
    pub open spec fn wf(&self) -> bool {
        &&& self.value.wf()
        &&& allowed_width(self.bits as int)
        &&& in_range(self.value.value(), self.bits as int, self.signed)
    }

    /// Validating constructor: a width other than 8, 16, 32, 64, 128 or 256,
    /// or a value out of the type's range, is refused.
    pub fn new(value: BigInteger, bits: u32, signed: bool) -> (r: Result<Self, EngineError>)
        requires
            value.wf(),
        ensures
            match checked(value.value(), bits as int, signed) {
                Ok(v) => r matches Ok(f) && f.wf() && f.value.value() == v && f.bits == bits && f.signed == signed,
                Err(m) => r matches Err(EngineError::DomainError { message }) && message@ == m,
            },
    {
        if !(bits == 8 || bits == 16 || bits == 32 || bits == 64 || bits == 128 || bits == 256) {
            let mut message = String::from_str("fixed-width needs a width of 8, 16, 32, 64, 128, or 256 — got ");
            let text = i64_text(bits as i64);
            message.append(text.as_str());
            return Err(EngineError::domain(message));
        }
        let lo = Self::min_value(bits, signed);
        let hi = Self::max_value(bits, signed);
        if value.less_than(&lo) || hi.less_than(&value) {
            let mut message = integer_text(&value);
            message.append(" is out of range for ");
            let name = Self::type_name_for(bits, signed);
            message.append(name.as_str());
            message.append(" (");
            let lo_text = integer_text(&lo);
            message.append(lo_text.as_str());
            message.append(" … ");
            let hi_text = integer_text(&hi);
            message.append(hi_text.as_str());
            message.append(")");
            return Err(EngineError::domain(message));
        }
        Ok(FixedInt { value, bits, signed })
    }

    /// The least value of the type.
    pub(crate) fn min_value(bits: u32, signed: bool) -> (r: BigInteger)
        requires
            bits >= 1,
        ensures
            r.wf(),
            r.value() == lowest(bits as int, signed),
    {
        if signed {
            BigInteger::from_i64(1).shl(bits - 1).neg()
        } else {
            BigInteger::from_i64(0)
        }
    }

    /// The greatest value of the type.
    pub(crate) fn max_value(bits: u32, signed: bool) -> (r: BigInteger)
        requires
            bits >= 1,
        ensures
            r.wf(),
            r.value() == highest(bits as int, signed),
    {
        let top = if signed { BigInteger::from_i64(1).shl(bits - 1) } else { BigInteger::from_i64(1).shl(bits) };
        top.add(&BigInteger::from_i64(-1))
    }

    /// `Int32`, `UInt8`.
    pub(crate) fn type_name_for(bits: u32, signed: bool) -> (r: String)
        ensures
            r@ == fixed_type_name(bits as int, signed),
    {
        let mut out = String::from_str(if signed { "Int" } else { "UInt" });
        let digits = i64_text(bits as i64);
        out.append(digits.as_str());
        out
    }

    /// The type's name, for error messages and kind names.
    pub fn type_text(&self) -> (r: String)
        ensures
            r@ == fixed_type_name(self.bits as int, self.signed),
    {
        Self::type_name_for(self.bits, self.signed)
    }

    /// The canonical, re-parseable constructor spelling `Int32(27374)`.
    pub fn description(&self) -> (r: String)
        requires
            self.wf(),
        ensures
            r@ == fixed_description(self.value.value(), self.bits as int, self.signed),
    {
        let mut out = self.type_text();
        out.append("(");
        let digits = integer_text(&self.value);
        out.append(digits.as_str());
        out.append(")");
        out
    }

    /// The plain decimal value, for comparison, truthiness and numeric
    /// coercion outside typed arithmetic.
    pub fn decimal(&self) -> (r: BigDecimal)
        requires
            self.wf(),
        ensures
            r.wf(),
            r@ == canonical(self.value.value(), 0),
    {
        proof {
            Self::lemma_decimal_fits(self.value.value(), self.bits as int, self.signed);
        }
        BigDecimal::new(self.value.copy(), 0)
    }

    /// A value of an allowed type normalizes with an exponent far inside
    /// `i64`.
    pub proof fn lemma_decimal_fits(v: int, bits: int, signed: bool)
        requires
            allowed_width(bits),
            in_range(v, bits, signed),
        ensures
            canonical_fits(v, 0),
            v != 0 ==> canonical(v, 0).1 < 257,
            canonical(v, 0).1 >= 0,
    {
        lemma_canonical(v, 0);
        if v != 0 {
            lemma_pow2_step((bits - 1) as nat);
            lemma_pow2_step(bits as nat);
            assert(abs(v) <= pow(2, bits as nat));
            lemma_pow_increases(2, bits as nat, 256);
            lemma_pow2_below_pow10(256);
            lemma_pow2_step(256);
            lemma_pow_increases(10, 256, 257);
            reveal(pow);
            assert(pow(10, 257) == 10 * pow(10, 256));
            lemma_canonical_below(v, 0, 257);
        }
    }
}

/// The operand's number outside typed arithmetic, or the type error
/// naming the context.
pub open spec fn as_number_of(v: Value, context: Seq<char>) -> Result<(int, int), Seq<char>> {
    match number_of(v) {
        Some(x) => Ok(x),
        None => Err("expected a number for "@ + context + ", got "@ + kind_name_of(v)),
    }
}

/// The result type: the largest width present wins; sign never promotes.
pub open spec fn resolved_type_of(lhs: Value, rhs: Value) -> Result<(int, bool), Seq<char>> {
    match (lhs, rhs) {
        (Value::FixedInt(a), Value::FixedInt(b)) => if a.signed != b.signed {
            Err("can't mix "@ + fixed_type_name(a.bits as int, a.signed) + " and "@ + fixed_type_name(
                b.bits as int,
                b.signed,
            ) + " — signed and unsigned never combine; cast one explicitly"@)
        } else {
            Ok((if a.bits >= b.bits { a.bits as int } else { b.bits as int }, a.signed))
        },
        (Value::FixedInt(a), _) => Ok((a.bits as int, a.signed)),
        (_, Value::FixedInt(b)) => Ok((b.bits as int, b.signed)),
        _ => Err("fixed-width arithmetic with no fixed-width operand"@),
    }
}

/// An operand as an integer of the result type: a fixed-width value keeps
/// its value; a plain number must be whole (with an exponent of at most
/// 10,000) and adopts the type, range-checked; anything else is refused.
pub open spec fn operand_of(o: Value, bits: int, signed: bool) -> Result<int, Seq<char>> {
    match o {
        Value::FixedInt(f) => Ok(f.value.value()),
        Value::Number(n) => if n@.1 < 0 || n@.1 > 10_000 {
            Err("fixed-width arithmetic needs whole numbers — "@ + formatted_text(n@, 30) + " isn't an integer"@)
        } else {
            checked(n@.0 * pow10(n@.1), bits, signed)
        },
        _ => Err("can't combine "@ + kind_name_of(o) + " with a fixed-width integer"@),
    }
}

/// What fixed-width arithmetic yields: a fixed-width value, a domain error's
/// message, division by zero, or an ordinary numeric power of a plain base
/// (which is no fixed-width arithmetic at all).
pub enum FixedOutcome {
    Value(int, int, bool),
    Refused(Seq<char>),
    DivisionByZero,
    NumericPower((int, int), (int, int)),
}

/// The checked constructor's verdict, as an outcome.
pub open spec fn checked_outcome(v: int, bits: int, signed: bool) -> FixedOutcome {
    match checked(v, bits, signed) {
        Ok(v) => FixedOutcome::Value(v, bits, signed),
        Err(m) => FixedOutcome::Refused(m),
    }
}

/// The integer a whole number stands for, when it is one that fits a `u32`.
pub open spec fn u32_exponent(e: (int, int)) -> Option<int> {
    if e.1 >= 0 && e.1 <= 10_000 && 0 <= e.0 * pow10(e.1) <= u32::MAX {
        Some(e.0 * pow10(e.1))
    } else {
        None
    }
}

/// `^` with a fixed-width operand: the exponent is a count, exempt from the
/// mixing matrix, and the result follows the base; a plain base makes it an
/// ordinary numeric power.
pub open spec fn power_outcome(lhs: Value, rhs: Value) -> FixedOutcome {
    match as_number_of(rhs, "^"@) {
        Err(m) => FixedOutcome::Refused(m),
        Ok(e) => match lhs {
            Value::FixedInt(base) => match u32_exponent(e) {
                Some(n) => checked_outcome(pow(base.value.value(), n as nat), base.bits as int, base.signed),
                None => FixedOutcome::Refused("a fixed-width base needs a non-negative integer exponent"@),
            },
            _ => match as_number_of(lhs, "^"@) {
                Err(m) => FixedOutcome::Refused(m),
                Ok(b) => FixedOutcome::NumericPower(b, e),
            },
        },
    }
}

/// `+ − × ÷ %` and `^` on fixed-width operands: width promotes toward the
/// widest type present, sign never promotes, every result is range-checked
/// and errors rather than wraps. Division truncates toward zero.
pub open spec fn fixed_outcome(op: BinaryOperator, lhs: Value, rhs: Value) -> FixedOutcome {
    if op == BinaryOperator::Power {
        power_outcome(lhs, rhs)
    } else {
        match resolved_type_of(lhs, rhs) {
            Err(m) => FixedOutcome::Refused(m),
            Ok((bits, signed)) => match operand_of(lhs, bits, signed) {
                Err(m) => FixedOutcome::Refused(m),
                Ok(a) => match operand_of(rhs, bits, signed) {
                    Err(m) => FixedOutcome::Refused(m),
                    Ok(b) => match op {
                        BinaryOperator::Add => checked_outcome(a + b, bits, signed),
                        BinaryOperator::Subtract => checked_outcome(a - b, bits, signed),
                        BinaryOperator::Multiply => checked_outcome(a * b, bits, signed),
                        BinaryOperator::Divide => if b == 0 {
                            FixedOutcome::DivisionByZero
                        } else {
                            checked_outcome(trunc_div(a, b), bits, signed)
                        },
                        _ => if b == 0 {
                            FixedOutcome::DivisionByZero
                        } else {
                            checked_outcome(trunc_rem(a, b), bits, signed)
                        },
                    },
                },
            },
        }
    }
}

/// Can the error messages be rendered within machine limits? (A plain
/// number's text is part of the whole-number error.)
pub open spec fn fixed_fits(lhs: Value, rhs: Value) -> bool {
    &&& (lhs matches Value::Number(n) ==> formatted_fits(n@, 30))
    &&& (rhs matches Value::Number(n) ==> formatted_fits(n@, 30))
}

/// The result of fixed-width arithmetic: a fixed-width value, or an
/// ordinary numeric power for the caller to compute.
#[derive(Debug)]
pub enum FixedArithmetic {
    Fixed(FixedInt),
    NumericPower { base: BigDecimal, exponent: BigDecimal },
}

/// Does `r` report the outcome?
pub open spec fn reports_fixed(r: Result<FixedArithmetic, EngineError>, outcome: FixedOutcome) -> bool {
    match outcome {
        FixedOutcome::Value(v, bits, signed) => r matches Ok(FixedArithmetic::Fixed(f)) && f.wf()
            && f.value.value() == v && f.bits == bits && f.signed == signed,
        FixedOutcome::Refused(message) => r matches Err(EngineError::DomainError { message: m }) && m@ == message,
        FixedOutcome::DivisionByZero => r matches Err(EngineError::DivisionByZero),
        FixedOutcome::NumericPower(b, e) => r matches Ok(FixedArithmetic::NumericPower { base, exponent })
            && base.wf() && exponent.wf() && base@ == b && exponent@ == e,
    }
}

/// A checked result, reported.
fn checked_result(
    r: Result<FixedInt, EngineError>,
    Ghost(v): Ghost<int>,
    Ghost(bits): Ghost<int>,
    Ghost(signed): Ghost<bool>,
) -> (out: Result<FixedArithmetic, EngineError>)
    requires
        match checked(v, bits, signed) {
            Ok(w) => r matches Ok(f) && f.wf() && f.value.value() == w && f.bits == bits && f.signed == signed,
            Err(m) => r matches Err(EngineError::DomainError { message }) && message@ == m,
        },
    ensures
        reports_fixed(out, checked_outcome(v, bits, signed)),
{
    match r {
        Ok(f) => Ok(FixedArithmetic::Fixed(f)),
        Err(e) => Err(e),
    }
}

impl FixedInt {
    /// True when fixed-width arithmetic applies: either operand is a
    /// fixed-width integer.
    pub fn is_involved(lhs: &Value, rhs: &Value) -> (r: bool)
        ensures
            r == (*lhs is FixedInt || *rhs is FixedInt),
    {
        matches!(lhs, Value::FixedInt(_)) || matches!(rhs, Value::FixedInt(_))
    }

    /// The result type: largest width wins; sign never promotes.
    fn resolved_type(lhs: &Value, rhs: &Value) -> (r: Result<(u32, bool), EngineError>)
        requires
            value_wf(*lhs),
            value_wf(*rhs),
        ensures
            match resolved_type_of(*lhs, *rhs) {
                Ok((bits, signed)) => r matches Ok((b, s)) && b == bits && s == signed && allowed_width(bits),
                Err(m) => r matches Err(EngineError::DomainError { message }) && message@ == m,
            },
    {
        match (lhs, rhs) {
            (Value::FixedInt(a), Value::FixedInt(b)) => {
                if a.signed != b.signed {
                    let mut message = String::from_str("can't mix ");
                    let an = a.type_text();
                    message.append(an.as_str());
                    message.append(" and ");
                    let bn = b.type_text();
                    message.append(bn.as_str());
                    message.append(" — signed and unsigned never combine; cast one explicitly");
                    return Err(EngineError::domain(message));
                }
                Ok((if a.bits >= b.bits { a.bits } else { b.bits }, a.signed))
            },
            (Value::FixedInt(a), _) => Ok((a.bits, a.signed)),
            (_, Value::FixedInt(b)) => Ok((b.bits, b.signed)),
            _ => Err(EngineError::domain(String::from_str("fixed-width arithmetic with no fixed-width operand"))),
        }
    }

    /// An operand as an integer of the result type: a plain number must be
    /// whole and adopts the type, range-checked.
    fn operand(value: &Value, bits: u32, signed: bool) -> (r: Result<BigInteger, EngineError>)
        requires
            value_wf(*value),
            value matches Value::Number(n) ==> formatted_fits(n@, 30),
        ensures
            match operand_of(*value, bits as int, signed) {
                Ok(v) => r matches Ok(x) && x.wf() && x.value() == v,
                Err(m) => r matches Err(EngineError::DomainError { message }) && message@ == m,
            },
    {
        match value {
            Value::FixedInt(f) => Ok(f.value.copy()),
            Value::Number(n) => {
                let i = match n.big_int_value() {
                    Some(i) => i,
                    None => {
                        let mut message = String::from_str("fixed-width arithmetic needs whole numbers — ");
                        let text = n.to_string();
                        message.append(text.as_str());
                        message.append(" isn't an integer");
                        return Err(EngineError::domain(message));
                    },
                };
                match FixedInt::new(i, bits, signed) {
                    Ok(f) => Ok(f.value),
                    Err(e) => Err(e),
                }
            },
            _ => {
                let mut message = String::from_str("can't combine ");
                let kind = value.kind_name();
                message.append(kind.as_str());
                message.append(" with a fixed-width integer");
                Err(EngineError::domain(message))
            },
        }
    }

    /// `^` with a fixed-width operand.
    fn apply_power(lhs: &Value, rhs: &Value) -> (r: Result<FixedArithmetic, EngineError>)
        requires
            value_wf(*lhs),
            value_wf(*rhs),
        ensures
            reports_fixed(r, power_outcome(*lhs, *rhs)),
    {
        let exponent_value = match rhs.as_number("^") {
            Ok(v) => v,
            Err(e) => return Err(e),
        };
        let base = match lhs {
            Value::FixedInt(base) => base,
            _ => {
                return match lhs.as_number("^") {
                    Ok(b) => Ok(FixedArithmetic::NumericPower { base: b, exponent: exponent_value }),
                    Err(e) => Err(e),
                };
            },
        };
        let exponent = match exponent_value.big_int_value() {
            Some(e) => if e.is_negative() { None } else { e.to_u32() },
            None => None,
        };
        let exponent = match exponent {
            Some(e) => e,
            None => return Err(
                EngineError::domain(String::from_str("a fixed-width base needs a non-negative integer exponent")),
            ),
        };
        let raised = base.value.pow(exponent);
        checked_result(FixedInt::new(raised, base.bits, base.signed), Ghost(pow(base.value.value(), exponent as nat)), Ghost(base.bits as int), Ghost(base.signed))
    }

    /// `+ − × ÷ %` and `^` on fixed-width operands: width promotes toward
    /// the widest type present; sign never promotes (a mismatch is an
    /// error); a non-integer never mixes; every result is range-checked and
    /// errors rather than wraps. Division truncates toward zero.
    pub fn apply_binary(op: BinaryOperator, lhs: &Value, rhs: &Value) -> (r: Result<FixedArithmetic, EngineError>)
        requires
            value_wf(*lhs),
            value_wf(*rhs),
            fixed_fits(*lhs, *rhs),
        ensures
            reports_fixed(r, fixed_outcome(op, *lhs, *rhs)),
    {
        if matches!(op, BinaryOperator::Power) {
            return Self::apply_power(lhs, rhs);
        }
        let (bits, signed) = match Self::resolved_type(lhs, rhs) {
            Ok(t) => t,
            Err(e) => return Err(e),
        };
        let a = match Self::operand(lhs, bits, signed) {
            Ok(v) => v,
            Err(e) => return Err(e),
        };
        let b = match Self::operand(rhs, bits, signed) {
            Ok(v) => v,
            Err(e) => return Err(e),
        };
        match op {
            BinaryOperator::Add => {
                let raw = a.add(&b);
                checked_result(FixedInt::new(raw, bits, signed), Ghost(a.value() + b.value()), Ghost(bits as int), Ghost(signed))
            },
            BinaryOperator::Subtract => {
                let raw = a.add(&b.neg());
                checked_result(FixedInt::new(raw, bits, signed), Ghost(a.value() - b.value()), Ghost(bits as int), Ghost(signed))
            },
            BinaryOperator::Multiply => {
                let raw = a.mul(&b);
                checked_result(FixedInt::new(raw, bits, signed), Ghost(a.value() * b.value()), Ghost(bits as int), Ghost(signed))
            },
            BinaryOperator::Divide => {
                if b.is_zero() {
                    return Err(EngineError::DivisionByZero);
                }
                let (q, _) = a.div_rem(&b);
                checked_result(FixedInt::new(q, bits, signed), Ghost(trunc_div(a.value(), b.value())), Ghost(bits as int), Ghost(signed))
            },
            _ => {
                if b.is_zero() {
                    return Err(EngineError::DivisionByZero);
                }
                let m = a.rem(&b);
                checked_result(FixedInt::new(m, bits, signed), Ghost(trunc_rem(a.value(), b.value())), Ghost(bits as int), Ghost(signed))
            },
        }
    }
}

/// A bitwise operation on two's-complement patterns.
#[derive(Clone, Copy, Debug, PartialEq, Eq, Structural)]
pub enum BitOperation {
    And,
    Or,
    Xor,
}

/// The operation on two natural numbers.
pub open spec fn bit_op(op: BitOperation, a: nat, b: nat) -> nat {
    match op {
        BitOperation::And => bit_and(a, b),
        BitOperation::Or => bit_or(a, b),
        BitOperation::Xor => bit_xor(a, b),
    }
}

/// A value's unsigned two's-complement bit pattern over the width: a
/// negative value wraps into `[0, 2^bits)`.
pub open spec fn pattern_of(v: int, bits: int) -> int {
    if v < 0 { v + pow(2, bits as nat) } else { v }
}

/// Reverses the pattern: a high bit means negative for a signed type.
pub open spec fn decoded(p: int, bits: int, signed: bool) -> int {
    if signed && p >= pow(2, (bits - 1) as nat) { p - pow(2, bits as nat) } else { p }
}

/// AND/OR/XOR on fixed-width operands, type-preserving, in
/// two's-complement over the promoted width, with the arithmetic's mixing
/// matrix (largest width, sign must match, a plain number adopts the type).
pub open spec fn bitwise_outcome(op: BitOperation, lhs: Value, rhs: Value) -> FixedOutcome {
    match resolved_type_of(lhs, rhs) {
        Err(m) => FixedOutcome::Refused(m),
        Ok((bits, signed)) => match operand_of(lhs, bits, signed) {
            Err(m) => FixedOutcome::Refused(m),
            Ok(a) => match operand_of(rhs, bits, signed) {
                Err(m) => FixedOutcome::Refused(m),
                Ok(b) => checked_outcome(
                    decoded(bit_op(op, pattern_of(a, bits) as nat, pattern_of(b, bits) as nat) as int, bits, signed),
                    bits,
                    signed,
                ),
            },
        },
    }
}

/// Does `r` report the outcome, as a fixed-width value?
pub open spec fn reports_int(r: Result<FixedInt, EngineError>, outcome: FixedOutcome) -> bool {
    match outcome {
        FixedOutcome::Value(v, bits, signed) => r matches Ok(f) && f.wf() && f.value.value() == v && f.bits == bits
            && f.signed == signed,
        FixedOutcome::Refused(message) => r matches Err(EngineError::DomainError { message: m }) && m@ == message,
        _ => false,
    }
}

/// Bitwise NOT over the width: every bit flips, so a signed value becomes
/// `−v − 1` and an unsigned one `2^bits − 1 − v`.
pub open spec fn not_value(v: int, bits: int, signed: bool) -> int {
    if signed { -v - 1 } else { pow(2, bits as nat) - 1 - v }
}

/// An operation on two values below `2^n` stays below `2^n`.
pub proof fn lemma_bit_op_below(op: BitOperation, a: nat, b: nat, n: nat)
    requires
        a < pow(2, n),
        b < pow(2, n),
    ensures
        bit_op(op, a, b) < pow(2, n),
    decreases n,
{
    reveal(pow);
    if a != 0 && b != 0 {
        if n == 0 {
            assert(false);
        }
        lemma_pow2_step((n - 1) as nat);
        assert(pow(2, n) == 2 * pow(2, (n - 1) as nat)) by {
            assert(n == ((n - 1) as nat + 1) as nat);
        }
        lemma_bit_op_below(op, a / 2, b / 2, (n - 1) as nat);
        assert(bit_op(op, a / 2, b / 2) < pow(2, (n - 1) as nat));
        match op {
            BitOperation::And => {
                assert((a % 2) * (b % 2) <= 1) by (nonlinear_arith)
                    requires a % 2 <= 1, b % 2 <= 1;
            },
            _ => {},
        }
    } else {
        match op {
            BitOperation::And => {
                lemma_pow2_step(n);
            },
            _ => {},
        }
    }
}

/// XOR with all ones below `2^n` is the complement within `2^n`.
pub proof fn lemma_xor_all_ones(p: nat, n: nat)
    requires
        p < pow(2, n),
    ensures
        bit_xor((pow(2, n) - 1) as nat, p) == pow(2, n) - 1 - p,
    decreases n,
{
    reveal(pow);
    lemma_pow2_step(n);
    if n > 0 {
        lemma_pow2_step((n - 1) as nat);
        let h = pow(2, (n - 1) as nat);
        assert(pow(2, n) == 2 * h) by {
            assert(n == ((n - 1) as nat + 1) as nat);
        }
        let a = (pow(2, n) - 1) as nat;
        if p != 0 {
            assert(a / 2 == h - 1);
            assert(a % 2 == 1);
            lemma_xor_all_ones(p / 2, (n - 1) as nat);
        }
    } else {
        assert(pow(2, 0) == 1);
    }
}

/// A value of a narrower type of the same sign lies in the range of a wider
/// one.
pub proof fn lemma_range_widens(v: int, narrow: int, wide: int, signed: bool)
    requires
        1 <= narrow <= wide,
        in_range(v, narrow, signed),
    ensures
        in_range(v, wide, signed),
{
    lemma_pow_increases(2, (narrow - 1) as nat, (wide - 1) as nat);
    lemma_pow_increases(2, narrow as nat, wide as nat);
}

/// The operands that fixed-width arithmetic accepts lie in the range of the
/// resolved type.
pub proof fn lemma_operands_in_range(lhs: Value, rhs: Value)
    requires
        value_wf(lhs),
        value_wf(rhs),
        resolved_type_of(lhs, rhs) is Ok,
    ensures
        ({
            let (bits, signed) = resolved_type_of(lhs, rhs)->Ok_0;
            &&& allowed_width(bits)
            &&& operand_of(lhs, bits, signed) matches Ok(a) ==> in_range(a, bits, signed)
            &&& operand_of(rhs, bits, signed) matches Ok(b) ==> in_range(b, bits, signed)
        }),
{
    let (bits, signed) = resolved_type_of(lhs, rhs)->Ok_0;
    if let Value::FixedInt(a) = lhs {
        lemma_range_widens(a.value.value(), a.bits as int, bits, signed);
    }
    if let Value::FixedInt(b) = rhs {
        lemma_range_widens(b.value.value(), b.bits as int, bits, signed);
    }
}

/// Within the range, the pattern lies in `[0, 2^bits)` and decoding gives
/// the value back.
pub proof fn lemma_pattern_decodes(v: int, bits: int, signed: bool)
    requires
        allowed_width(bits),
        in_range(v, bits, signed),
    ensures
        0 <= pattern_of(v, bits) < pow(2, bits as nat),
        decoded(pattern_of(v, bits), bits, signed) == v,
{
    lemma_pow2_step((bits - 1) as nat);
    assert(pow(2, bits as nat) == 2 * pow(2, (bits - 1) as nat)) by {
        assert(bits as nat == ((bits - 1) as nat + 1) as nat);
    }
}

/// Any pattern in `[0, 2^bits)` decodes into the range.
pub proof fn lemma_decoded_in_range(p: int, bits: int, signed: bool)
    requires
        allowed_width(bits),
        0 <= p < pow(2, bits as nat),
    ensures
        in_range(decoded(p, bits, signed), bits, signed),
{
    lemma_pow2_step((bits - 1) as nat);
    assert(pow(2, bits as nat) == 2 * pow(2, (bits - 1) as nat)) by {
        assert(bits as nat == ((bits - 1) as nat + 1) as nat);
    }
}

/// AND, OR and XOR of fixed-width values are in range by construction:
/// whenever the operands are accepted, the result is a value of the
/// resolved type, never a range error.
pub proof fn lemma_bitwise_in_range(op: BitOperation, lhs: Value, rhs: Value)
    requires
        value_wf(lhs),
        value_wf(rhs),
        resolved_type_of(lhs, rhs) is Ok,
        ({
            let (bits, signed) = resolved_type_of(lhs, rhs)->Ok_0;
            operand_of(lhs, bits, signed) is Ok && operand_of(rhs, bits, signed) is Ok
        }),
    ensures
        bitwise_outcome(op, lhs, rhs) is Value,
{
    let (bits, signed) = resolved_type_of(lhs, rhs)->Ok_0;
    lemma_operands_in_range(lhs, rhs);
    let a = operand_of(lhs, bits, signed)->Ok_0;
    let b = operand_of(rhs, bits, signed)->Ok_0;
    lemma_pattern_decodes(a, bits, signed);
    lemma_pattern_decodes(b, bits, signed);
    lemma_bit_op_below(op, pattern_of(a, bits) as nat, pattern_of(b, bits) as nat, bits as nat);
    let p = bit_op(op, pattern_of(a, bits) as nat, pattern_of(b, bits) as nat) as int;
    lemma_decoded_in_range(p, bits, signed);
}

/// NOT undoes itself, and never leaves the range.
pub proof fn lemma_not_twice(v: int, bits: int, signed: bool)
    requires
        allowed_width(bits),
        in_range(v, bits, signed),
    ensures
        in_range(not_value(v, bits, signed), bits, signed),
        not_value(not_value(v, bits, signed), bits, signed) == v,
{
    lemma_pow2_step((bits - 1) as nat);
}

impl FixedInt {
    /// A value's unsigned two's-complement pattern in `[0, 2^bits)`: a
    /// negative signed value wraps into range; a plain number adopts the
    /// type and is range-checked.
    fn bit_pattern(value: &Value, bits: u32, signed: bool, Ghost(other): Ghost<Value>, Ghost(left): Ghost<bool>) -> (r: Result<BigInteger, EngineError>)
        requires
            value_wf(*value),
            value_wf(other),
            value matches Value::Number(n) ==> formatted_fits(n@, 30),
            (if left { resolved_type_of(*value, other) } else { resolved_type_of(other, *value) }) == Ok::<(int, bool), Seq<char>>((bits as int, signed)),
        ensures
            match operand_of(*value, bits as int, signed) {
                Ok(v) => r matches Ok(x) && x.wf() && x.value() == pattern_of(v, bits as int) && 0 <= x.value() < pow(2, bits as nat),
                Err(m) => r matches Err(EngineError::DomainError { message }) && message@ == m,
            },
    {
        let raw = match Self::operand(value, bits, signed) {
            Ok(v) => v,
            Err(e) => return Err(e),
        };
        proof {
            if left {
                lemma_operands_in_range(*value, other);
            } else {
                lemma_operands_in_range(other, *value);
            }
            lemma_pattern_decodes(raw.value(), bits as int, signed);
        }
        if raw.is_negative() {
            let width = BigInteger::from_i64(1).shl(bits);
            Ok(raw.add(&width))
        } else {
            Ok(raw)
        }
    }

    /// Reverses the pattern: a high bit means negative for a signed type.
    fn decode(pattern: BigInteger, bits: u32, signed: bool) -> (r: BigInteger)
        requires
            pattern.wf(),
            bits >= 1,
        ensures
            r.wf(),
            r.value() == decoded(pattern.value(), bits as int, signed),
    {
        if signed {
            let half = BigInteger::from_i64(1).shl(bits - 1);
            if !pattern.less_than(&half) {
                let width = BigInteger::from_i64(1).shl(bits);
                return pattern.add(&width.neg());
            }
        }
        pattern
    }

    /// AND/OR/XOR on fixed-width operands, type-preserving. Signed values
    /// operate in two's complement over the (promoted) width; the result is
    /// in range by construction. Shares the arithmetic's mixing matrix.
    pub fn apply_bitwise(lhs: &Value, rhs: &Value, op: BitOperation) -> (r: Result<FixedInt, EngineError>)
        requires
            value_wf(*lhs),
            value_wf(*rhs),
            fixed_fits(*lhs, *rhs),
        ensures
            reports_int(r, bitwise_outcome(op, *lhs, *rhs)),
    {
        let (bits, signed) = match Self::resolved_type(lhs, rhs) {
            Ok(t) => t,
            Err(e) => return Err(e),
        };
        let a = match Self::bit_pattern(lhs, bits, signed, Ghost(*rhs), Ghost(true)) {
            Ok(v) => v,
            Err(e) => return Err(e),
        };
        let b = match Self::bit_pattern(rhs, bits, signed, Ghost(*lhs), Ghost(false)) {
            Ok(v) => v,
            Err(e) => return Err(e),
        };
        let result = match op {
            BitOperation::And => a.bitand(&b),
            BitOperation::Or => a.bitor(&b),
            BitOperation::Xor => a.bitxor(&b),
        };
        FixedInt::new(Self::decode(result, bits, signed), bits, signed)
    }

    /// Bitwise NOT over the width: `~x` flips every bit. `~Int8(0)` is
    /// `Int8(-1)` (−x−1); `~UInt8(0)` is `UInt8(255)`. In range by
    /// construction.
    pub fn bitwise_not(&self) -> (r: Result<FixedInt, EngineError>)
        requires
            self.wf(),
        ensures
            r matches Ok(f) && f.wf() && f.bits == self.bits && f.signed == self.signed
                && f.value.value() == not_value(self.value.value(), self.bits as int, self.signed),
    {
        let width = BigInteger::from_i64(1).shl(self.bits);
        let pat = if self.value.is_negative() { self.value.add(&width) } else { self.value.copy() };
        let all_ones = width.add(&BigInteger::from_i64(-1));
        proof {
            lemma_pattern_decodes(self.value.value(), self.bits as int, self.signed);
            lemma_pow2_step(self.bits as nat);
            lemma_xor_all_ones(pat.value() as nat, self.bits as nat);
            lemma_not_twice(self.value.value(), self.bits as int, self.signed);
            lemma_pow2_step((self.bits - 1) as nat);
            assert(pow(2, self.bits as nat) == 2 * pow(2, (self.bits - 1) as nat)) by {
                assert(self.bits as nat == ((self.bits - 1) as nat + 1) as nat);
            }
        }
        let complement = all_ones.bitxor(&pat);
        FixedInt::new(Self::decode(complement, self.bits, self.signed), self.bits, self.signed)
    }
}

} // verus!
