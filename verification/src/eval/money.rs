//! A currency amount: written as a literal (`$10`, `€10`) or as
//! `Money(10, "USD")`. The currency propagates through arithmetic: money in,
//! money out, with a plain or grouped number absorbed, so `$10 * 5%` answers
//! `$0.50`. Two different currencies are refused: there is no exchange rate.

use vstd::prelude::*;
use crate::ast::BinaryOperator;
use crate::error::EngineError;
use crate::eval::currency::{Currency, code_of, symbol_of};
use crate::number::{BigDecimal, sum, product, negation, alignable, sum_fits, canonical_fits};
use crate::number::format::{formatted_text, formatted_fits, grouped_text_of};
use crate::number::rounding::{quotient, quotient_fits, rounded_places, rounded_places_fits};

verus! {

/// An amount in a currency.
#[derive(Debug, PartialEq)]
pub struct Money {
    pub value: BigDecimal,
    pub currency: Currency,
}

/// `"USD amount"`: how a currency amount is named in messages.
pub open spec fn amount_name(c: Currency) -> Seq<char> {
    code_of(c) + " amount"@
}

/// The display form: sign, symbol, then the magnitude grouped at two places
/// (`-$1,234.50`, `CHF 10.00`).
pub open spec fn money_text(v: (int, int), c: Currency) -> Seq<char> {
    (if v.0 < 0 { "-"@ } else { ""@ }) + symbol_of(c) + grouped_text_of(
        if v.0 < 0 { negation(v) } else { v },
        2,
    )
}

/// The re-parseable spelling: `Money(10, "USD")`, the value exact.
pub open spec fn money_description(v: (int, int), c: Currency) -> Seq<char> {
    "Money("@ + formatted_text(v, 30) + ", \""@ + code_of(c) + "\")"@
}

/// Can the display form of `v` be computed within machine limits?
pub open spec fn money_text_fits(v: (int, int)) -> bool {
    let magnitude = if v.0 < 0 { negation(v) } else { v };
    rounded_places_fits(magnitude, 2, false) && formatted_fits(rounded_places(magnitude, 2, false), 0)
}

impl Money {
    pub fn new(value: BigDecimal, currency: Currency) -> (r: Self)
        ensures
            r.value == value,
            r.currency == currency,
    {
        Money { value, currency }
    }

    /// `"USD amount"`, for kind names and error messages.
    pub fn type_text(&self) -> (r: String)
        ensures
            r@ == amount_name(self.currency),
    {
        let mut out = String::from_str(self.currency.code());
        out.append(" amount");
        out
    }

    /// The display form: grouped, two decimals, the symbol outside the sign
    /// (`-$1,234.50`, `CHF 10.00`), matching the sheet's currency format.
    pub fn text(&self) -> (r: String)
        requires
            self.value.wf(),
            money_text_fits(self.value@),
        ensures
            r@ == money_text(self.value@, self.currency),
    {
        let negative = self.value.is_negative();
        let magnitude = if negative { self.value.neg() } else { self.value.copy() };
        let mut out = String::from_str(if negative { "-" } else { "" });
        out.append(self.currency.symbol());
        let digits = magnitude.grouped_text(2);
        out.append(digits.as_str());
        out
    }

    /// The canonical, re-parseable spelling `Money(10, "USD")`: it restores
    /// by evaluation in any mode, and the value is exact, so the round trip
    /// is lossless.
    pub fn description(&self) -> (r: String)
        requires
            self.value.wf(),
            formatted_fits(self.value@, 30),
        ensures
            r@ == money_description(self.value@, self.currency),
    {
        let mut out = String::from_str("Money(");
        let value = self.value.to_string();
        out.append(value.as_str());
        out.append(", \"");
        out.append(self.currency.code());
        out.append("\")");
        out
    }
}

/// An operand of money arithmetic, as far as that arithmetic reads it: a
/// currency amount, a plain number, a grouped number, or another kind of
/// value (by its kind name).
pub enum MoneyOperand {
    Money(Money),
    Number(BigDecimal),
    Grouped(BigDecimal),
    Other(String),
}

/// The numbers an operand carries are well-formed.
pub open spec fn operand_wf(o: MoneyOperand) -> bool {
    match o {
        MoneyOperand::Money(m) => m.value.wf(),
        MoneyOperand::Number(n) | MoneyOperand::Grouped(n) => n.wf(),
        MoneyOperand::Other(_) => true,
    }
}

/// The currency that survives, or the error's message: two different
/// currencies are refused; a number yields to the amount's currency.
pub open spec fn resolved_currency(lhs: MoneyOperand, rhs: MoneyOperand) -> Result<Currency, Seq<char>> {
    match (lhs, rhs) {
        (MoneyOperand::Money(a), MoneyOperand::Money(b)) => if a.currency != b.currency {
            Err("can't mix currencies ("@ + code_of(a.currency) + " and "@ + code_of(b.currency)
                + ") — convert one first"@)
        } else {
            Ok(a.currency)
        },
        (MoneyOperand::Money(a), _) => Ok(a.currency),
        (_, MoneyOperand::Money(b)) => Ok(b.currency),
        _ => Err("money arithmetic with no currency operand"@),
    }
}

/// An operand's exact value, or the error's message: a fixed-width or
/// other value must be converted first.
pub open spec fn operand_value(o: MoneyOperand) -> Result<(int, int), Seq<char>> {
    match o {
        MoneyOperand::Money(m) => Ok(m.value@),
        MoneyOperand::Number(n) | MoneyOperand::Grouped(n) => Ok(n@),
        MoneyOperand::Other(kind) => Err("can't combine "@ + kind@ + " with a currency amount — convert it first"@),
    }
}

/// What money arithmetic yields: an amount, a domain error's message, or
/// division by zero.
pub enum MoneyOutcome {
    Amount((int, int), Currency),
    Refused(Seq<char>),
    DivisionByZero,
}

/// `+ − × ÷` keep the currency; `^` and modulo refuse it.
pub open spec fn money_outcome(op: BinaryOperator, lhs: MoneyOperand, rhs: MoneyOperand, precision: int) -> MoneyOutcome {
    match resolved_currency(lhs, rhs) {
        Err(m) => MoneyOutcome::Refused(m),
        Ok(c) => match operand_value(lhs) {
            Err(m) => MoneyOutcome::Refused(m),
            Ok(a) => match operand_value(rhs) {
                Err(m) => MoneyOutcome::Refused(m),
                Ok(b) => match op {
                    BinaryOperator::Add => MoneyOutcome::Amount(sum(a, b), c),
                    BinaryOperator::Subtract => MoneyOutcome::Amount(sum(a, negation(b)), c),
                    BinaryOperator::Multiply => MoneyOutcome::Amount(product(a, b), c),
                    BinaryOperator::Divide => if b.0 == 0 {
                        MoneyOutcome::DivisionByZero
                    } else {
                        MoneyOutcome::Amount(quotient(a, b, precision), c)
                    },
                    BinaryOperator::Power => MoneyOutcome::Refused(
                        "a currency amount doesn't support ^ (power) — convert it to a Number first"@,
                    ),
                    BinaryOperator::Modulo => MoneyOutcome::Refused(
                        "a currency amount doesn't support modulo — convert it to a Number first"@,
                    ),
                },
            },
        },
    }
}

/// Can the arithmetic be carried out within machine limits?
pub open spec fn money_fits(op: BinaryOperator, lhs: MoneyOperand, rhs: MoneyOperand, precision: int) -> bool {
    match (operand_value(lhs), operand_value(rhs)) {
        (Ok(a), Ok(b)) => match op {
            BinaryOperator::Add => alignable(a, b) && sum_fits(a, b),
            BinaryOperator::Subtract => alignable(a, b) && sum_fits(a, negation(b)),
            BinaryOperator::Multiply => canonical_fits(a.0 * b.0, a.1 + b.1),
            BinaryOperator::Divide => b.0 != 0 ==> quotient_fits(a, b, precision),
            _ => true,
        },
        _ => true,
    }
}

/// Does `r` report the outcome?
pub open spec fn reports_money(r: Result<Money, EngineError>, outcome: MoneyOutcome) -> bool {
    match outcome {
        MoneyOutcome::Amount(v, c) => r matches Ok(m) && m.value.wf() && m.value@ == v && m.currency == c,
        MoneyOutcome::Refused(message) => r matches Err(EngineError::DomainError { message: m }) && m@ == message,
        MoneyOutcome::DivisionByZero => r == Err::<Money, EngineError>(EngineError::DivisionByZero),
    }
}

/// The surviving currency.
fn resolved(lhs: &MoneyOperand, rhs: &MoneyOperand) -> (r: Result<Currency, EngineError>)
    ensures
        match resolved_currency(*lhs, *rhs) {
            Ok(c) => r == Ok::<Currency, EngineError>(c),
            Err(m) => r matches Err(EngineError::DomainError { message }) && message@ == m,
        },
{
    match (lhs, rhs) {
        (MoneyOperand::Money(a), MoneyOperand::Money(b)) => {
            if a.currency != b.currency {
                let mut message = String::from_str("can't mix currencies (");
                message.append(a.currency.code());
                message.append(" and ");
                message.append(b.currency.code());
                message.append(") — convert one first");
                return Err(EngineError::domain(message));
            }
            Ok(a.currency)
        },
        (MoneyOperand::Money(a), _) => Ok(a.currency),
        (_, MoneyOperand::Money(b)) => Ok(b.currency),
        _ => Err(EngineError::domain(String::from_str("money arithmetic with no currency operand"))),
    }
}

/// An operand's exact value.
fn operand(value: &MoneyOperand) -> (r: Result<BigDecimal, EngineError>)
    requires
        operand_wf(*value),
    ensures
        match operand_value(*value) {
            Ok(v) => r matches Ok(n) && n.wf() && n@ == v,
            Err(m) => r matches Err(EngineError::DomainError { message }) && message@ == m,
        },
{
    match value {
        MoneyOperand::Money(m) => Ok(m.value.copy()),
        MoneyOperand::Number(n) | MoneyOperand::Grouped(n) => Ok(n.copy()),
        MoneyOperand::Other(kind) => {
            let mut message = String::from_str("can't combine ");
            message.append(kind.as_str());
            message.append(" with a currency amount — convert it first");
            Err(EngineError::domain(message))
        },
    }
}

impl Money {
    /// `+ − × ÷` on money operands: the currency propagates through all four
    /// (the tag is a display contract, not a unit system, so `$10 * $2` is
    /// `$20.00`); two different currencies are refused; `^` and modulo
    /// refuse a currency. Division works to `precision` significant digits.
    pub fn apply_binary(op: BinaryOperator, lhs: &MoneyOperand, rhs: &MoneyOperand, precision: usize) -> (r: Result<
        Money,
        EngineError,
    >)
        requires
            operand_wf(*lhs),
            operand_wf(*rhs),
            money_fits(op, *lhs, *rhs, precision as int),
        ensures
            reports_money(r, money_outcome(op, *lhs, *rhs, precision as int)),
    {
        let currency = match resolved(lhs, rhs) {
            Ok(c) => c,
            Err(e) => return Err(e),
        };
        let a = match operand(lhs) {
            Ok(v) => v,
            Err(e) => return Err(e),
        };
        let b = match operand(rhs) {
            Ok(v) => v,
            Err(e) => return Err(e),
        };
        match op {
            BinaryOperator::Add => Ok(Money::new(a.add(&b), currency)),
            BinaryOperator::Subtract => Ok(Money::new(a.sub(&b), currency)),
            BinaryOperator::Multiply => Ok(Money::new(a.mul(&b), currency)),
            BinaryOperator::Divide => match a.div(&b, precision) {
                Ok(q) => Ok(Money::new(q, currency)),
                Err(e) => Err(e),
            },
            BinaryOperator::Power => Err(
                EngineError::domain(
                    String::from_str("a currency amount doesn't support ^ (power) — convert it to a Number first"),
                ),
            ),
            BinaryOperator::Modulo => Err(
                EngineError::domain(
                    String::from_str("a currency amount doesn't support modulo — convert it to a Number first"),
                ),
            ),
        }
    }
}

} // verus!
