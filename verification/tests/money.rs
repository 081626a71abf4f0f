use anzan::ast::BinaryOperator;
use anzan::error::EngineError;
use anzan::eval::currency::Currency;
use anzan::eval::money::{Money, MoneyOperand};
use anzan::number::BigDecimal;

fn num(s: &str) -> BigDecimal {
    BigDecimal::parse(s).unwrap()
}

fn usd(s: &str) -> MoneyOperand {
    MoneyOperand::Money(Money::new(num(s), Currency::Usd))
}

#[test]
fn money_renders_grouped_with_its_symbol() {
    assert_eq!(Money::new(num("-1234.5"), Currency::Usd).text(), "-$1,234.50");
    assert_eq!(Money::new(num("10"), Currency::Chf).text(), "CHF 10.00");
    assert_eq!(Money::new(num("0.125"), Currency::Eur).text(), "€0.12");
    assert_eq!(Money::new(num("10"), Currency::Usd).type_text(), "USD amount");
    assert_eq!(Money::new(num("10.005"), Currency::Usd).description(), "Money(10.005, \"USD\")");
}

#[test]
fn money_arithmetic_keeps_the_currency() {
    let percent = MoneyOperand::Number(num("0.05"));
    let r = Money::apply_binary(BinaryOperator::Multiply, &usd("10"), &percent, 50).unwrap();
    assert_eq!(r.currency, Currency::Usd);
    assert_eq!(r.value.to_string(), "0.5");
    assert_eq!(r.text(), "$0.50");
    let r = Money::apply_binary(BinaryOperator::Add, &usd("10"), &MoneyOperand::Grouped(num("1000")), 50).unwrap();
    assert_eq!(r.value.to_string(), "1010");
    let r = Money::apply_binary(BinaryOperator::Subtract, &MoneyOperand::Number(num("1")), &usd("0.25"), 50).unwrap();
    assert_eq!(r.value.to_string(), "0.75");
    let r = Money::apply_binary(BinaryOperator::Divide, &usd("10"), &MoneyOperand::Number(num("4")), 50).unwrap();
    assert_eq!(r.value.to_string(), "2.5");
}

#[test]
fn money_refusals_name_the_reason() {
    let eur = MoneyOperand::Money(Money::new(num("1"), Currency::Eur));
    assert_eq!(
        Money::apply_binary(BinaryOperator::Add, &usd("1"), &eur, 50),
        Err(EngineError::DomainError { message: "can't mix currencies (USD and EUR) — convert one first".to_string() })
    );
    assert_eq!(
        Money::apply_binary(BinaryOperator::Power, &usd("2"), &MoneyOperand::Number(num("2")), 50),
        Err(EngineError::DomainError {
            message: "a currency amount doesn't support ^ (power) — convert it to a Number first".to_string()
        })
    );
    assert_eq!(
        Money::apply_binary(BinaryOperator::Modulo, &usd("2"), &MoneyOperand::Number(num("2")), 50),
        Err(EngineError::DomainError {
            message: "a currency amount doesn't support modulo — convert it to a Number first".to_string()
        })
    );
    assert_eq!(
        Money::apply_binary(BinaryOperator::Add, &usd("2"), &MoneyOperand::Other("Int32".to_string()), 50),
        Err(EngineError::DomainError {
            message: "can't combine Int32 with a currency amount — convert it first".to_string()
        })
    );
    assert_eq!(
        Money::apply_binary(BinaryOperator::Add, &MoneyOperand::Number(num("1")), &MoneyOperand::Number(num("2")), 50),
        Err(EngineError::DomainError { message: "money arithmetic with no currency operand".to_string() })
    );
    assert_eq!(
        Money::apply_binary(BinaryOperator::Divide, &usd("2"), &MoneyOperand::Number(num("0")), 50),
        Err(EngineError::DivisionByZero)
    );
}
