use anzan::ast::BinaryOperator;
use anzan::bigint::BigInteger;
use anzan::error::EngineError;
use anzan::eval::data_type::DataFieldType;
use anzan::eval::fixed_decimal::{DecimalRounding, FixedDecimal};
use anzan::eval::fixed_int::{BitOperation, FixedArithmetic, FixedInt};
use anzan::eval::value::{MapEntry, RecordValue, Value};
use anzan::number::BigDecimal;

fn fixed_int(value: i64, bits: u32, signed: bool) -> Value {
    Value::FixedInt(FixedInt::new(BigInteger::from_i64(value), bits, signed).expect("in range"))
}

fn num(text: &str) -> Value {
    Value::Number(BigDecimal::parse(text).unwrap())
}

fn message(e: EngineError) -> String {
    e.to_string()
}

fn fixed(r: Result<FixedArithmetic, EngineError>) -> FixedInt {
    match r {
        Ok(FixedArithmetic::Fixed(f)) => f,
        Ok(FixedArithmetic::NumericPower { .. }) => panic!("expected a fixed-width value"),
        Err(e) => panic!("unexpected error: {}", e.to_string()),
    }
}

#[test]
fn construction_checks_width_and_range() {
    let f = FixedInt::new(BigInteger::from_i64(127), 8, true).unwrap();
    assert_eq!(f.description(), "Int8(127)");
    assert_eq!(f.type_text(), "Int8");
    let e = FixedInt::new(BigInteger::from_i64(128), 8, true).unwrap_err();
    assert_eq!(message(e), "128 is out of range for Int8 (-128 … 127)");
    let e = FixedInt::new(BigInteger::from_i64(-1), 16, false).unwrap_err();
    assert_eq!(message(e), "-1 is out of range for UInt16 (0 … 65535)");
    let e = FixedInt::new(BigInteger::from_i64(1), 12, true).unwrap_err();
    assert_eq!(message(e), "fixed-width needs a width of 8, 16, 32, 64, 128, or 256 — got 12");
    let big = FixedInt::new(BigInteger::from_i64(-5), 256, true).unwrap();
    assert_eq!(big.description(), "Int256(-5)");
    assert_eq!(big.decimal().to_string(), "-5");
}

#[test]
fn arithmetic_promotes_width_and_checks_range() {
    let r = fixed(FixedInt::apply_binary(BinaryOperator::Add, &fixed_int(100, 8, true), &fixed_int(100, 16, true)));
    assert_eq!(r.description(), "Int16(200)");
    let e = FixedInt::apply_binary(BinaryOperator::Add, &fixed_int(100, 8, true), &fixed_int(100, 8, true)).unwrap_err();
    assert_eq!(message(e), "200 is out of range for Int8 (-128 … 127)");
    let r = fixed(FixedInt::apply_binary(BinaryOperator::Multiply, &fixed_int(12, 8, false), &num("3")));
    assert_eq!(r.description(), "UInt8(36)");
    let r = fixed(FixedInt::apply_binary(BinaryOperator::Subtract, &fixed_int(5, 32, true), &fixed_int(9, 32, true)));
    assert_eq!(r.description(), "Int32(-4)");
}

#[test]
fn division_truncates_toward_zero() {
    let r = fixed(FixedInt::apply_binary(BinaryOperator::Divide, &fixed_int(-7, 32, true), &fixed_int(2, 32, true)));
    assert_eq!(r.description(), "Int32(-3)");
    let r = fixed(FixedInt::apply_binary(BinaryOperator::Modulo, &fixed_int(-7, 32, true), &fixed_int(2, 32, true)));
    assert_eq!(r.description(), "Int32(-1)");
    let e = FixedInt::apply_binary(BinaryOperator::Divide, &fixed_int(1, 8, true), &fixed_int(0, 8, true)).unwrap_err();
    assert_eq!(e, EngineError::DivisionByZero);
    let e = FixedInt::apply_binary(BinaryOperator::Modulo, &fixed_int(1, 8, true), &num("0")).unwrap_err();
    assert_eq!(e, EngineError::DivisionByZero);
}

#[test]
fn mixing_rules_are_enforced() {
    let e = FixedInt::apply_binary(BinaryOperator::Add, &fixed_int(1, 8, true), &fixed_int(1, 8, false)).unwrap_err();
    assert_eq!(message(e), "can't mix Int8 and UInt8 — signed and unsigned never combine; cast one explicitly");
    let e = FixedInt::apply_binary(BinaryOperator::Add, &fixed_int(1, 8, true), &num("1.5")).unwrap_err();
    assert_eq!(message(e), "fixed-width arithmetic needs whole numbers — 1.5 isn't an integer");
    let e = FixedInt::apply_binary(BinaryOperator::Add, &fixed_int(1, 8, true), &num("300")).unwrap_err();
    assert_eq!(message(e), "300 is out of range for Int8 (-128 … 127)");
    let e = FixedInt::apply_binary(BinaryOperator::Add, &fixed_int(1, 8, true), &Value::String("x".to_string()))
        .unwrap_err();
    assert_eq!(message(e), "can't combine a string with a fixed-width integer");
    assert!(FixedInt::is_involved(&fixed_int(1, 8, true), &num("2")));
    assert!(!FixedInt::is_involved(&num("1"), &num("2")));
}

#[test]
fn power_follows_the_base() {
    let r = fixed(FixedInt::apply_binary(BinaryOperator::Power, &fixed_int(2, 16, false), &num("10")));
    assert_eq!(r.description(), "UInt16(1024)");
    let e = FixedInt::apply_binary(BinaryOperator::Power, &fixed_int(2, 8, false), &num("8")).unwrap_err();
    assert_eq!(message(e), "256 is out of range for UInt8 (0 … 255)");
    let e = FixedInt::apply_binary(BinaryOperator::Power, &fixed_int(2, 8, false), &num("-1")).unwrap_err();
    assert_eq!(message(e), "a fixed-width base needs a non-negative integer exponent");
    match FixedInt::apply_binary(BinaryOperator::Power, &num("3"), &fixed_int(2, 8, true)) {
        Ok(FixedArithmetic::NumericPower { base, exponent }) => {
            assert_eq!(base.to_string(), "3");
            assert_eq!(exponent.to_string(), "2");
        },
        _ => panic!("a plain base is ordinary numeric power"),
    }
}

#[test]
fn bitwise_operations_use_twos_complement() {
    let r = FixedInt::apply_bitwise(&fixed_int(-1, 8, true), &fixed_int(15, 8, true), BitOperation::And).unwrap();
    assert_eq!(r.description(), "Int8(15)");
    let r = FixedInt::apply_bitwise(&fixed_int(-128, 8, true), &fixed_int(1, 8, true), BitOperation::Or).unwrap();
    assert_eq!(r.description(), "Int8(-127)");
    let r = FixedInt::apply_bitwise(&fixed_int(255, 8, false), &num("15"), BitOperation::Xor).unwrap();
    assert_eq!(r.description(), "UInt8(240)");
    let r = FixedInt::apply_bitwise(&fixed_int(-1, 8, true), &fixed_int(1, 16, true), BitOperation::Xor).unwrap();
    assert_eq!(r.description(), "Int16(-2)");
}

#[test]
fn not_flips_every_bit() {
    let zero = FixedInt::new(BigInteger::from_i64(0), 8, true).unwrap();
    assert_eq!(zero.bitwise_not().unwrap().description(), "Int8(-1)");
    let zero = FixedInt::new(BigInteger::from_i64(0), 8, false).unwrap();
    assert_eq!(zero.bitwise_not().unwrap().description(), "UInt8(255)");
    let x = FixedInt::new(BigInteger::from_i64(-100), 64, true).unwrap();
    let twice = x.bitwise_not().unwrap().bitwise_not().unwrap();
    assert_eq!(twice.description(), "Int64(-100)");
}

fn decimal(text: &str, precision: i64, scale: i64) -> Value {
    Value::FixedDecimal(
        FixedDecimal::new(BigDecimal::parse(text).unwrap(), precision, scale, DecimalRounding::Bankers).unwrap(),
    )
}

#[test]
fn decimal_arithmetic_promotes_and_rounds() {
    let r = FixedDecimal::apply_binary(BinaryOperator::Add, &decimal("10.5", 5, 2), &decimal("1.25", 10, 3), 50)
        .unwrap();
    assert_eq!(r.description(), "Decimal(11.750, 10, 3)");
    let r = FixedDecimal::apply_binary(BinaryOperator::Multiply, &decimal("10.25", 6, 2), &num("0.5"), 50).unwrap();
    assert_eq!(r.text(), "5.12");
    let r = FixedDecimal::apply_binary(BinaryOperator::Divide, &decimal("1", 10, 2), &num("3"), 50).unwrap();
    assert_eq!(r.text(), "0.33");
    let e = FixedDecimal::apply_binary(BinaryOperator::Multiply, &decimal("999.99", 5, 2), &num("10"), 50)
        .unwrap_err();
    assert_eq!(message(e), "9999.90 exceeds Decimal(5, 2) — more than 5 digits");
}

#[test]
fn decimal_arithmetic_refuses_mixtures() {
    let half_up = Value::FixedDecimal(
        FixedDecimal::new(BigDecimal::parse("1").unwrap(), 5, 2, DecimalRounding::HalfUp).unwrap(),
    );
    let e = FixedDecimal::apply_binary(BinaryOperator::Add, &decimal("1", 5, 2), &half_up, 50).unwrap_err();
    assert_eq!(message(e), "can't mix decimals with different rounding (bankers and halfUp) — cast one");
    let e = FixedDecimal::apply_binary(BinaryOperator::Add, &decimal("1", 5, 2), &fixed_int(1, 8, true), 50).unwrap_err();
    assert_eq!(message(e), "can't combine a Int8 with a fixed-precision decimal — cast it (e.g. Decimal(…))");
    let e = FixedDecimal::apply_binary(BinaryOperator::Power, &decimal("1", 5, 2), &num("2"), 50).unwrap_err();
    assert_eq!(message(e), "a fixed-precision decimal doesn't support ^ (power) — convert it to a Number first");
    let e = FixedDecimal::apply_binary(BinaryOperator::Modulo, &decimal("1", 5, 2), &num("2"), 50).unwrap_err();
    assert_eq!(message(e), "a fixed-precision decimal doesn't support modulo — convert it to a Number first");
    let e = FixedDecimal::apply_binary(BinaryOperator::Divide, &decimal("1", 5, 2), &num("0"), 50).unwrap_err();
    assert_eq!(e, EngineError::DivisionByZero);
    assert!(FixedDecimal::is_involved(&num("1"), &decimal("1", 5, 2)));
}

#[test]
fn field_types_validate_values() {
    let number = DataFieldType::Number;
    assert!(number.validate(num("3"), "age", "Person").is_ok());
    let e = number.validate(Value::String("x".to_string()), "age", "Person").unwrap_err();
    assert_eq!(message(e), "'age' of Person is a Number — got a string");
    let flag = DataFieldType::Boolean;
    assert!(flag.validate(num("1"), "active", "Person").is_ok());
    assert!(flag.validate(num("0"), "active", "Person").is_ok());
    let e = flag.validate(num("7"), "active", "Person").unwrap_err();
    assert_eq!(message(e), "'active' of Person is a Boolean — use true or false");
    let list = DataFieldType::List(Box::new(DataFieldType::String));
    let good = Value::Array(vec![Value::String("a".to_string()), Value::String("b".to_string())]);
    assert!(list.validate(good, "tags", "Post").is_ok());
    let bad = Value::Array(vec![Value::String("a".to_string()), num("2")]);
    let e = list.validate(bad, "tags", "Post").unwrap_err();
    assert_eq!(message(e), "'tags' of Post is a String — got a number");
    let map = DataFieldType::StringMap(Box::new(DataFieldType::Number));
    let scores = Value::Dictionary(vec![MapEntry::new("a".to_string(), num("1"))]);
    assert!(map.validate(scores, "scores", "Game").is_ok());
    let e = map.validate(num("1"), "scores", "Game").unwrap_err();
    assert_eq!(message(e), "'scores' of Game is a {String: Number} — got a number");
    let point = DataFieldType::Record("Point".to_string());
    let p = Value::Record(RecordValue { type_label: "point".to_string(), entries: vec![], boolean_fields: vec![] });
    assert!(point.validate(p, "origin", "Line").is_ok());
}
