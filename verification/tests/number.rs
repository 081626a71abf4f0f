use anzan::bigint::BigInteger;
use anzan::error::EngineError;
use anzan::eval::numeric::exact_pow;
use anzan::number::{BigDecimal, PrecisionContext};

const PRECISION: usize = 50;

fn num(s: &str) -> BigDecimal {
    BigDecimal::parse(s).unwrap_or_else(|| panic!("'{s}' should parse"))
}

#[test]
fn parses_literals() {
    for (input, expected) in [
        ("123", "123"),
        ("-1.5", "-1.5"),
        ("1_000", "1000"),
        ("2.5e-3", "0.0025"),
        ("2.5E3", "2500"),
        ("0.000", "0"),
        (".5", "0.5"),
        ("-0.25", "-0.25"),
    ] {
        assert_eq!(num(input).to_string(), expected, "parsing '{input}'");
    }
}

#[test]
fn rejects_malformed() {
    for input in ["", "-", "1.2.3", "1e", "abc", "1e2.5"] {
        assert!(BigDecimal::parse(input).is_none(), "'{input}' should not parse");
    }
}

#[test]
fn decimal_addition_is_exact() {
    assert_eq!(num("0.1").add(&num("0.2")), num("0.3"));
}

#[test]
fn subtraction() {
    assert_eq!(num("1").sub(&num("0.9")), num("0.1"));
    assert_eq!(num("2.5").sub(&num("2.5")), BigDecimal::zero());
}

#[test]
fn multiplication_is_exact() {
    assert_eq!(num("1.5").mul(&num("2.5")), num("3.75"));
    assert_eq!(num("-0.001").mul(&num("1000")), num("-1"));
}

#[test]
fn exact_division() {
    assert_eq!(num("1").div(&num("4"), PRECISION).unwrap(), num("0.25"));
    assert_eq!(num("-10").div(&num("4"), PRECISION).unwrap(), num("-2.5"));
}

#[test]
fn repeating_division_carries_working_precision() {
    let third = num("1").div(&num("3"), PRECISION).unwrap();
    let text = third.to_string();
    let digits: String = text.chars().skip_while(|&c| c == '0' || c == '.').collect();
    assert_eq!(digits.len(), 50);
    assert!(digits.chars().all(|c| c == '3'), "got {text}");
}

#[test]
fn division_by_zero_throws() {
    assert_eq!(num("1").div(&BigDecimal::zero(), PRECISION), Err(EngineError::DivisionByZero));
}

#[test]
fn modulo_matches_dividend_sign() {
    assert_eq!(num("7").rem(&num("3")).unwrap(), num("1"));
    assert_eq!(num("-7").rem(&num("3")).unwrap(), num("-1"));
    assert_eq!(num("7.5").rem(&num("2")).unwrap(), num("1.5"));
}

#[test]
fn comparison_across_exponents() {
    assert!(num("0.5").compare(&num("2")) < 0);
    assert!(num("-3").compare(&num("0.001")) < 0);
    assert_eq!(num("100"), BigDecimal::new(BigInteger::from_i64(1), 2));
}

#[test]
fn rounds_to_places() {
    assert_eq!(num("2.345").rounded_to_places(2), num("2.34"));
    assert_eq!(num("2.355").rounded_to_places(2), num("2.36"));
    assert_eq!(num("2.3449").rounded_to_places(2), num("2.34"));
    assert_eq!(num("-2.345").rounded_to_places(2), num("-2.34"));
    assert_eq!(num("1234").rounded_to_places(-2), num("1200"));
}

#[test]
fn rounds_to_significant_digits() {
    assert_eq!(num("123456").rounded_to_significant_digits(3), num("123000"));
    assert_eq!(num("0.0012349").rounded_to_significant_digits(3), num("0.00123"));
}

#[test]
fn integer_powers_are_exact() {
    assert_eq!(num("2").power(10, PRECISION).unwrap(), num("1024"));
    assert_eq!(num("0.1").power(3, PRECISION).unwrap(), num("0.001"));
    assert_eq!(num("-2").power(3, PRECISION).unwrap(), num("-8"));
    assert_eq!(num("2").power(-2, PRECISION).unwrap(), num("0.25"));
    assert_eq!(num("5").power(0, PRECISION).unwrap(), BigDecimal::one());
}

#[test]
fn zero_to_zero_is_undefined() {
    assert!(BigDecimal::zero().power(0, PRECISION).is_err());
}

#[test]
fn huge_powers_are_rejected() {
    assert!(num("9").power(999_999_999, PRECISION).is_err());
}

#[test]
fn exact_square_roots() {
    assert_eq!(num("9").square_root(PRECISION).unwrap(), num("3"));
    assert_eq!(num("2.25").square_root(PRECISION).unwrap(), num("1.5"));
    assert_eq!(num("0.0001").square_root(PRECISION).unwrap(), num("0.01"));
    assert_eq!(BigDecimal::zero().square_root(PRECISION).unwrap(), BigDecimal::zero());
}

#[test]
fn sqrt_two_to_working_precision() {
    let root = num("2").square_root(PRECISION).unwrap();
    assert!(root.to_string().starts_with("1.414213562373095048801688724209698078569671875376"));
}

#[test]
fn sqrt_of_negative_throws() {
    assert!(num("-4").square_root(PRECISION).is_err());
}

#[test]
fn plain_formatting() {
    assert_eq!(num("1500").to_string(), "1500");
    assert_eq!(num("0.030").to_string(), "0.03");
    assert_eq!(num("-12.50").to_string(), "-12.5");
}

#[test]
fn scientific_for_extremes() {
    assert_eq!(num("1e40").to_string(), "1e+40");
    assert_eq!(num("-2.5e-40").to_string(), "-2.5e-40");
}

#[test]
fn precision_context_scopes_and_restores() {
    let context = PrecisionContext::new();
    assert_eq!(context.current(), 50);
    let scoped = context.with(10);
    assert_eq!(scoped.current(), 10);
    let third = num("1").div(&num("3"), scoped.current()).unwrap();
    assert_eq!(third.to_string(), "0.3333333333");
    assert_eq!(context.current(), 50);
}

#[test]
fn sums_commute_and_cancel() {
    let a = num("12.345");
    let b = num("-0.0067");
    assert_eq!(a.add(&b), b.add(&a));
    assert_eq!(a.add(&BigDecimal::zero()), a);
    assert_eq!(a.add(&a.neg()), BigDecimal::zero());
    assert_eq!(a.neg().neg(), a);
}

#[test]
fn products_commute_with_identities() {
    let a = num("-3.5");
    let b = num("0.02");
    assert_eq!(a.mul(&b), b.mul(&a));
    assert_eq!(a.mul(&BigDecimal::one()), a);
    assert_eq!(a.mul(&BigDecimal::zero()), BigDecimal::zero());
}

#[test]
fn comparison_is_antisymmetric() {
    let a = num("1.05");
    let b = num("1.5");
    assert_eq!(a.compare(&b), -b.compare(&a));
    assert_eq!(a.compare(&a), 0);
    assert_eq!(num("1.50").compare(&b), 0);
}

#[test]
fn remainder_takes_the_dividend_sign() {
    assert_eq!(num("-7.5").rem(&num("2")).unwrap(), num("-1.5"));
    assert_eq!(num("7").rem(&num("-3")).unwrap(), num("1"));
    assert_eq!(num("1").rem(&BigDecimal::zero()), Err(EngineError::DivisionByZero));
}

#[test]
fn rounding_twice_changes_nothing() {
    let once = num("2.3456").rounded_to_places(2);
    assert_eq!(once, num("2.35"));
    assert_eq!(once.rounded_to_places(2), once);
    let half_up = num("2.345").rounded_half_up_to_places(2);
    assert_eq!(half_up, num("2.35"));
    assert_eq!(half_up.rounded_half_up_to_places(2), half_up);
}

#[test]
fn grouped_and_engineering_text() {
    assert_eq!(BigDecimal::grouping("1234567"), "1,234,567");
    assert_eq!(num("246912").engineering_text(), "246.912e3");
    assert_eq!(num("0.05").engineering_text(), "50e-3");
    assert_eq!(num("5").engineering_text(), "5e0");
}

#[test]
fn exact_powers_are_decided_before_floating_point() {
    let two = num("2");
    assert_eq!(exact_pow(&two, &num("10"), PRECISION).unwrap().unwrap().to_string(), "1024");
    assert_eq!(exact_pow(&num("4"), &num("-1"), PRECISION).unwrap().unwrap().to_string(), "0.25");
    assert!(matches!(
        exact_pow(&num("-8"), &num("0.5"), PRECISION),
        Some(Err(EngineError::DomainError { .. }))
    ));
    assert!(exact_pow(&two, &num("0.5"), PRECISION).is_none());
    assert!(matches!(exact_pow(&num("0"), &num("0"), PRECISION), Some(Err(EngineError::DomainError { .. }))));
}

#[test]
fn dividing_a_product_gives_the_factor_back() {
    let b = BigDecimal::parse("1.1").unwrap();
    let c = BigDecimal::parse("-0.125").unwrap();
    let a = b.mul(&c);
    assert_eq!(a.div(&b, 50).unwrap().to_string(), "-0.125");
    assert_eq!(a.div(&b, 3).unwrap().to_string(), "-0.125");
}

#[test]
fn quotients_keep_at_most_the_precision() {
    let one = BigDecimal::parse("1").unwrap();
    let three = BigDecimal::parse("3").unwrap();
    assert_eq!(one.div(&three, 5).unwrap().to_string(), "0.33333");
    let two = BigDecimal::parse("2").unwrap();
    assert_eq!(two.div(&three, 3).unwrap().to_string(), "0.667");
}
