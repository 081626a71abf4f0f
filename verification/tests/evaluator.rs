use anzan::ast::{BinaryOperator, Expression};
use anzan::calculator::Calculator;
use anzan::calculator::session::EvalOutcome;
use anzan::error::EngineError;
use anzan::number::BigDecimal;
use anzan::eval::evaluator::{EvaluationEnvironment, Evaluator};
use anzan::eval::value::Value;
use anzan::mode::LanguageMode;
use anzan::parser::Parser;

fn run(source: &str, environment: &mut EvaluationEnvironment, precision: usize) -> Result<String, EngineError> {
    let expression = Parser::parse(source, LanguageMode::Normal).unwrap();
    match Evaluator::new(precision).evaluate(&expression, environment)? {
        Value::Number(d) => Ok(d.to_string()),
        _ => panic!("the arithmetic core yields numbers"),
    }
}

fn value_of(source: &str) -> Result<String, EngineError> {
    run(source, &mut EvaluationEnvironment::new(), 50)
}

#[test]
fn evaluates_with_precedence() {
    assert_eq!(value_of("1 + 2 * 3").unwrap(), "7");
    assert_eq!(value_of("(1 + 2) * 3").unwrap(), "9");
    assert_eq!(value_of("8 - 2 - 1").unwrap(), "5");
}

#[test]
fn decimal_arithmetic_is_exact() {
    assert_eq!(value_of("0.1 + 0.2").unwrap(), "0.3");
    assert_eq!(value_of("1.5 * 2.5").unwrap(), "3.75");
    assert_eq!(value_of("-(2)").unwrap(), "-2");
    assert_eq!(value_of("50%").unwrap(), "0.5");
}

fn remainder(a: &str, b: &str) -> Result<String, EngineError> {
    let number = |s: &str| Box::new(Expression::Number(BigDecimal::parse(s).unwrap()));
    let expression = Expression::Binary(BinaryOperator::Modulo, number(a), number(b));
    match Evaluator::new(50).evaluate(&expression, &mut EvaluationEnvironment::new())? {
        Value::Number(d) => Ok(d.to_string()),
        _ => panic!("the arithmetic core yields numbers"),
    }
}

#[test]
fn evaluated_remainder_takes_the_dividend_sign() {
    assert_eq!(remainder("10", "3").unwrap(), "1");
    assert_eq!(remainder("-7.5", "2").unwrap(), "-1.5");
}

#[test]
fn division_rounds_to_the_evaluator_precision() {
    let mut environment = EvaluationEnvironment::new();
    assert_eq!(run("1 / 3", &mut environment, 10).unwrap(), "0.3333333333");
    assert_eq!(value_of("1 / 4").unwrap(), "0.25");
}

#[test]
fn division_by_zero_is_an_error() {
    assert_eq!(value_of("1 / 0"), Err(EngineError::DivisionByZero));
    assert_eq!(remainder("5", "0"), Err(EngineError::DivisionByZero));
}

#[test]
fn comparisons_are_one_or_zero() {
    assert_eq!(value_of("1 < 2").unwrap(), "1");
    assert_eq!(value_of("0.5 >= 0.50").unwrap(), "1");
    assert_eq!(value_of("3 == 4").unwrap(), "0");
    assert_eq!(value_of("3 != 4").unwrap(), "1");
}

#[test]
fn only_the_taken_branch_is_evaluated() {
    assert_eq!(value_of("if(1 < 2, 10, 1 / 0)").unwrap(), "10");
    assert_eq!(value_of("if(0, missing, 2)").unwrap(), "2");
    assert_eq!(value_of("if(2 - 2, 1 / 0, 7)").unwrap(), "7");
}

#[test]
fn assignment_binds_and_rebinds() {
    let mut environment = EvaluationEnvironment::new();
    assert_eq!(run("x = 5 * 3", &mut environment, 50).unwrap(), "15");
    assert_eq!(run("x + 1", &mut environment, 50).unwrap(), "16");
    assert_eq!(run("x = x + 1", &mut environment, 50).unwrap(), "16");
    assert_eq!(environment.get("x").unwrap().to_string(), "16");
    assert!(environment.get("y").is_none());
}

#[test]
fn environment_set_and_get() {
    let mut environment = EvaluationEnvironment::new();
    environment.set("rate", BigDecimal::parse("0.08").unwrap());
    assert_eq!(run("rate * 100", &mut environment, 50).unwrap(), "8");
}

#[test]
fn unknown_variables_are_named() {
    assert_eq!(value_of("y + 1"), Err(EngineError::UnknownVariable { name: "y".to_string() }));
}

#[test]
fn a_failed_assignment_binds_nothing() {
    let mut environment = EvaluationEnvironment::new();
    assert!(run("a = missing + 1", &mut environment, 50).is_err());
    assert!(environment.get("a").is_none());
}

#[test]
fn other_expressions_are_refused() {
    assert_eq!(
        value_of("\"text\""),
        Err(EngineError::DomainError {
            message: "only numbers, variables, arithmetic, comparisons, if, sums, products, core functions and assignment are evaluated here"
                .to_string()
        })
    );
}

#[test]
fn evaluated_integer_powers_are_exact() {
    assert_eq!(value_of("2 ^ 10").unwrap(), "1024");
    assert_eq!(value_of("2 ^ -1").unwrap(), "0.5");
    assert_eq!(
        value_of("0 ^ 0"),
        Err(EngineError::DomainError { message: "0^0 is undefined".to_string() })
    );
    assert_eq!(
        value_of("(-8) ^ 0.5"),
        Err(EngineError::DomainError { message: "negative base with non-integer exponent".to_string() })
    );
}

#[test]
fn reductions_sum_and_multiply_their_terms() {
    assert_eq!(value_of("sigma_i=1^10(i^2)").unwrap(), "385");
    assert_eq!(value_of("product_k=1^5(k)").unwrap(), "120");
    assert_eq!(value_of("sigma_i=3^1(i)").unwrap(), "0");
    assert_eq!(value_of("product_k=3^1(k)").unwrap(), "1");
}

#[test]
fn a_reduction_index_shadows_a_variable_and_leaves_it() {
    let mut environment = EvaluationEnvironment::new();
    assert_eq!(run("i = 100", &mut environment, 50).unwrap(), "100");
    assert_eq!(run("sigma_i=1^3(i * 2)", &mut environment, 50).unwrap(), "12");
    assert_eq!(environment.get("i").unwrap().to_string(), "100");
}

#[test]
fn reduction_bounds_are_checked() {
    assert_eq!(
        value_of("sigma_i=1.5^3(i)"),
        Err(EngineError::DomainError { message: "∑ lower bound must be an integer".to_string() })
    );
    assert_eq!(
        value_of("sigma_i=1^200000(i)"),
        Err(EngineError::DomainError { message: "∑ spans more than 100,000 terms".to_string() })
    );
}

fn log_line(calculator: &mut Calculator, source: &str) -> Result<String, EngineError> {
    let expression = Parser::parse(source, LanguageMode::Normal).unwrap();
    match calculator.evaluate_expression(&expression)? {
        Value::Number(d) => Ok(d.to_string()),
        _ => panic!("the arithmetic core yields numbers"),
    }
}

#[test]
fn ans_names_the_last_result() {
    let mut calculator = Calculator::new();
    assert_eq!(calculator.get("ans").unwrap().to_string(), "0");
    assert_eq!(log_line(&mut calculator, "ans + 1").unwrap(), "1");
    assert_eq!(log_line(&mut calculator, "1 + 2").unwrap(), "3");
    assert_eq!(calculator.get("ans").unwrap().to_string(), "3");
    assert_eq!(log_line(&mut calculator, "ans * 2").unwrap(), "6");
    assert_eq!(calculator.get("ans").unwrap().to_string(), "6");
}

#[test]
fn a_failed_line_leaves_ans() {
    let mut calculator = Calculator::new();
    assert_eq!(log_line(&mut calculator, "x = 4").unwrap(), "4");
    assert_eq!(log_line(&mut calculator, "x / 0"), Err(EngineError::DivisionByZero));
    assert_eq!(calculator.get("ans").unwrap().to_string(), "4");
    assert_eq!(calculator.get("x").unwrap().to_string(), "4");
}

#[test]
fn true_and_false_are_one_and_zero() {
    assert_eq!(value_of("true + TRUE + false").unwrap(), "2");
    assert_eq!(value_of("if(false, 1, 2)").unwrap(), "2");
}

#[test]
fn core_builtins_compute_exactly() {
    assert_eq!(value_of("abs(-5)").unwrap(), "5");
    assert_eq!(value_of("ABS(-2)").unwrap(), "2");
    assert_eq!(value_of("min(3, 1, 2)").unwrap(), "1");
    assert_eq!(value_of("max(3, 1, 2)").unwrap(), "3");
    assert_eq!(value_of("round(2.567, 2)").unwrap(), "2.57");
    assert_eq!(value_of("round(2.5)").unwrap(), "2");
    assert_eq!(value_of("round(1234, -2)").unwrap(), "1200");
    assert_eq!(value_of("mod(10, 3)").unwrap(), "1");
    assert_eq!(value_of("mod(-7, 3)").unwrap(), "-1");
    assert_eq!(value_of("percent(8.25)").unwrap(), "0.0825");
    assert_eq!(value_of("not(0)").unwrap(), "1");
    assert_eq!(value_of("not(5)").unwrap(), "0");
    assert_eq!(value_of("and(1 < 2, 2 < 3)").unwrap(), "1");
    assert_eq!(value_of("and(1, 0)").unwrap(), "0");
    assert_eq!(value_of("or(0, 0, 4)").unwrap(), "1");
}

#[test]
fn builtin_arity_and_argument_errors() {
    assert_eq!(
        value_of("abs(1, 2)"),
        Err(EngineError::ArityMismatch { function: "abs".to_string(), expected: "1".to_string(), got: 2 })
    );
    assert_eq!(
        value_of("and(1)"),
        Err(EngineError::ArityMismatch { function: "and".to_string(), expected: "at least 2".to_string(), got: 1 })
    );
    assert_eq!(
        value_of("round(1.5, 0.5)"),
        Err(EngineError::DomainError { message: "round places must be an integer".to_string() })
    );
    assert_eq!(value_of("mod(1, 0)"), Err(EngineError::DivisionByZero));
}

#[test]
fn named_constants() {
    assert_eq!(value_of("pi").unwrap(), "3.14159265358979323846264338327950288419716939937510582097494");
    assert_eq!(value_of("PI").unwrap(), value_of("π").unwrap());
    assert_eq!(value_of("tau").unwrap(), value_of("τ").unwrap());
    assert_eq!(value_of("e").unwrap(), "2.71828182845904523536028747135266249775724709369995957496697");
    assert_eq!(value_of("ans").unwrap(), "0");
}

#[test]
fn calculator_reads_log_lines() {
    let mut calculator = Calculator::new();
    match calculator.evaluate("  = 1 + 2  ").unwrap() {
        EvalOutcome::Value(Value::Number(d)) => assert_eq!(d.to_string(), "3"),
        _ => panic!("a calculation"),
    }
    match calculator.evaluate("# note only").unwrap() {
        EvalOutcome::Comment(c) => assert_eq!(c, "note only"),
        _ => panic!("a comment"),
    }
    assert_eq!(calculator.get("ans").unwrap().to_string(), "3");
    assert!(matches!(calculator.evaluate("1 +"), Err(EngineError::ParseError { .. })));
    assert!(matches!(calculator.evaluate("1 @ 2"), Err(EngineError::LexError { .. })));
    match calculator.evaluate("ans * 2").unwrap() {
        EvalOutcome::Value(Value::Number(d)) => assert_eq!(d.to_string(), "6"),
        _ => panic!("a calculation"),
    }
}

#[test]
fn sheet_references_need_a_sheet() {
    assert_eq!(
        value_of("A:1 + 2"),
        Err(EngineError::DomainError { message: "no sheet available for A:1".to_string() })
    );
    assert_eq!(
        value_of("'Projected Rate' * 12"),
        Err(EngineError::DomainError { message: "no sheet available for 'Projected Rate'".to_string() })
    );
    assert_eq!(
        value_of("man pmt"),
        Err(EngineError::DomainError { message: "man works in the calculation log, not a cell".to_string() })
    );
}

#[test]
fn numbers_have_no_elements_or_members() {
    let mut environment = EvaluationEnvironment::new();
    assert_eq!(run("x = 3", &mut environment, 50).unwrap(), "3");
    assert_eq!(
        run("x[0]", &mut environment, 50),
        Err(EngineError::DomainError { message: "a number can't be indexed".to_string() })
    );
    assert_eq!(
        run("x.key", &mut environment, 50),
        Err(EngineError::DomainError { message: ".key needs a map or data value, got a number".to_string() })
    );
}

#[test]
fn imports_of_builtin_modules_are_no_ops() {
    let mut calculator = Calculator::new();
    assert_eq!(log_line(&mut calculator, "2 + 2").unwrap(), "4");
    match calculator.evaluate("import finance").unwrap() {
        EvalOutcome::DataDefined { declaration } => assert_eq!(declaration, "import finance"),
        _ => panic!("a declaration"),
    }
    assert_eq!(calculator.get("ans").unwrap().to_string(), "4");
    assert!(matches!(
        calculator.evaluate("import Geo"),
        Err(EngineError::DomainError { message }) if message == "no namespace 'Geo' to import"
    ));
}
