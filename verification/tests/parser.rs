use anzan::ast::BinaryOperator::{Add, Divide, Multiply, Power, Subtract};
use anzan::ast::{Expression, MapLiteralEntry};
use anzan::error::EngineError;
use anzan::mode::LanguageMode;
use anzan::number::BigDecimal;
use anzan::parser::Parser;

fn parse(source: &str) -> Result<Expression, EngineError> {
    Parser::parse(source, LanguageMode::Normal)
}

fn num(s: &str) -> Expression {
    Expression::Number(BigDecimal::parse(s).unwrap())
}

fn var(s: &str) -> Expression {
    Expression::Variable(s.to_string())
}

fn binary(op: anzan::ast::BinaryOperator, lhs: Expression, rhs: Expression) -> Expression {
    Expression::Binary(op, Box::new(lhs), Box::new(rhs))
}

fn call(name: &str, arguments: Vec<Expression>) -> Expression {
    Expression::Call { name: name.to_string(), arguments }
}

fn neg(e: Expression) -> Expression {
    Expression::UnaryMinus(Box::new(e))
}

#[test]
fn precedence() {
    // 1 + 2 * 3 → 1 + (2 * 3)
    assert_eq!(parse("1 + 2 * 3").unwrap(), binary(Add, num("1"), binary(Multiply, num("2"), num("3"))));
}

#[test]
fn left_associativity() {
    assert_eq!(
        parse("8 - 2 - 1").unwrap(),
        binary(Subtract, binary(Subtract, num("8"), num("2")), num("1"))
    );
    assert_eq!(parse("8 / 4 / 2").unwrap(), binary(Divide, binary(Divide, num("8"), num("4")), num("2")));
}

#[test]
fn power_is_right_associative() {
    assert_eq!(parse("2 ^ 3 ^ 2").unwrap(), binary(Power, num("2"), binary(Power, num("3"), num("2"))));
}

#[test]
fn unary_minus_binds_looser_than_power() {
    assert_eq!(parse("-2^2").unwrap(), neg(binary(Power, num("2"), num("2"))));
    assert_eq!(parse("2^-1").unwrap(), binary(Power, num("2"), neg(num("1"))));
}

#[test]
fn parentheses() {
    assert_eq!(parse("(1 + 2) * 3").unwrap(), binary(Multiply, binary(Add, num("1"), num("2")), num("3")));
}

#[test]
fn implicit_multiplication() {
    assert_eq!(parse("2(3)").unwrap(), binary(Multiply, num("2"), num("3")));
    assert_eq!(parse("2x").unwrap(), binary(Multiply, num("2"), var("x")));
    assert_eq!(parse("(2)(3)").unwrap(), binary(Multiply, num("2"), num("3")));
    assert_eq!(parse("2sqrt(4)").unwrap(), binary(Multiply, num("2"), call("sqrt", vec![num("4")])));
}

#[test]
fn function_calls() {
    assert_eq!(parse("min(1, 2, 3)").unwrap(), call("min", vec![num("1"), num("2"), num("3")]));
    assert_eq!(parse("abs(-5)").unwrap(), call("abs", vec![neg(num("5"))]));
}

#[test]
fn assignment() {
    assert_eq!(
        parse("x = 5 * 3").unwrap(),
        Expression::Assignment { name: "x".to_string(), value: Box::new(binary(Multiply, num("5"), num("3"))) }
    );
}

#[test]
fn cannot_assign_to_reserved_names() {
    assert!(parse("ans = 5").is_err());
    assert!(parse("pi = 3").is_err());
}

#[test]
fn variables_and_ans() {
    assert_eq!(parse("ans * 2").unwrap(), binary(Multiply, var("ans"), num("2")));
}

#[test]
fn rejects_malformed_expressions() {
    for source in ["1 +", "(1", "min(1,", "* 3", "1 2 +", ")", "1 = 2"] {
        assert!(parse(source).is_err(), "'{source}' should not parse");
    }
}

#[test]
fn errors_carry_positions() {
    assert_eq!(
        parse("(1 + 2"),
        Err(EngineError::ParseError { message: "expected ')'".to_string(), position: 6 })
    );
}

#[test]
fn round_trips() {
    for source in [
        "1.5 + 2",
        "a - b",
        "a * b",
        "a / b",
        "a % b",
        "2 ^ 10",
        "-x",
        "a < b",
        "a > b",
        "a <= b",
        "a >= b",
        "a == b",
        "a != b",
        "\"say \\\"hi\\\"\\n\"",
        "[1, 2, [3]]",
        "{a: 1, \"two words\": 2}",
        "arr[0]",
        "m.key",
        "people[1].age",
        "{a: [1, 2]}.a[1]",
        "A:1 + 2",
        "Budget!B:7",
        "'Q1 Budget'!C:3",
        "sum(A:1..B:9, 5)",
        "sum('Q1 Budget'!A:1..A:9)",
        "round(pmt(0.05/12, 360, 200000), 2)",
        "if(a < b, 1, 2 / 0)",
        "x = a + 1",
        "f(x, y) = x * y + 1",
        "sigma_i=1^10(i^2)",
        "product_k=(n - 1)^(m + 1)(k)",
        "man pmt",
        "x -> x * 2",
        "(a, b) -> a + b",
        "() -> 7",
        "f = x -> sum([x, A:1])",
        "'Projected Rate' * 12",
        "Budget!'Rate' + 1",
        "data Person { name: String, age: Number, active: Boolean }",
        "data Poly { pts: [Number], tags: {String: String} }",
        "namespace Geo { data Point { x: Number, y: Number } }",
        "import Geo",
        "dist(p: Point) = p.x",
    ] {
        let parsed = parse(source).unwrap_or_else(|e| panic!("'{source}' should parse: {e:?}"));
        let printed = parsed.source_text();
        let reparsed = parse(&printed).unwrap_or_else(|e| panic!("printed form '{printed}' didn't re-parse: {e:?}"));
        assert_eq!(reparsed, parsed, "printed form '{printed}' didn't round-trip");
    }
}

#[test]
fn detects_refs() {
    for source in [
        "A:1",
        "Budget!A:1",
        "sum(A:1..A:9)",
        "-A:1",
        "A:1 + 1",
        "1 + A:1",
        "f(A:1)",
        "x = A:1",
        "g(x) = A:1 * x",
        "if(A:1, 1, 2)",
        "if(1, A:1, 2)",
        "if(1, 2, A:1)",
        "sigma_i=A:1^2(i)",
        "sigma_i=1^A:1(i)",
        "sigma_i=1^2(A:1)",
        "A:1 < 2",
        "[A:1]",
        "{a: A:1}",
        "[1][A:1]",
        "(x -> A:1)",
        "{a: 1}[\"a\"] + A:1",
        "'A Name'",
    ] {
        assert!(parse(source).unwrap().contains_cell_reference(), "'{source}' should contain a cell reference");
    }
}

#[test]
fn detects_no_refs() {
    for source in [
        "1 + 2",
        "x * y",
        "f(1)",
        "x = 1",
        "f(x) = x",
        "if(1, 2, 3)",
        "sigma_i=1^3(i)",
        "\"text\"",
        "[1, {a: 2}]",
        "m.key",
        "arr[0]",
        "x -> x * 2",
        "a < b",
        "man pmt",
    ] {
        assert!(!parse(source).unwrap().contains_cell_reference(), "'{source}' should NOT contain a cell reference");
    }
}

#[test]
fn programmer_mode_glyphs() {
    let p = |s: &str| Parser::parse(s, LanguageMode::Programmer);
    assert_eq!(p("5 ^ 3").unwrap(), call("bitXor", vec![num("5"), num("3")]));
    assert_eq!(p("5 & 3").unwrap(), call("bitAnd", vec![num("5"), num("3")]));
    assert_eq!(p("5 | 3").unwrap(), call("bitOr", vec![num("5"), num("3")]));
    assert_eq!(p("5 % 3").unwrap(), call("mod", vec![num("5"), num("3")]));
    assert_eq!(p("~5").unwrap(), call("bitNot", vec![num("5")]));
    assert_eq!(p("1 << 4").unwrap(), call("bitShift", vec![num("1"), num("4")]));
    assert_eq!(p("16 >> 2").unwrap(), call("bitShift", vec![num("16"), neg(num("2"))]));
}

#[test]
fn out_of_mode_glyphs_error_loudly() {
    for source in ["5 & 3", "5 | 3", "1 << 2", "8 >> 1", "~5"] {
        let err = parse(source).unwrap_err().to_string();
        assert!(err.contains("Programmer-mode operator"), "'{source}' error should mention the mode: {err}");
    }
}

#[test]
fn programmer_mode_round_trips_re_spell_glyphs() {
    for source in ["5 ^ 3", "5 & 3", "5 | 3", "5 % 3", "~5", "1 << 4", "16 >> 2", "2 3"] {
        let Ok(parsed) = Parser::parse(source, LanguageMode::Programmer) else {
            continue;
        };
        let printed = parsed.source_text_in(LanguageMode::Programmer);
        let reparsed = Parser::parse(&printed, LanguageMode::Programmer)
            .unwrap_or_else(|e| panic!("printed '{printed}' didn't re-parse: {e:?}"));
        assert_eq!(reparsed, parsed, "printed form '{printed}' didn't round-trip");
    }
}

#[test]
fn named_arguments_desugar_to_one_map() {
    assert_eq!(
        parse("Person(name: \"Ada\", age: 36)").unwrap(),
        call(
            "Person",
            vec![Expression::MapLiteral(vec![
                MapLiteralEntry { key: "name".to_string(), value: Expression::StringLiteral("Ada".to_string()) },
                MapLiteralEntry { key: "age".to_string(), value: num("36") },
            ])]
        )
    );
    assert_eq!(
        parse("f(age:36)").unwrap(),
        call("f", vec![Expression::MapLiteral(vec![MapLiteralEntry { key: "age".to_string(), value: num("36") }])])
    );
    assert_eq!(
        parse("f(a:1)").unwrap(),
        call("f", vec![Expression::CellReference { sheet: None, column: "a".to_string(), row: 1 }])
    );
}

#[test]
fn compact_map_keys_decompose() {
    assert_eq!(
        parse("{b:1}").unwrap(),
        Expression::MapLiteral(vec![MapLiteralEntry { key: "b".to_string(), value: num("1") }])
    );
}

#[test]
fn chained_comparisons_are_rejected() {
    let err = parse("1 < 2 < 3").unwrap_err().to_string();
    assert!(err.contains("can't be chained"), "got: {err}");
}

#[test]
fn reductions_and_special_forms() {
    assert_eq!(
        parse("sigma_i=1^3(i)").unwrap(),
        Expression::Reduction {
            operation: anzan::ast::ReductionOperation::Sum,
            index: "i".to_string(),
            lower: Box::new(num("1")),
            upper: Box::new(num("3")),
            body: Box::new(var("i")),
        }
    );
    assert_eq!(parse("sigma(1, 2)").unwrap(), call("sum", vec![num("1"), num("2")]));
    assert_eq!(parse("man pmt").unwrap(), Expression::HelpRequest { name: "pmt".to_string() });
    assert_eq!(
        parse("man(pmt)"),
        Err(EngineError::ParseError { message: "use `man name` — e.g. man pmt (no parentheses)".to_string(), position: 3 })
    );
    assert_eq!(
        parse("if(1, 2)"),
        Err(EngineError::ParseError { message: "if expects (condition, then, else)".to_string(), position: 0 })
    );
}

#[test]
fn declarations_are_checked() {
    assert_eq!(
        parse("data point { x: Number }"),
        Err(EngineError::ParseError {
            message: "data type names start with a capital letter — e.g. data Person { … }".to_string(),
            position: 5,
        })
    );
    assert_eq!(
        parse("data P { x: Number, X: String }"),
        Err(EngineError::ParseError { message: "duplicate field 'X'".to_string(), position: 20 })
    );
    assert_eq!(
        parse("{a: 1, a: 2}"),
        Err(EngineError::ParseError { message: "duplicate key 'a'".to_string(), position: 0 })
    );
    assert_eq!(
        parse("(x, X) -> x"),
        Err(EngineError::ParseError { message: "duplicate parameter name".to_string(), position: 0 })
    );
    // `data = 5` stays an assignment; `f(2) = 1` is no definition.
    assert_eq!(parse("data = 5").unwrap(), Expression::Assignment { name: "data".to_string(), value: Box::new(num("5")) });
    assert!(parse("f(2) = 1").is_err());
}

#[test]
fn trailing_input_is_rejected() {
    assert_eq!(
        parse("1 )"),
        Err(EngineError::ParseError { message: "unexpected trailing input".to_string(), position: 2 })
    );
    assert_eq!(
        parse(""),
        Err(EngineError::ParseError { message: "unexpected end of expression".to_string(), position: 0 })
    );
}
