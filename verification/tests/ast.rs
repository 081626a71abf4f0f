use anzan::ast::{key_literal, quoted, BinaryOperator, ComparisonOperator, Expression, MapLiteralEntry, Parameter,
    ReductionOperation, TypeAnnotation};
use anzan::eval::currency::Currency;
use anzan::eval::data_type::{DataField, DataFieldType};
use anzan::lexer::{Lexer, TokenKind};
use anzan::mode::LanguageMode;
use anzan::number::BigDecimal;

fn num(s: &str) -> Expression {
    Expression::Number(BigDecimal::parse(s).unwrap())
}

fn var(name: &str) -> Expression {
    Expression::Variable(name.to_string())
}

fn call(name: &str, arguments: Vec<Expression>) -> Expression {
    Expression::Call { name: name.to_string(), arguments }
}

#[test]
fn quoted_escapes_and_lexes_back() {
    let text = "say \"hi\"\\\n\tthere";
    let rendered = quoted(text);
    assert_eq!(rendered, "\"say \\\"hi\\\"\\\\\\n\\tthere\"");
    let tokens = Lexer::tokenize(&rendered, LanguageMode::Normal).unwrap();
    assert_eq!(tokens[0].kind, TokenKind::String(text.to_string()));
    assert_eq!(tokens[0].range, 0..rendered.chars().count());
}

#[test]
fn key_literal_is_bare_only_for_identifiers() {
    assert_eq!(key_literal("name"), "name");
    assert_eq!(key_literal("_tag2"), "_tag2");
    assert_eq!(key_literal("two words"), "\"two words\"");
    assert_eq!(key_literal("2x"), "\"2x\"");
    assert_eq!(key_literal(""), "\"\"");
    let bare = Lexer::tokenize(&key_literal("rate_1"), LanguageMode::Normal).unwrap();
    assert_eq!(bare[0].kind, TokenKind::Identifier("rate_1".to_string()));
}

#[test]
fn operator_symbols() {
    assert_eq!(BinaryOperator::Add.symbol(), "+");
    assert_eq!(BinaryOperator::Power.symbol(), "^");
    assert_eq!(BinaryOperator::Modulo.symbol(), "%");
    assert_eq!(ComparisonOperator::LessOrEqual.symbol(), "<=");
    assert_eq!(ComparisonOperator::NotEqual.symbol(), "!=");
    assert_eq!(ReductionOperation::Sum.symbol(), "∑");
    assert_eq!(ReductionOperation::Product.symbol(), "∏");
}

#[test]
fn type_annotations_parse_and_label() {
    assert_eq!(TypeAnnotation::parsing("NUMBER"), TypeAnnotation::Number);
    assert_eq!(TypeAnnotation::parsing("string"), TypeAnnotation::String);
    assert_eq!(TypeAnnotation::parsing("Boolean"), TypeAnnotation::Boolean);
    assert_eq!(TypeAnnotation::parsing("Point"), TypeAnnotation::Named("Point".to_string()));
    assert_eq!(TypeAnnotation::Named("Point".to_string()).label(), "Point");
    assert_eq!(TypeAnnotation::Number.label(), "Number");
    let scope = vec![("point".to_string(), "Geo::Point".to_string())];
    assert_eq!(
        TypeAnnotation::Named("Point".to_string()).qualified(&scope),
        TypeAnnotation::Named("Geo::Point".to_string())
    );
    assert_eq!(
        TypeAnnotation::Named("Other::Point".to_string()).qualified(&scope),
        TypeAnnotation::Named("Other::Point".to_string())
    );
    assert_eq!(TypeAnnotation::String.qualified(&scope), TypeAnnotation::String);
}

#[test]
fn parameters_render() {
    assert_eq!(Parameter::new("x".to_string()).rendered(), "x");
    assert_eq!(Parameter::typed("p".to_string(), TypeAnnotation::Named("Point".to_string())).rendered(), "p: Point");
}

#[test]
fn built_trees_detect_refs() {
    let reference = Expression::CellReference { sheet: None, column: "A".to_string(), row: 1 };
    let nested = Expression::Binary(BinaryOperator::Add, Box::new(num("1")), Box::new(call("sum", vec![reference])));
    assert!(nested.contains_cell_reference());
    let named = Expression::NameReference { sheet: Some("Budget".to_string()), name: "Rate".to_string() };
    assert!(Expression::ArrayLiteral(vec![num("1"), named]).contains_cell_reference());
    let in_map = Expression::MapLiteral(vec![MapLiteralEntry {
        key: "k".to_string(),
        value: Expression::CellRange {
            sheet: None,
            from_column: "A".to_string(),
            from_row: 1,
            to_column: "B".to_string(),
            to_row: 2,
        },
    }]);
    assert!(in_map.contains_cell_reference());
}

#[test]
fn built_trees_detect_no_refs() {
    let plain = Expression::Binary(BinaryOperator::Multiply, Box::new(var("x")), Box::new(call("f", vec![num("2")])));
    assert!(!plain.contains_cell_reference());
    assert!(!Expression::StringLiteral("A:1".to_string()).contains_cell_reference());
}

#[test]
fn renders_expressions_canonically() {
    let sum = Expression::Binary(BinaryOperator::Add, Box::new(num("1")), Box::new(var("x")));
    assert_eq!(sum.source_text(), "(1 + x)");
    assert_eq!(Expression::UnaryMinus(Box::new(var("y"))).source_text(), "(-y)");
    assert_eq!(Expression::Percent(Box::new(num("3"))).source_text(), "3%");
    let cell = Expression::CellReference { sheet: Some("Q1 Budget".to_string()), column: "B".to_string(), row: 2 };
    assert_eq!(cell.source_text(), "'Q1 Budget'!B:2");
    let plain_sheet = Expression::CellRange {
        sheet: Some("Budget".to_string()),
        from_column: "A".to_string(),
        from_row: 1,
        to_column: "A".to_string(),
        to_row: 9,
    };
    assert_eq!(plain_sheet.source_text(), "Budget!A:1..A:9");
    let money = Expression::Money { value: BigDecimal::parse("-10.5").unwrap(), currency: Currency::Eur };
    assert_eq!(money.source_text(), "-€10.5");
    assert_eq!(call("max", vec![num("1"), num("2")]).source_text(), "max(1, 2)");
    let conditional = Expression::Conditional {
        condition: Box::new(Expression::Comparison(ComparisonOperator::Less, Box::new(var("a")), Box::new(num("2")))),
        then: Box::new(num("1")),
        otherwise: Box::new(num("0")),
    };
    assert_eq!(conditional.source_text(), "if((a < 2), 1, 0)");
    let lambda = Expression::Lambda { parameters: vec!["a".to_string(), "b".to_string()], body: Box::new(var("a")) };
    assert_eq!(lambda.source_text(), "(a, b) -> a");
    let map = Expression::MapLiteral(vec![
        MapLiteralEntry { key: "name".to_string(), value: Expression::StringLiteral("Ada".to_string()) },
        MapLiteralEntry { key: "two words".to_string(), value: num("1") },
    ]);
    assert_eq!(map.source_text(), "{name: \"Ada\", \"two words\": 1}");
    let reduction = Expression::Reduction {
        operation: ReductionOperation::Sum,
        index: "i".to_string(),
        lower: Box::new(num("1")),
        upper: Box::new(num("10")),
        body: Box::new(var("i")),
    };
    assert_eq!(reduction.source_text(), "sigma_i=(1)^(10)(i)");
    let definition = Expression::FunctionDefinition {
        name: "dist".to_string(),
        parameters: vec![Parameter::typed("p".to_string(), TypeAnnotation::Named("Point".to_string()))],
        body: Box::new(var("p")),
    };
    assert_eq!(definition.source_text(), "dist(p: Point) = p");
    let data = Expression::DataDefinition {
        name: "Pt".to_string(),
        fields: vec![
            DataField::new("x".to_string(), DataFieldType::Number),
            DataField::new("tags".to_string(), DataFieldType::List(Box::new(DataFieldType::String))),
        ],
    };
    assert_eq!(data.source_text(), "data Pt { x: Number, tags: [String] }");
    let namespace = Expression::NamespaceDefinition {
        name: "Bits".to_string(),
        members: vec![Expression::ImportDirective { name: "Geo".to_string() }, Expression::HelpRequest { name: "pmt".to_string() }],
    };
    assert_eq!(namespace.source_text(), "namespace Bits { import Geo; man pmt }");
    let member = Expression::MethodCall {
        base: Box::new(Expression::Member { base: Box::new(var("ws")), name: "sheet".to_string() }),
        name: "cell".to_string(),
        arguments: vec![Expression::StringLiteral("A".to_string()), num("2")],
    };
    assert_eq!(member.source_text(), "ws.sheet.cell(\"A\", 2)");
    let index = Expression::Index { base: Box::new(var("arr")), index: Box::new(num("0")) };
    assert_eq!(index.source_text(), "arr[0]");
    let assignment = Expression::Assignment { name: "x".to_string(), value: Box::new(num("12.5")) };
    assert_eq!(assignment.source_text(), "x = 12.5");
}

#[test]
fn programmer_mode_re_spells_glyphs() {
    let mode = LanguageMode::Programmer;
    let power = Expression::Binary(BinaryOperator::Power, Box::new(num("2")), Box::new(num("10")));
    assert_eq!(power.source_text_in(mode), "pow(2, 10)");
    assert_eq!(power.source_text_in(LanguageMode::Normal), "(2 ^ 10)");
    assert_eq!(Expression::Percent(Box::new(num("3"))).source_text_in(mode), "(3 * 0.01)");
    assert_eq!(call("bitXor", vec![var("a"), var("b")]).source_text_in(mode), "(a ^ b)");
    assert_eq!(call("BITAND", vec![var("a"), var("b")]).source_text_in(mode), "(a & b)");
    assert_eq!(call("bitor", vec![var("a"), var("b")]).source_text_in(mode), "(a | b)");
    assert_eq!(call("mod", vec![var("a"), var("b")]).source_text_in(mode), "(a % b)");
    assert_eq!(call("bitNot", vec![var("a")]).source_text_in(mode), "~a");
    assert_eq!(call("bitShift", vec![var("a"), num("2")]).source_text_in(mode), "(a << 2)");
    assert_eq!(
        call("bitShift", vec![var("a"), Expression::UnaryMinus(Box::new(num("2")))]).source_text_in(mode),
        "(a >> 2)"
    );
    assert_eq!(call("bitXor", vec![var("a"), var("b")]).source_text_in(LanguageMode::Normal), "bitXor(a, b)");
    assert_eq!(call("bitXor", vec![var("a")]).source_text_in(mode), "bitXor(a)");
}

#[test]
fn a_namespace_member_referencing_a_cell_is_found() {
    let e = anzan::ast::Expression::NamespaceDefinition {
        name: "Geo".to_string(),
        members: vec![anzan::ast::Expression::CellReference { sheet: None, column: "A".to_string(), row: 1 }],
    };
    assert!(e.contains_cell_reference());
    let empty = anzan::ast::Expression::NamespaceDefinition { name: "Geo".to_string(), members: vec![] };
    assert!(!empty.contains_cell_reference());
}
