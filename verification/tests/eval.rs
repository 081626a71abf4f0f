use std::collections::HashSet;

use anzan::error::EngineError;
use anzan::eval::binary_format::{BinaryEditorBits, BinaryEditorPalette};
use anzan::eval::binary_view::FieldSpec;
use anzan::eval::currency::Currency;
use anzan::eval::data_type::{DataField, DataFieldType, DataType};
use anzan::eval::dates::{adding_months, civil, is_business_day, last_day, serial};
use anzan::eval::fixed_decimal::{DecimalRounding, FixedDecimal};
use anzan::eval::format_builder::{FieldKind, FormatBuilder};
use anzan::eval::functions::gcd_i64;
use anzan::eval::helpers::{binary_operator_named, home_namespace, sibling_candidates};
use anzan::eval::json::{joined, json_quoted, JsonParser};
use anzan::ast::BinaryOperator;
use anzan::number::BigDecimal;

fn num(s: &str) -> BigDecimal {
    BigDecimal::parse(s).unwrap()
}

fn domain(message: &str) -> EngineError {
    EngineError::DomainError { message: message.to_string() }
}

#[test]
fn currencies_by_code_and_glyph() {
    assert_eq!(Currency::from_code("usd"), Some(Currency::Usd));
    assert_eq!(Currency::from_glyph('€'), Some(Currency::Eur));
    assert_eq!(Currency::Jpy.code(), "JPY");
    assert_eq!(Currency::Chf.symbol(), "CHF ");
    assert_eq!(Currency::from_code("xyz"), None);
}

#[test]
fn data_types_declare_and_document() {
    let fields = vec![
        DataField::new("name".to_string(), DataFieldType::String),
        DataField::new("age".to_string(), DataFieldType::Number),
        DataField::new("tags".to_string(), DataFieldType::StringMap(Box::new(DataFieldType::Boolean))),
    ];
    let person = DataType::new(
        "Person".to_string(),
        fields,
        "data Person { name: String, age: Number } #  A person  ".to_string(),
    );
    assert_eq!(person.declaration(), "data Person { name: String, age: Number, tags: {String: Boolean} }");
    assert_eq!(person.documentation(), Some("A person".to_string()));
    assert_eq!(person.field_list(), "name, age, tags");
    let undocumented = DataType::new("Pt".to_string(), Vec::new(), "data Pt { } #   ".to_string());
    assert_eq!(undocumented.documentation(), None);
}

#[test]
fn field_types_parse_label_and_qualify() {
    assert_eq!(DataFieldType::parsing("number"), Some(DataFieldType::Number));
    assert_eq!(DataFieldType::parsing("BOOLEAN"), Some(DataFieldType::Boolean));
    assert_eq!(DataFieldType::parsing("Point"), Some(DataFieldType::Record("Point".to_string())));
    assert_eq!(DataFieldType::parsing("point"), None);
    assert_eq!(DataFieldType::parsing(""), None);
    let nested = DataFieldType::List(Box::new(DataFieldType::Record("Point".to_string())));
    assert_eq!(nested.label(), "[Point]");
    let scope = vec![("point".to_string(), "Geo::Point".to_string())];
    assert_eq!(
        nested.qualified(&scope),
        DataFieldType::List(Box::new(DataFieldType::Record("Geo::Point".to_string())))
    );
    assert_eq!(DataFieldType::Record("Line".to_string()).qualified(&scope), DataFieldType::Record("Line".to_string()));
}

#[test]
fn calendar_serials() {
    assert_eq!(serial(1970, 1, 1), 0);
    assert_eq!(serial(2000, 3, 1), 11017);
    assert_eq!(serial(1969, 12, 31), -1);
    assert_eq!(civil(0), (1970, 1, 1));
    assert_eq!(civil(11017), (2000, 3, 1));
    assert_eq!(civil(-1), (1969, 12, 31));
    assert_eq!(civil(serial(2024, 2, 29)), (2024, 2, 29));
    for s in [-800_000i64, -1, 0, 59, 60, 10_957, 19_782, 2_932_896] {
        let (y, m, d) = civil(s);
        assert_eq!(serial(y, m, d), s);
    }
}

#[test]
fn month_lengths_and_month_arithmetic() {
    assert_eq!(last_day(2024, 2), 29);
    assert_eq!(last_day(2023, 2), 28);
    assert_eq!(last_day(1900, 2), 28);
    assert_eq!(last_day(2000, 2), 29);
    assert_eq!(last_day(2023, 12), 31);
    assert_eq!(last_day(2023, 4), 30);
    let jan31 = serial(2023, 1, 31);
    assert_eq!(civil(adding_months(1, jan31)), (2023, 2, 28));
    assert_eq!(civil(adding_months(-2, jan31)), (2022, 11, 30));
    assert_eq!(civil(adding_months(13, jan31)), (2024, 2, 29));
}

#[test]
fn business_days_skip_weekends_and_holidays() {
    let mut holidays = HashSet::new();
    holidays.insert(serial(2024, 12, 25));
    assert!(is_business_day(serial(2024, 12, 24), &holidays));
    assert!(!is_business_day(serial(2024, 12, 25), &holidays));
    assert!(!is_business_day(serial(2024, 12, 28), &holidays));
    assert!(!is_business_day(serial(2024, 12, 29), &holidays));
    assert!(is_business_day(0, &holidays));
}

#[test]
fn gcd_by_euclid() {
    assert_eq!(gcd_i64(12, 18), 6);
    assert_eq!(gcd_i64(7, 0), 7);
    assert_eq!(gcd_i64(0, 9), 9);
    assert_eq!(gcd_i64(17, 5), 1);
}

#[test]
fn namespace_helpers() {
    assert_eq!(home_namespace("Bits::area"), Some("Bits".to_string()));
    assert_eq!(home_namespace("A::B::area"), Some("A::B".to_string()));
    assert_eq!(home_namespace("area"), None);
    assert_eq!(sibling_candidates("c", Some("A::B")), vec!["A::B::c".to_string(), "A::c".to_string()]);
    assert_eq!(sibling_candidates("c", None), Vec::<String>::new());
    assert_eq!(sibling_candidates("X::c", Some("A")), Vec::<String>::new());
    assert_eq!(binary_operator_named("^"), Some(BinaryOperator::Power));
    assert_eq!(binary_operator_named("**"), None);
}

#[test]
fn json_text_helpers() {
    assert_eq!(json_quoted("a\"b\\c\n\r\u{1}"), "\"a\\\"b\\\\c\\n\\r\\u0001\"");
    let parts = vec!["1".to_string(), "2".to_string()];
    assert_eq!(joined(&parts, ("[", "]"), false, 0), "[1,2]");
    assert_eq!(joined(&parts, ("[", "]"), true, 1), "[\n    1,\n    2\n  ]");
}

#[test]
fn json_strings_decode_escapes() {
    let mut parser = JsonParser::new(r#""a\u00e9\n\/\ud83d\ude00" tail"#);
    assert_eq!(parser.string(), Ok("aé\n/😀".to_string()));
    assert_eq!(parser.current(), Some(' '));
    parser.skip_whitespace();
    assert_eq!(parser.current(), Some('t'));
    let mut unterminated = JsonParser::new("\"abc");
    assert_eq!(unterminated.string(), Err(domain("fromJson: unterminated string at character 5")));
    let mut lone = JsonParser::new(r#""\ud800x""#);
    assert_eq!(lone.string(), Err(domain("fromJson: missing low surrogate after \\u escape at character 8")));
    let mut short = JsonParser::new(r#""\u12""#);
    assert_eq!(short.string(), Err(domain("fromJson: \\u needs 4 hex digits at character 4")));
    let mut unknown = JsonParser::new(r#""\q""#);
    assert_eq!(unknown.string(), Err(domain("fromJson: unknown escape '\\q' at character 3")));
}

#[test]
fn json_hex_digits() {
    let mut parser = JsonParser::new("00FFxyz");
    assert_eq!(parser.hex4(), Ok(255));
    let mut bad = JsonParser::new("12G4");
    assert!(bad.hex4().is_err());
}

#[test]
fn json_hex_digits_take_no_sign() {
    let mut signed = JsonParser::new("+041");
    assert_eq!(signed.hex4(), Err(domain("fromJson: \\u needs 4 hex digits at character 1")));
    assert_eq!(signed.current(), Some('+'));
}

#[test]
fn gcd_reaches_the_ends_of_the_range() {
    assert_eq!(gcd_i64(i64::MIN, 6), -2);
    assert_eq!(gcd_i64(6, i64::MIN), -2);
    assert_eq!(gcd_i64(i64::MIN, i64::MIN), i64::MIN);
    assert_eq!(gcd_i64(i64::MIN, 1), 1);
}

#[test]
fn serialized_layouts_escape_and_reparse() {
    let layout = vec![FieldSpec::new("say \"hi\" \\ bye", 4).with_flags(&["a\"b"]).with_color("te\"al")];
    let text = BinaryEditorBits::format_source(&layout);
    assert_eq!(
        text,
        "Bits::BitFormat(fields: [Bits::BitField(name: \"say \\\"hi\\\" \\\\ bye\", bits: 4, kind: \"flags\", flags: [\"a\\\"b\"], values: [], color: \"te\\\"al\", base: 10)])"
    );
    assert!(anzan::parser::Parser::parse(&text, anzan::mode::LanguageMode::Normal).is_ok());
}

#[test]
fn fixed_decimals_round_and_check_precision() {
    let d = FixedDecimal::new(num("10.5"), 5, 2, DecimalRounding::Bankers).unwrap();
    assert_eq!(d.text(), "10.50");
    assert_eq!(d.description(), "Decimal(10.50, 5, 2)");
    assert_eq!(d.type_text(), "Decimal(5, 2)");
    let small = FixedDecimal::new(num("0.05"), 3, 2, DecimalRounding::HalfUp).unwrap();
    assert_eq!(small.text(), "0.05");
    assert_eq!(small.description(), "Decimal(0.05, 3, 2, Rounding.HalfUp)");
    let banker = FixedDecimal::new(num("2.345"), 1000, 2, DecimalRounding::Bankers).unwrap();
    assert_eq!(banker.text(), "2.34");
    assert_eq!(banker.description(), "Decimal(2.34)");
    let wide = FixedDecimal::new(num("0.5"), 1000, 2, DecimalRounding::Bankers).unwrap();
    assert_eq!(wide.description(), "Decimal(0.50, 2)");
    assert_eq!(
        FixedDecimal::new(num("1"), 0, 0, DecimalRounding::Bankers),
        Err(domain("Decimal precision must be between 1 and 1000, got 0"))
    );
    assert_eq!(
        FixedDecimal::new(num("1"), 3, 4, DecimalRounding::Bankers),
        Err(domain("Decimal scale must be between 0 and the precision (3), got 4"))
    );
    assert_eq!(
        FixedDecimal::new(num("123.456"), 4, 2, DecimalRounding::HalfUp),
        Err(domain("123.46 exceeds Decimal(4, 2) — more than 4 digits"))
    );
    assert_eq!(DecimalRounding::HalfUp.raw_name(), "halfUp");
}

#[test]
fn layouts_serialize_as_bit_formats() {
    let layout = vec![
        FieldSpec::new("owner", 3).with_flags(&["r", "w", "x"]),
        FieldSpec::new("mode", 2).with_values(&["idle", "run"]).with_color("teal"),
        FieldSpec::new("pad", 1).as_reserved(),
        FieldSpec::new("count", 4).with_base(16),
    ];
    assert_eq!(
        BinaryEditorBits::format_source(&layout),
        "Bits::BitFormat(fields: [Bits::BitField(name: \"owner\", bits: 3, kind: \"flags\", flags: [\"r\", \"w\", \"x\"], values: [], color: \"blue\", base: 10), Bits::BitField(name: \"mode\", bits: 2, kind: \"enum\", flags: [], values: [\"idle\", \"run\"], color: \"teal\", base: 10), Bits::BitField(name: \"pad\", bits: 1, kind: \"reserved\", flags: [], values: [], color: \"orange\", base: 10), Bits::BitField(name: \"count\", bits: 4, kind: \"numeric\", flags: [], values: [], color: \"purple\", base: 16)])"
    );
    assert_eq!(BinaryEditorPalette::names()[5], "teal");
    assert!(BinaryEditorBits::SCHEMA_SOURCE.starts_with("namespace Bits"));
}

#[test]
fn format_builder_adds_and_removes_fields() {
    let mut builder = FormatBuilder::new(&["red", "green"]);
    assert!(builder.is_empty());
    assert!(!builder.can_add_field());
    builder.claim(3);
    builder.draft_name = "  perms ".to_string();
    builder.draft_kind = FieldKind::Flags;
    builder.draft_labels = "r, w,,x , ".to_string();
    assert!(builder.can_add_field());
    builder.add_field();
    assert_eq!(builder.fields().len(), 1);
    assert_eq!(builder.fields()[0].name, "perms");
    assert_eq!(builder.fields()[0].labels, vec!["r".to_string(), "w".to_string(), "x".to_string()]);
    assert_eq!(builder.draft_color, "green");
    assert_eq!(builder.pending_width(), 0);
    builder.claim(2);
    builder.draft_kind = FieldKind::Unused;
    builder.add_field();
    assert_eq!(builder.fields()[1].name, "unused");
    assert_eq!(builder.committed_width(), 5);
    assert_eq!(builder.free_bits(8), 3);
    assert_eq!(builder.free_bits(4), 0);
    let layout = builder.layout();
    assert_eq!(layout[0].flags, Some(vec!["r".to_string(), "w".to_string(), "x".to_string()]));
    assert!(layout[1].unused);
    builder.recolor(1, "gold");
    assert_eq!(builder.fields()[1].color_name, "gold");
    builder.remove(0);
    assert_eq!(builder.fields().len(), 1);
    assert_eq!(builder.fields()[0].id, 1);
    assert_eq!(FieldKind::Enumeration.raw_value(), "Enum");
}

#[test]
fn seeding_then_reading_the_layout_gives_it_back() {
    let layout = vec![
        FieldSpec::new("a", 2).with_flags(&["x", "y"]).with_color("blue"),
        FieldSpec::new("b", 3).with_base(16).with_color("pink"),
        FieldSpec::new("c", 1).as_reserved().with_color("teal"),
        FieldSpec::new("d", 2).with_values(&["p", "q", "r"]).with_color("green"),
    ];
    let mut builder = FormatBuilder::new(&["blue"]);
    builder.seed(&layout);
    assert_eq!(builder.layout(), layout);
    let mut padded = FormatBuilder::new(&[]);
    padded.seed(&[FieldSpec::new("f", 3).with_flags(&["only"])]);
    assert_eq!(
        padded.layout()[0].flags,
        Some(vec!["only".to_string(), "?".to_string(), "?".to_string()])
    );
    assert_eq!(padded.layout()[0].color, Some("blue".to_string()));
}

#[test]
fn civil_undoes_serial_on_real_dates() {
    for (y, m, d) in [(2024, 2, 29), (2023, 2, 28), (1970, 1, 1), (1600, 3, 1), (-44, 3, 15), (2000, 12, 31)] {
        assert_eq!(civil(serial(y, m, d)), (y, m, d));
    }
    assert_eq!(serial(2024, 3, 1), serial(2024, 2, 29) + 1);
}

#[test]
fn serial_counts_on_past_month_and_day_ends() {
    assert_eq!(serial(2024, 13, 1), serial(2025, 1, 1));
    assert_eq!(serial(2024, 1, 32), serial(2024, 2, 1));
    assert_eq!(serial(2024, 0, 1), serial(2023, 12, 1));
    assert_eq!(serial(2024, 3, 0), serial(2024, 2, 29));
    for (y, m) in [(2024, 2), (2023, 2), (1900, 2), (2000, 2), (2024, 12), (2024, 4)] {
        assert_eq!(civil(serial(y, m, last_day(y, m)) + 1).2, 1);
    }
}
