use anzan::bigint::BigInteger;
use anzan::eval::fixed_decimal::{DecimalRounding, FixedDecimal, MAX_PRECISION};
use anzan::eval::fixed_int::FixedInt;
use anzan::eval::binary_view::layout;
use anzan::eval::value::{subscript_value, FunctionValue, FunctionValueKind, HostHandle, MapEntry, RecordValue, Value};
use anzan::mode::LanguageMode;
use anzan::number::BigDecimal;
use anzan::parser::Parser;

fn num(n: i64) -> Value {
    Value::Number(BigDecimal::from_int(n))
}

fn fixed_int(value: i64, bits: u32, signed: bool) -> FixedInt {
    FixedInt::new(BigInteger::from_i64(value), bits, signed).expect("valid fixed int")
}

fn fixed_decimal(text: &str, precision: i64, scale: i64) -> FixedDecimal {
    FixedDecimal::new(BigDecimal::parse(text).expect("valid decimal"), precision, scale, DecimalRounding::Bankers)
        .expect("in range")
}

fn entry(key: &str, value: Value) -> MapEntry {
    MapEntry::new(key.to_string(), value)
}

fn host(label: &str) -> Value {
    Value::Host(HostHandle::new("Widget".to_string(), format!("Widget({label})")))
}

fn person() -> Value {
    Value::Record(RecordValue {
        type_label: "Person".to_string(),
        entries: vec![
            entry("name", Value::String("Ada".to_string())),
            entry("age", num(36)),
            entry("active", num(1)),
        ],
        boolean_fields: vec!["active".to_string()],
    })
}

fn builtins() -> Vec<String> {
    vec!["abs".to_string(), "sum".to_string(), "max".to_string()]
}

fn parsed(text: &str) -> Option<Value> {
    Value::parsing(text, &builtins())
}

#[test]
fn description_renders_each_variant_canonically() {
    assert_eq!(num(42).to_string(), "42");
    assert_eq!(Value::String("hi".to_string()).to_string(), "\"hi\"");
    assert_eq!(Value::Array(vec![num(1), num(2)]).to_string(), "[1, 2]");
    assert_eq!(Value::Dictionary(vec![entry("a", num(1)), entry("b", num(2))]).to_string(), "{a: 1, b: 2}");
    assert_eq!(Value::FixedInt(fixed_int(255, 32, true)).to_string(), "Int32(255)");
    assert_eq!(host("gauge").to_string(), "Widget(gauge)");
}

#[test]
fn record_description_prints_bare_keys_and_boolean_words() {
    assert_eq!(person().to_string(), "Person(name: \"Ada\", age: 36, active: true)");
    let off = Value::Record(RecordValue {
        type_label: "Switch".to_string(),
        entries: vec![entry("on", num(0))],
        boolean_fields: vec!["on".to_string()],
    });
    assert_eq!(off.to_string(), "Switch(on: false)");
}

#[test]
fn map_description_quotes_keys_that_are_not_identifiers() {
    let map = Value::Dictionary(vec![entry("has space", num(1))]);
    assert_eq!(map.to_string(), "{\"has space\": 1}");
}

#[test]
fn fixed_decimal_description_round_trips_shortest_form() {
    assert_eq!(Value::FixedDecimal(fixed_decimal("0.5", MAX_PRECISION, 1)).to_string(), "Decimal(0.5)");
    assert_eq!(Value::FixedDecimal(fixed_decimal("0.5", MAX_PRECISION, 2)).to_string(), "Decimal(0.50, 2)");
    assert_eq!(Value::FixedDecimal(fixed_decimal("10.5", 5, 2)).to_string(), "Decimal(10.50, 5, 2)");
}

#[test]
fn fixed_decimal_description_shows_non_default_rounding() {
    let half_up = FixedDecimal::new(BigDecimal::parse("1.25").expect("decimal"), 5, 2, DecimalRounding::HalfUp)
        .expect("in range");
    assert_eq!(Value::FixedDecimal(half_up).to_string(), "Decimal(1.25, 5, 2, Rounding.HalfUp)");
}

#[test]
fn function_values_render_reparseably() {
    assert_eq!(Value::Function(FunctionValue::builtin("abs".to_string())).to_string(), "abs");
    assert_eq!(Value::Function(FunctionValue::user("double".to_string())).to_string(), "double");
    let doubled = Parser::parse("x * 2", LanguageMode::Normal).expect("parses");
    let lambda = FunctionValue::lambda(vec!["x".to_string()], doubled);
    assert_eq!(Value::Function(lambda).to_string(), "(x) -> (x * 2)");
}

#[test]
fn display_description_unwraps_fixed_values() {
    assert_eq!(Value::FixedInt(fixed_int(255, 32, true)).display_description(), "255");
    assert_eq!(Value::FixedDecimal(fixed_decimal("10.5", 5, 2)).display_description(), "10.50");
    assert_eq!(num(3).display_description(), "3");
    assert_eq!(Value::String("q".to_string()).display_description(), "\"q\"");
}

#[test]
fn display_description_recurses_into_arrays_and_maps() {
    let nested = Value::Array(vec![Value::FixedInt(fixed_int(5, 8, true)), num(2)]);
    assert_eq!(nested.display_description(), "[5, 2]");
    let map = Value::Dictionary(vec![entry("n", Value::FixedInt(fixed_int(9, 16, false)))]);
    assert_eq!(map.display_description(), "{n: 9}");
}

#[test]
fn display_text_strips_string_quotes_only() {
    assert_eq!(Value::String("Ada".to_string()).display_text(), "Ada");
    assert_eq!(Value::FixedInt(fixed_int(5, 8, true)).display_text(), "5");
    assert_eq!(num(4).display_text(), "4");
}

#[test]
fn parsing_folds_literal_shapes() {
    assert!(parsed("42").unwrap().equals(&num(42)));
    assert!(parsed("-5").unwrap().equals(&Value::Number(BigDecimal::from_int(-5))));
    assert!(parsed("\"hi\"").unwrap().equals(&Value::String("hi".to_string())));
    assert!(parsed("[1, 2]").unwrap().equals(&Value::Array(vec![num(1), num(2)])));
    assert!(parsed("{a: 1}").unwrap().equals(&Value::Dictionary(vec![entry("a", num(1))])));
}

#[test]
fn parsing_folds_a_builtin_reference_but_not_a_user_name() {
    assert!(parsed("abs").unwrap().equals(&Value::Function(FunctionValue::builtin("abs".to_string()))));
    assert!(parsed("someUserFn").is_none());
}

#[test]
fn parsing_folds_a_capture_free_lambda() {
    match parsed("x -> x * 2") {
        Some(Value::Function(FunctionValue { kind: FunctionValueKind::Lambda { parameters, .. }, captures })) => {
            assert_eq!(parameters, vec!["x".to_string()]);
            assert!(captures.is_empty(), "persisted lambdas come back capture-free");
        },
        other => panic!("expected a lambda function value, got {other:?}"),
    }
}

#[test]
fn parsing_rejects_anything_needing_evaluation() {
    assert!(parsed("1 + 2").is_none());
    assert!(parsed("A:1").is_none());
    assert!(parsed("sum(1, 2)").is_none());
    assert!(parsed("-x").is_none());
    assert!(parsed("(").is_none());
}

#[test]
fn description_round_trips_through_parsing() {
    let values = || {
        vec![
            num(42),
            Value::String("hi".to_string()),
            Value::Array(vec![num(1), Value::String("x".to_string())]),
            Value::Dictionary(vec![entry("a", num(1)), entry("b", num(2))]),
        ]
    };
    for value in values() {
        let text = value.to_string();
        let back = parsed(&text).expect("re-parses");
        assert!(back.equals(&value), "{text}");
    }
}

#[test]
fn as_number_coerces_the_numeric_family() {
    assert_eq!(num(7).as_number("+").unwrap(), BigDecimal::from_int(7));
    assert_eq!(Value::FixedInt(fixed_int(7, 32, true)).as_number("+").unwrap(), BigDecimal::from_int(7));
    assert_eq!(
        Value::FixedDecimal(fixed_decimal("2.5", 5, 2)).as_number("+").unwrap(),
        BigDecimal::parse("2.5").unwrap()
    );
}

#[test]
fn as_number_names_the_context_and_kind_on_failure() {
    let error = Value::Array(vec![num(1)]).as_number("^").unwrap_err();
    assert_eq!(error.to_string(), "expected a number for ^, got an array");
}

#[test]
fn flattened_numbers_flattens_arrays_and_rejects_non_numbers() {
    let nested = Value::Array(vec![num(1), Value::Array(vec![num(2), num(3)])]);
    assert_eq!(
        nested.flattened_numbers("sum").unwrap(),
        vec![BigDecimal::from_int(1), BigDecimal::from_int(2), BigDecimal::from_int(3)]
    );
    assert_eq!(
        Value::FixedInt(fixed_int(9, 8, false)).flattened_numbers("sum").unwrap(),
        vec![BigDecimal::from_int(9)]
    );
    for bad in [
        Value::String("x".to_string()),
        Value::Dictionary(vec![]),
        Value::Function(FunctionValue::builtin("abs".to_string())),
        person(),
        host("g"),
    ] {
        let error = bad.flattened_numbers("sum").unwrap_err();
        assert!(error.to_string().contains("sum() works on numbers"), "{}", error.to_string());
    }
}

#[test]
fn maps_compare_order_insensitively() {
    let ab = Value::Dictionary(vec![entry("a", num(1)), entry("b", num(2))]);
    let ba = Value::Dictionary(vec![entry("b", num(2)), entry("a", num(1))]);
    assert!(ab.equals(&ba));
    let a_only = Value::Dictionary(vec![entry("a", num(1))]);
    assert!(!ab.equals(&a_only));
    let ab2 = Value::Dictionary(vec![entry("a", num(1)), entry("b", num(9))]);
    assert!(!ab.equals(&ab2));
}

#[test]
fn a_record_never_equals_a_plain_map() {
    let as_map = Value::Dictionary(vec![
        entry("name", Value::String("Ada".to_string())),
        entry("age", num(36)),
        entry("active", num(1)),
    ]);
    assert!(!person().equals(&as_map));
    assert!(person().equals(&person()));
}

#[test]
fn fixed_values_compare_by_numeric_value() {
    assert!(Value::FixedInt(fixed_int(5, 8, true)).equals(&num(5)));
    assert!(num(5).equals(&Value::FixedInt(fixed_int(5, 8, true))));
    assert!(Value::FixedInt(fixed_int(5, 8, true)).equals(&Value::FixedInt(fixed_int(5, 16, false))));
    let d = Value::FixedDecimal(fixed_decimal("2.5", 5, 2));
    assert!(d.equals(&Value::Number(BigDecimal::parse("2.5").unwrap())));
    assert!(Value::Number(BigDecimal::parse("2.5").unwrap()).equals(&d));
    assert!(d.equals(&Value::FixedDecimal(fixed_decimal("2.5", 10, 4))));
}

#[test]
fn hosts_compare_by_type_and_description() {
    assert!(host("a").equals(&host("a")));
    assert!(!host("a").equals(&host("b")));
}

#[test]
fn functions_and_cross_type_comparisons() {
    assert!(Value::Function(FunctionValue::builtin("abs".to_string()))
        .equals(&Value::Function(FunctionValue::builtin("abs".to_string()))));
    assert!(!Value::Function(FunctionValue::builtin("abs".to_string()))
        .equals(&Value::Function(FunctionValue::user("abs".to_string()))));
    assert!(!num(1).equals(&Value::String("1".to_string())));
    assert!(!Value::Array(vec![num(1)]).equals(&Value::Dictionary(vec![])));
    assert!(!host("a").equals(&num(1)));
}

#[test]
fn kind_name_names_every_variant() {
    assert_eq!(num(1).kind_name(), "a number");
    assert_eq!(Value::String("x".to_string()).kind_name(), "a string");
    assert_eq!(Value::Array(vec![]).kind_name(), "an array");
    assert_eq!(Value::Dictionary(vec![]).kind_name(), "a map");
    assert_eq!(Value::Function(FunctionValue::builtin("abs".to_string())).kind_name(), "a function");
    assert_eq!(person().kind_name(), "a Person");
    assert_eq!(Value::FixedInt(fixed_int(1, 8, true)).kind_name(), "a Int8");
    assert_eq!(Value::FixedDecimal(fixed_decimal("1.0", 5, 2)).kind_name(), "a Decimal(5, 2)");
    assert_eq!(host("g").kind_name(), "a Widget");
}

#[test]
fn is_record_is_true_only_for_records() {
    assert!(person().is_record());
    assert!(!Value::Dictionary(vec![]).is_record());
    assert!(!num(1).is_record());
}

#[test]
fn map_value_reads_maps_and_records_and_misses_cleanly() {
    assert!(person().map_value("name").unwrap().equals(&Value::String("Ada".to_string())));
    let map = Value::Dictionary(vec![entry("k", num(9))]);
    assert!(map.map_value("k").unwrap().equals(&num(9)));
    assert!(map.map_value("absent").is_none());
    assert!(num(1).map_value("k").is_none());
}

#[test]
fn bool_constructs_one_and_zero() {
    assert!(Value::bool(true).equals(&num(1)));
    assert!(Value::bool(false).equals(&num(0)));
}

#[test]
fn contains_host_finds_handles_at_any_depth() {
    assert!(host("g").contains_host());
    assert!(Value::Array(vec![num(1), host("g")]).contains_host());
    assert!(Value::Dictionary(vec![entry("h", host("g"))]).contains_host());
    assert!(!Value::Array(vec![num(1), Value::Dictionary(vec![entry("a", num(2))])]).contains_host());
    assert!(!person().contains_host());
    assert!(!Value::FixedInt(fixed_int(1, 8, true)).contains_host());
}

#[test]
fn lambdas_compare_by_parameters_and_body() {
    let body = |text: &str| Parser::parse(text, LanguageMode::Normal).expect("parses");
    let f = |p: &str, b: &str| Value::Function(FunctionValue::lambda(vec![p.to_string()], body(b)));
    assert!(f("x", "x * 2").equals(&f("x", "x * 2")));
    assert!(!f("x", "x * 2").equals(&f("y", "x * 2")));
    assert!(!f("x", "x * 2").equals(&f("x", "x * 3")));
}

#[test]
fn nested_values_compare_deeply() {
    let a = Value::Array(vec![Value::Dictionary(vec![entry("k", Value::Array(vec![num(1), num(2)]))])]);
    let b = Value::Array(vec![Value::Dictionary(vec![entry("k", Value::Array(vec![num(1), num(2)]))])]);
    let c = Value::Array(vec![Value::Dictionary(vec![entry("k", Value::Array(vec![num(1), num(3)]))])]);
    assert!(a.equals(&b));
    assert!(!a.equals(&c));
    assert!(!Value::Array(vec![num(1)]).equals(&Value::Array(vec![num(1), num(1)])));
}

#[test]
fn subscripts_read_arrays_strings_and_maps() {
    let arr = || Value::Array(vec![num(10), num(20), num(30)]);
    assert!(subscript_value(arr(), &num(1)).unwrap().equals(&num(20)));
    let e = subscript_value(arr(), &num(3)).unwrap_err();
    assert_eq!(e.to_string(), "index 3 is out of range (array has 3 elements)");
    let e = subscript_value(Value::Array(vec![num(1)]), &num(-1)).unwrap_err();
    assert_eq!(e.to_string(), "index -1 is out of range (array has 1 element)");
    let e = subscript_value(arr(), &Value::Number(BigDecimal::parse("1.5").unwrap())).unwrap_err();
    assert_eq!(e.to_string(), "array index must be an integer");
    let e = subscript_value(arr(), &Value::String("a".to_string())).unwrap_err();
    assert_eq!(e.to_string(), "expected a number for an array index, got a string");
    assert!(subscript_value(Value::String("héllo".to_string()), &num(1)).unwrap().equals(&Value::String("é".to_string())));
    let e = subscript_value(Value::String("ab".to_string()), &num(5)).unwrap_err();
    assert_eq!(e.to_string(), "index 5 is out of range (string has 2 characters)");
    let map = || Value::Dictionary(vec![entry("a", num(1)), entry("b", num(2))]);
    assert!(subscript_value(map(), &Value::String("b".to_string())).unwrap().equals(&num(2)));
    let e = subscript_value(map(), &Value::String("z".to_string())).unwrap_err();
    assert_eq!(e.to_string(), "no key 'z' in map");
    let e = subscript_value(map(), &num(0)).unwrap_err();
    assert_eq!(e.to_string(), "map keys are strings — e.g. m[\"name\"], got a number");
    assert!(subscript_value(person(), &Value::String("age".to_string())).unwrap().equals(&num(36)));
    let e = subscript_value(person(), &Value::String("height".to_string())).unwrap_err();
    assert_eq!(e.to_string(), "Person has no field 'height' — it has name, age, active");
    let e = subscript_value(num(5), &num(0)).unwrap_err();
    assert_eq!(e.to_string(), "a number can't be indexed");
    let e = subscript_value(host("g"), &num(0)).unwrap_err();
    assert_eq!(e.to_string(), "Widget can't be indexed by a number");
}

#[test]
fn layouts_read_loose_maps() {
    let flags = Value::Array(vec![Value::String("r".to_string()), Value::String("w".to_string())]);
    let rich = Value::Dictionary(vec![entry("bits", num(4)), entry("base", num(16))]);
    let gap = Value::Dictionary(vec![entry("bits", num(2)), entry("reserved", num(1))]);
    let map = Value::Dictionary(vec![entry("mode", num(3)), entry("perm", flags), entry("count", rich), entry("pad", gap)]);
    let specs = layout(&map).expect("a layout");
    assert_eq!(specs.len(), 4);
    assert_eq!((specs[0].name.as_str(), specs[0].width), ("mode", 3));
    assert_eq!(specs[1].flags, Some(vec!["r".to_string(), "w".to_string()]));
    assert_eq!(specs[1].width, 2);
    assert_eq!((specs[2].width, specs[2].base), (4, Some(16)));
    assert!(specs[3].reserved);
    assert!(layout(&Value::Dictionary(vec![])).is_none());
    assert!(layout(&Value::Dictionary(vec![entry("x", num(0))])).is_none());
    assert!(layout(&Value::Dictionary(vec![entry("x", Value::String("3".to_string()))])).is_none());
    assert!(layout(&num(3)).is_none());
}

#[test]
fn layouts_read_typed_formats() {
    let field = |name: &str, extra: Vec<MapEntry>| {
        let mut entries = vec![entry("name", Value::String(name.to_string()))];
        entries.extend(extra);
        Value::Record(RecordValue { type_label: "Bits::BitField".to_string(), entries, boolean_fields: vec![] })
    };
    let fields = Value::Array(vec![
        field("flags", vec![entry("flags", Value::Array(vec![Value::String("a".to_string())])), entry("color", Value::String("teal".to_string()))]),
        field("kind", vec![entry("kind", Value::String("enum".to_string())), entry("bits", num(2)),
            entry("values", Value::Array(vec![Value::String("x".to_string()), Value::String("y".to_string())]))]),
        field("gap", vec![entry("kind", Value::String("unused".to_string())), entry("bits", num(5))]),
        field("n", vec![entry("bits", num(8)), entry("base", num(2))]),
    ]);
    let format = Value::Record(RecordValue {
        type_label: "Bits::BitFormat".to_string(),
        entries: vec![entry("fields", fields)],
        boolean_fields: vec![],
    });
    let specs = layout(&format).expect("a layout");
    assert_eq!(specs.len(), 4);
    assert_eq!(specs[0].flags, Some(vec!["a".to_string()]));
    assert_eq!(specs[0].color, Some("teal".to_string()));
    assert_eq!((specs[1].width, specs[1].values.clone()), (2, Some(vec!["x".to_string(), "y".to_string()])));
    assert!(specs[2].unused);
    assert_eq!((specs[3].width, specs[3].base), (8, Some(2)));
    let missing_bits = Value::Record(RecordValue {
        type_label: "Bits::BitFormat".to_string(),
        entries: vec![entry("fields", Value::Array(vec![field("n", vec![])]))],
        boolean_fields: vec![],
    });
    assert!(layout(&missing_bits).is_none());
}
