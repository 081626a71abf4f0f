use anzan::calculator::{CompletionKind, FunctionDoc};
use anzan::documentation::{builtin_documentation, constants, operators, special_forms};
use anzan::error::EngineError;
use anzan::eval::registry::FunctionCategory;
use anzan::mode::{LanguageMode, ScientificStyle};
use anzan::parser::{is_reserved, parse_error};

fn doc(name: &str) -> FunctionDoc {
    FunctionDoc {
        name: name.to_string(),
        signature: format!("{name}(x)"),
        summary: "s".to_string(),
        examples: vec![format!("{name}(1)")],
    }
}

#[test]
fn modes_round_trip_by_name() {
    for mode in [LanguageMode::Normal, LanguageMode::Programmer, LanguageMode::Scientific] {
        assert_eq!(LanguageMode::from_name(mode.name()), Some(mode));
    }
    assert_eq!(LanguageMode::from_name("Normal"), None);
    for style in [ScientificStyle::Sci, ScientificStyle::Eng] {
        assert_eq!(ScientificStyle::from_name(style.name()), Some(style));
    }
}

#[test]
fn error_messages_and_positions() {
    let lex = EngineError::LexError { message: "bad".to_string(), position: 4 };
    assert_eq!(lex.to_string(), "syntax error at column 5: bad");
    assert_eq!(lex.position(), Some(4));
    let arity = EngineError::ArityMismatch { function: "pmt".to_string(), expected: "1".to_string(), got: 2 };
    assert_eq!(arity.to_string(), "pmt() expects 1 argument, got 2");
    let many = EngineError::ArityMismatch { function: "f".to_string(), expected: "2 to 3".to_string(), got: 0 };
    assert_eq!(many.to_string(), "f() expects 2 to 3 arguments, got 0");
    assert_eq!(EngineError::DivisionByZero.to_string(), "division by zero");
    assert_eq!(EngineError::UnknownVariable { name: "q".to_string() }.to_string(), "unknown variable 'q'");
    assert_eq!(EngineError::DivisionByZero.position(), None);
    assert_eq!(EngineError::domain("nope".to_string()).to_string(), "nope");
    assert_eq!(
        parse_error("expected ')'".to_string(), 7),
        EngineError::ParseError { message: "expected ')'".to_string(), position: 7 }
    );
}

#[test]
fn reserved_names_ignore_case() {
    assert!(is_reserved("PI"));
    assert!(is_reserved("π"));
    assert!(is_reserved("Rounding"));
    assert!(!is_reserved("rate"));
}

#[test]
fn categories_have_headings_and_module_names() {
    assert_eq!(FunctionCategory::Core.heading(), "Core & Algebra");
    assert_eq!(FunctionCategory::Stats.heading(), "Statistics");
    assert_eq!(FunctionCategory::Data.module_name(), "Data");
    assert_eq!(FunctionCategory::all().len(), 10);
    assert_eq!(CompletionKind::Function.badge(), "ƒ");
    assert_eq!(CompletionKind::Constant.badge(), "const");
}

#[test]
fn reference_pages_group_by_category() {
    let registered = vec![
        (FunctionCategory::Trig, doc("sin")),
        (FunctionCategory::Core, doc("abs")),
        (FunctionCategory::Trig, doc("cos")),
    ];
    let pages = builtin_documentation(&registered);
    let titles: Vec<&str> = pages.iter().map(|p| p.title.as_str()).collect();
    assert_eq!(titles, vec!["Special Forms", "Core & Algebra", "Trigonometry", "Operators & Syntax", "Constants"]);
    assert_eq!(pages[2].entries, vec![doc("cos"), doc("sin")]);
    assert_eq!(pages[0].entries, special_forms());
    assert_eq!(pages[3].entries.len(), 12);
    assert_eq!(pages[4].entries.len(), 7);
}

#[test]
fn reference_pages_sort_by_lowercased_name_stably() {
    let registered = vec![
        (FunctionCategory::Core, doc("pmt")),
        (FunctionCategory::Core, doc("NPV")),
        (FunctionCategory::Core, doc("abs")),
        (FunctionCategory::Core, doc("npv")),
    ];
    let pages = builtin_documentation(&registered);
    let names: Vec<String> = pages[1].entries.iter().map(|d| d.name.clone()).collect();
    assert_eq!(names, vec!["abs", "NPV", "npv", "pmt"]);
}

#[test]
fn curated_pages_name_their_entries() {
    let names: Vec<String> = special_forms().into_iter().map(|d| d.name).collect();
    assert_eq!(names, vec!["if", "sigma", "productForm"]);
    let operator_names: Vec<String> = operators().into_iter().map(|d| d.name).collect();
    assert_eq!(operator_names[0], "arithmetic");
    assert_eq!(operator_names[11], "modes");
    let first_constant = &constants()[0];
    assert_eq!(first_constant.signature, "pi · π");
    assert_eq!(first_constant.examples, vec!["2π".to_string(), "sin(pi / 2)".to_string()]);
}
