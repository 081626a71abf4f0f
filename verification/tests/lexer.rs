use anzan::error::EngineError;
use anzan::lexer::{Lexer, Token, TokenKind};
use anzan::mode::LanguageMode;
use anzan::number::BigDecimal;

fn kinds(source: &str) -> Vec<TokenKind> {
    Lexer::tokenize(source, LanguageMode::Normal)
        .unwrap_or_else(|e| panic!("'{source}' should lex: {e:?}"))
        .into_iter()
        .map(|t: Token| t.kind)
        .collect()
}

fn num(s: &str) -> TokenKind {
    TokenKind::Number(BigDecimal::parse(s).unwrap())
}

fn ident(s: &str) -> TokenKind {
    TokenKind::Identifier(s.to_string())
}

fn cell(column: &str, row: i64, pin_column: bool, pin_row: bool) -> TokenKind {
    TokenKind::CellReference { column: column.to_string(), row, pin_column, pin_row }
}

#[test]
fn tokenizes_arithmetic() {
    assert_eq!(
        kinds("1 + 2*3"),
        vec![num("1"), TokenKind::Plus, num("2"), TokenKind::Star, num("3"), TokenKind::End]
    );
}

#[test]
fn tokenizes_all_operators() {
    assert_eq!(
        kinds("+-*/%^=(),"),
        vec![
            TokenKind::Plus,
            TokenKind::Minus,
            TokenKind::Star,
            TokenKind::Slash,
            TokenKind::Percent,
            TokenKind::Caret,
            TokenKind::Assign,
            TokenKind::LeftParen,
            TokenKind::RightParen,
            TokenKind::Comma,
            TokenKind::End
        ]
    );
}

#[test]
fn tokenizes_number_formats() {
    assert_eq!(
        kinds("1_000 2.5e-3 .5 1E2"),
        vec![num("1000"), num("0.0025"), num("0.5"), num("100"), TokenKind::End]
    );
}

#[test]
fn e_not_followed_by_digits_is_not_an_exponent() {
    assert_eq!(kinds("2e"), vec![num("2"), ident("e"), TokenKind::End]);
    assert_eq!(
        kinds("2e+x"),
        vec![num("2"), ident("e"), TokenKind::Plus, ident("x"), TokenKind::End]
    );
}

#[test]
fn tokenizes_identifiers() {
    assert_eq!(
        kinds("rate_2 = pmt(x)"),
        vec![
            ident("rate_2"),
            TokenKind::Assign,
            ident("pmt"),
            TokenKind::LeftParen,
            ident("x"),
            TokenKind::RightParen,
            TokenKind::End
        ]
    );
}

#[test]
fn records_positions() {
    let tokens = Lexer::tokenize("12 + ab", LanguageMode::Normal).unwrap();
    let ranges: Vec<_> = tokens.into_iter().map(|t| t.range).collect();
    assert_eq!(ranges, vec![0..2, 3..4, 5..7, 7..7]);
}

#[test]
fn rejects_unknown_characters() {
    assert_eq!(
        Lexer::tokenize("1 @ 2", LanguageMode::Normal),
        Err(EngineError::LexError { message: "unexpected character '@'".to_string(), position: 2 })
    );
}

#[test]
fn comments_run_to_end_of_line() {
    assert_eq!(kinds("1 + 2 # three # four").len(), 4);
    assert_eq!(kinds("# only a comment"), vec![TokenKind::End]);
}

#[test]
fn rejects_malformed_numbers() {
    assert!(Lexer::tokenize("1.2.3", LanguageMode::Normal).is_err());
}

#[test]
fn split_comment_respects_strings() {
    assert_eq!(
        Lexer::split_comment(r#"greet = "a # b" # doc"#),
        (r#"greet = "a # b" "#.to_string(), Some("doc".to_string()))
    );
    assert_eq!(Lexer::split_comment("1 + 2"), ("1 + 2".to_string(), None));
    assert_eq!(Lexer::split_comment("# note only"), ("".to_string(), Some("note only".to_string())));
}

#[test]
fn cell_references_and_pins() {
    assert_eq!(kinds("A:1"), vec![cell("A", 1, false, false), TokenKind::End]);
    assert_eq!(kinds("$A:$12"), vec![cell("A", 12, true, true), TokenKind::End]);
    assert_eq!(kinds("a: b"), vec![ident("a"), TokenKind::Colon, ident("b"), TokenKind::End]);
    assert!(Lexer::tokenize("$ 5", LanguageMode::Normal).is_err());
    assert!(Lexer::tokenize("$A + 1", LanguageMode::Normal).is_err());
}

#[test]
fn string_literals_and_escapes() {
    assert_eq!(kinds(r#""hi""#), vec![TokenKind::String("hi".to_string()), TokenKind::End]);
    assert_eq!(
        kinds(r#""a\tb\n\"q\"""#),
        vec![TokenKind::String("a\tb\n\"q\"".to_string()), TokenKind::End]
    );
    assert!(Lexer::tokenize(r#""open"#, LanguageMode::Normal).is_err());
    assert!(Lexer::tokenize(r#""bad \q escape""#, LanguageMode::Normal).is_err());
}

#[test]
fn radix_literals() {
    assert_eq!(kinds("0xFF"), vec![num("255"), TokenKind::End]);
    assert_eq!(kinds("0b1010"), vec![num("10"), TokenKind::End]);
    assert_eq!(kinds("0xDEAD_BEEF"), vec![num("3735928559"), TokenKind::End]);
    assert!(Lexer::tokenize("0xFG", LanguageMode::Normal).is_err());
    assert!(Lexer::tokenize("0x1.5", LanguageMode::Normal).is_err());
    assert!(Lexer::tokenize("0x", LanguageMode::Normal).is_err());
}

#[test]
fn typographic_operators_and_math_symbols() {
    assert_eq!(
        kinds("2 × 3 ÷ 4 − 1"),
        vec![
            num("2"),
            TokenKind::Star,
            num("3"),
            TokenKind::Slash,
            num("4"),
            TokenKind::Minus,
            num("1"),
            TokenKind::End
        ]
    );
    assert_eq!(
        kinds("∑(1)"),
        vec![ident("sigma"), TokenKind::LeftParen, num("1"), TokenKind::RightParen, TokenKind::End]
    );
    assert_eq!(
        kinds("∏(1)"),
        vec![ident("product"), TokenKind::LeftParen, num("1"), TokenKind::RightParen, TokenKind::End]
    );
    assert_eq!(kinds("√9"), vec![TokenKind::SqrtSign, num("9"), TokenKind::End]);
    assert_eq!(
        kinds("1 ≤ 2 ≠ 3"),
        vec![num("1"), TokenKind::LessOrEqual, num("2"), TokenKind::NotEqual, num("3"), TokenKind::End]
    );
}

#[test]
fn two_char_operators_win() {
    assert_eq!(kinds("a != b"), vec![ident("a"), TokenKind::NotEqual, ident("b"), TokenKind::End]);
    assert_eq!(
        kinds("Budget!A:1"),
        vec![ident("Budget"), TokenKind::Bang, cell("A", 1, false, false), TokenKind::End]
    );
    assert_eq!(kinds("x -> x"), vec![ident("x"), TokenKind::Arrow, ident("x"), TokenKind::End]);
    assert_eq!(
        kinds("A:1..A:9"),
        vec![cell("A", 1, false, false), TokenKind::DotDot, cell("A", 9, false, false), TokenKind::End]
    );
    assert!(Lexer::tokenize("1..2", LanguageMode::Normal).is_err());
    assert_eq!(kinds("Geo::Pt"), vec![ident("Geo"), TokenKind::ColonColon, ident("Pt"), TokenKind::End]);
    assert_eq!(
        kinds("1 << 2 >> 3"),
        vec![num("1"), TokenKind::ShiftLeft, num("2"), TokenKind::ShiftRight, num("3"), TokenKind::End]
    );
}

#[test]
fn quoted_names() {
    assert_eq!(
        kinds("'Q1 Budget'!B:2"),
        vec![
            TokenKind::QuotedName("Q1 Budget".to_string()),
            TokenKind::Bang,
            cell("B", 2, false, false),
            TokenKind::End
        ]
    );
    assert!(Lexer::tokenize("'unterminated", LanguageMode::Normal).is_err());
}

#[test]
fn lex_errors_carry_exact_messages() {
    assert_eq!(
        Lexer::tokenize("\"open", LanguageMode::Normal),
        Err(EngineError::LexError { message: "unterminated string".to_string(), position: 0 })
    );
    assert_eq!(
        Lexer::tokenize("x = \"a\\qb\"", LanguageMode::Normal),
        Err(EngineError::LexError { message: "unknown escape '\\q'".to_string(), position: 6 })
    );
    assert_eq!(
        Lexer::tokenize("0x", LanguageMode::Normal),
        Err(EngineError::LexError { message: "hex literal needs digits".to_string(), position: 0 })
    );
    assert_eq!(
        Lexer::tokenize("0b12", LanguageMode::Normal),
        Err(EngineError::LexError { message: "malformed binary literal '0b12'".to_string(), position: 0 })
    );
    assert_eq!(
        Lexer::tokenize("1.2.3", LanguageMode::Normal),
        Err(EngineError::LexError { message: "malformed number '1.2.'".to_string(), position: 0 })
    );
    assert_eq!(
        Lexer::tokenize("'open", LanguageMode::Normal),
        Err(EngineError::LexError { message: "unterminated sheet name quote".to_string(), position: 0 })
    );
}

#[test]
fn lexing_is_the_same_in_every_mode() {
    for mode in [LanguageMode::Normal, LanguageMode::Programmer, LanguageMode::Scientific] {
        let tokens = Lexer::tokenize("a & b | ~c ^ 2", mode).unwrap();
        let kinds: Vec<TokenKind> = tokens.into_iter().map(|t| t.kind).collect();
        assert_eq!(
            kinds,
            vec![
                ident("a"),
                TokenKind::Ampersand,
                ident("b"),
                TokenKind::Pipe,
                TokenKind::Tilde,
                ident("c"),
                TokenKind::Caret,
                num("2"),
                TokenKind::End
            ]
        );
    }
}

#[test]
fn token_position_is_its_start() {
    let tokens = Lexer::tokenize("  abc", LanguageMode::Normal).unwrap();
    assert_eq!(tokens[0].position(), 2);
    assert_eq!(tokens[1].position(), 5);
}
