//! A lexical token with its half-open character range in the source line.

use vstd::prelude::*;
use crate::eval::currency::Currency;
use crate::number::BigDecimal;

verus! {

#[derive(Debug, Clone, PartialEq)]
pub enum TokenKind {
    Number(BigDecimal),
    /// A currency literal ($10, €10): the glyph resolved to a `Currency`.
    Money { value: BigDecimal, currency: Currency },
    /// A grouped plain number (138,561), presentation only.
    Grouped(BigDecimal),
    Identifier(String),
    /// "…" — double-quoted string literal, escapes applied.
    String(String),
    /// A:1 — column as typed, row 1-based. The pins ($A:$1) are copy-time
    /// data for the reference rewriter; evaluation ignores them.
    CellReference { column: String, row: i64, pin_column: bool, pin_row: bool },
    /// .. — cell range separator (A:1..A:9).
    DotDot,
    /// . — map member access (m.name); .5 stays a number.
    Dot,
    /// -> — lambda (x -> x * 2); lexes before minus.
    Arrow,
    /// ! — sheet qualifier (Budget!A:1); != lexes first.
    Bang,
    /// 'Q1 Budget' — sheet names with spaces.
    QuotedName(String),
    Plus,
    Minus,
    Star,
    Slash,
    Percent,
    Caret,
    /// << >> — Programmer-mode bit shifts (lexed in every mode; the parser
    /// gates them).
    ShiftLeft,
    ShiftRight,
    /// & | — Programmer-mode bitwise AND/OR.
    Ampersand,
    Pipe,
    /// ~ — Programmer-mode bitwise NOT.
    Tilde,
    /// √ — prefix square root.
    SqrtSign,
    LessThan,
    GreaterThan,
    LessOrEqual,
    GreaterOrEqual,
    EqualEqual,
    NotEqual,
    /// =
    Assign,
    LeftParen,
    RightParen,
    /// [ ] — array literals and indexing.
    LeftBracket,
    RightBracket,
    /// { } — map literals.
    LeftBrace,
    RightBrace,
    /// : — map key separator (A:1 consumes its own ':').
    Colon,
    /// :: — namespace qualifier (Geometry::Point).
    ColonColon,
    /// ; — separates declarations inside a namespace block.
    Semicolon,
    Comma,
    /// Synthesized end-of-input marker.
    End,
}

/// What a token is, as the grammar describes it: the payload-carrying kinds
/// by their values, every other kind as itself.
pub enum LexedKind {
    Number((int, int)),
    Identifier(Seq<char>),
    Str(Seq<char>),
    CellReference(Seq<char>, i64, bool, bool),
    QuotedName(Seq<char>),
    Other(TokenKind),
}

/// Does the token kind `k` carry what the grammar says?
pub open spec fn kind_matches(k: TokenKind, l: LexedKind) -> bool {
    match l {
        LexedKind::Number(v) => k matches TokenKind::Number(n) && n.wf() && n@ == v,
        LexedKind::Identifier(s) => k matches TokenKind::Identifier(t) && t@ == s,
        LexedKind::Str(s) => k matches TokenKind::String(t) && t@ == s,
        LexedKind::CellReference(column, row, pin_column, pin_row) => k matches TokenKind::CellReference {
            column: c,
            row: r,
            pin_column: pc,
            pin_row: pr,
        } && c@ == column && r == row && pc == pin_column && pr == pin_row,
        LexedKind::QuotedName(s) => k matches TokenKind::QuotedName(t) && t@ == s,
        LexedKind::Other(o) => k == o && is_plain_kind(o),
    }
}

/// A kind that carries no payload.
pub open spec fn is_plain_kind(k: TokenKind) -> bool {
    !(k is Number || k is Money || k is Grouped || k is Identifier || k is String || k is CellReference
        || k is QuotedName)
}

#[derive(Debug, PartialEq)]
pub struct Token {
    pub kind: TokenKind,
    pub range: std::ops::Range<usize>,
}

impl Token {
    /// Where the token starts.
    pub fn position(&self) -> (r: usize)
        ensures
            r == self.range.start,
    {
        self.range.start
    }
}

} // verus!
