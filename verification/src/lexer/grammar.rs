//! The token grammar, as spec functions over the line's characters: what
//! one scan from a position yields, and what the whole line lexes to.

use vstd::prelude::*;
use super::token::{LexedKind, TokenKind};
use crate::bigint::{is_ascii_digit, digits_value};
use crate::number::canonical;
use crate::number::parse::{literal_value, literal_fits};
use crate::text::{char_is_whitespace, char_is_alphabetic, char_is_numeric, i64_literal, hex_digit_value, trimmed};

verus! {

/// The outcome of scanning one token.
pub enum Step {
    /// End of input (or a `#` comment running to the end).
    Done,
    /// A token of the kind, over `[start, end)`.
    Token(LexedKind, int, int),
    /// A lex error: message and position.
    Fail(Seq<char>, int),
    /// A number literal whose exponent arithmetic overflows `i64`.
    Overflow,
}

/// The outcome of lexing a whole line.
pub enum Lexed {
    /// The tokens (before the synthesized `End`), with their ranges.
    Tokens(Seq<(LexedKind, int, int)>),
    Error(Seq<char>, int),
    Overflow,
}

/// The first index at or after `i` that is not whitespace.
pub open spec fn skip_whitespace(chars: Seq<char>, i: int) -> int
    decreases chars.len() - i,
{
    if 0 <= i < chars.len() && char_is_whitespace(chars[i]) {
        skip_whitespace(chars, i + 1)
    } else {
        i
    }
}

/// The two-character operators, which win over single characters.
pub open spec fn two_char_kind(c: char, n: char) -> Option<TokenKind> {
    if c == '=' && n == '=' {
        Some(TokenKind::EqualEqual)
    } else if c == '!' && n == '=' {
        Some(TokenKind::NotEqual)
    } else if c == '<' && n == '=' {
        Some(TokenKind::LessOrEqual)
    } else if c == '>' && n == '=' {
        Some(TokenKind::GreaterOrEqual)
    } else if c == '<' && n == '<' {
        Some(TokenKind::ShiftLeft)
    } else if c == '>' && n == '>' {
        Some(TokenKind::ShiftRight)
    } else if c == '.' && n == '.' {
        Some(TokenKind::DotDot)
    } else if c == '-' && n == '>' {
        Some(TokenKind::Arrow)
    } else if c == ':' && n == ':' {
        Some(TokenKind::ColonColon)
    } else {
        None
    }
}

/// The single-character operators and punctuation, including the
/// typographic forms (× ÷ − ·) and the math symbols ∑ ∏.
pub open spec fn simple_kind(c: char) -> Option<LexedKind> {
    if c == '+' {
        Some(LexedKind::Other(TokenKind::Plus))
    } else if c == '-' || c == '−' {
        Some(LexedKind::Other(TokenKind::Minus))
    } else if c == '*' || c == '×' || c == '·' {
        Some(LexedKind::Other(TokenKind::Star))
    } else if c == '/' || c == '÷' {
        Some(LexedKind::Other(TokenKind::Slash))
    } else if c == '%' {
        Some(LexedKind::Other(TokenKind::Percent))
    } else if c == '^' {
        Some(LexedKind::Other(TokenKind::Caret))
    } else if c == '=' {
        Some(LexedKind::Other(TokenKind::Assign))
    } else if c == '(' {
        Some(LexedKind::Other(TokenKind::LeftParen))
    } else if c == ')' {
        Some(LexedKind::Other(TokenKind::RightParen))
    } else if c == ',' {
        Some(LexedKind::Other(TokenKind::Comma))
    } else if c == '[' {
        Some(LexedKind::Other(TokenKind::LeftBracket))
    } else if c == ']' {
        Some(LexedKind::Other(TokenKind::RightBracket))
    } else if c == '{' {
        Some(LexedKind::Other(TokenKind::LeftBrace))
    } else if c == '}' {
        Some(LexedKind::Other(TokenKind::RightBrace))
    } else if c == ':' {
        Some(LexedKind::Other(TokenKind::Colon))
    } else if c == ';' {
        Some(LexedKind::Other(TokenKind::Semicolon))
    } else if c == '√' {
        Some(LexedKind::Other(TokenKind::SqrtSign))
    } else if c == '<' {
        Some(LexedKind::Other(TokenKind::LessThan))
    } else if c == '>' {
        Some(LexedKind::Other(TokenKind::GreaterThan))
    } else if c == '&' {
        Some(LexedKind::Other(TokenKind::Ampersand))
    } else if c == '|' {
        Some(LexedKind::Other(TokenKind::Pipe))
    } else if c == '~' {
        Some(LexedKind::Other(TokenKind::Tilde))
    } else if c == '≤' {
        Some(LexedKind::Other(TokenKind::LessOrEqual))
    } else if c == '≥' {
        Some(LexedKind::Other(TokenKind::GreaterOrEqual))
    } else if c == '≠' {
        Some(LexedKind::Other(TokenKind::NotEqual))
    } else if c == '!' {
        Some(LexedKind::Other(TokenKind::Bang))
    } else if c == '∑' {
        Some(LexedKind::Identifier("sigma"@))
    } else if c == '∏' {
        Some(LexedKind::Identifier("product"@))
    } else {
        None
    }
}

/// What an escape sequence `\c` stands for inside a string literal.
pub open spec fn escaped(c: char) -> Option<char> {
    if c == '\\' {
        Some('\\')
    } else if c == '"' {
        Some('"')
    } else if c == 'n' {
        Some('\n')
    } else if c == 't' {
        Some('\t')
    } else {
        None
    }
}

/// Scans the rest of a string literal from `i`, having collected `text`;
/// the literal opened at `start`.
pub open spec fn string_scan(chars: Seq<char>, i: int, text: Seq<char>, start: int) -> Step
    decreases chars.len() - i,
{
    if i < 0 || i >= chars.len() {
        Step::Fail("unterminated string"@, start)
    } else if chars[i] == '"' {
        Step::Token(LexedKind::Str(text), start, i + 1)
    } else if chars[i] == '\\' {
        if i + 1 >= chars.len() {
            Step::Fail("unterminated string"@, start)
        } else {
            match escaped(chars[i + 1]) {
                Some(e) => string_scan(chars, i + 2, text.push(e), start),
                None => Step::Fail("unknown escape '\\"@ + seq![chars[i + 1]] + seq!['\''], i),
            }
        }
    } else {
        string_scan(chars, i + 1, text.push(chars[i]), start)
    }
}

/// The first index at or after `i` holding `'`, or the end.
pub open spec fn quote_end(chars: Seq<char>, i: int) -> int
    decreases chars.len() - i,
{
    if 0 <= i < chars.len() && chars[i] != '\'' {
        quote_end(chars, i + 1)
    } else {
        i
    }
}

/// The first index at or after `i` that is not a numeric character.
pub open spec fn numeric_end(chars: Seq<char>, i: int) -> int
    decreases chars.len() - i,
{
    if 0 <= i < chars.len() && char_is_numeric(chars[i]) {
        numeric_end(chars, i + 1)
    } else {
        i
    }
}

/// The first index at or after `i` that is not alphabetic.
pub open spec fn alphabetic_end(chars: Seq<char>, i: int) -> int
    decreases chars.len() - i,
{
    if 0 <= i < chars.len() && char_is_alphabetic(chars[i]) {
        alphabetic_end(chars, i + 1)
    } else {
        i
    }
}

/// Can `c` continue an identifier?
pub open spec fn is_identifier_char(c: char) -> bool {
    char_is_alphabetic(c) || char_is_numeric(c) || c == '_'
}

/// The first index at or after `i` that cannot continue an identifier.
pub open spec fn identifier_end(chars: Seq<char>, i: int) -> int
    decreases chars.len() - i,
{
    if 0 <= i < chars.len() && is_identifier_char(chars[i]) {
        identifier_end(chars, i + 1)
    } else {
        i
    }
}

/// Every character is alphabetic.
pub open spec fn all_alphabetic(s: Seq<char>) -> bool {
    forall|k: int| 0 <= k < s.len() ==> char_is_alphabetic(#[trigger] s[k])
}

/// The character at `i`, if there is one.
pub open spec fn char_at(chars: Seq<char>, i: int) -> Option<char> {
    if 0 <= i < chars.len() { Some(chars[i]) } else { None }
}

/// A cell-reference tail `:[$]digits` after a column name that ends at
/// `colon` (where `:` stands): `None` when no digits follow (the name stays
/// a plain identifier).
pub open spec fn cell_tail(chars: Seq<char>, column: Seq<char>, start: int, pin_column: bool, colon: int) -> Option<Step> {
    let pin_row = char_at(chars, colon + 1) == Some('$');
    let row_start = if pin_row { colon + 2 } else { colon + 1 };
    if !(char_at(chars, row_start) matches Some(d) && char_is_numeric(d)) {
        None
    } else {
        let row_end = numeric_end(chars, row_start);
        match i64_literal(chars.subrange(row_start, row_end)) {
            Some(row) => Some(Step::Token(LexedKind::CellReference(column, row, pin_column, pin_row), start, row_end)),
            None => Some(Step::Fail("cell row out of range"@, row_start)),
        }
    }
}

/// Scanning a decimal literal from `i`: the first index past it and
/// whether a `.` was taken. A `.` counts once; `e`/`E` counts only before
/// (an optional sign and) a digit, and then the exponent digits end it.
pub open spec fn number_scan(chars: Seq<char>, i: int, saw_dot: bool) -> (int, bool)
    decreases chars.len() - i,
{
    if i < 0 || i >= chars.len() {
        (i, saw_dot)
    } else if is_ascii_digit(chars[i]) || chars[i] == '_' {
        number_scan(chars, i + 1, saw_dot)
    } else if chars[i] == '.' && !saw_dot {
        number_scan(chars, i + 1, true)
    } else if chars[i] == 'e' || chars[i] == 'E' {
        let signed = char_at(chars, i + 1) == Some('+') || char_at(chars, i + 1) == Some('-');
        let peek = if signed { i + 2 } else { i + 1 };
        if char_at(chars, peek) matches Some(d) && char_is_numeric(d) {
            (numeric_end(chars, peek + 1), saw_dot)
        } else {
            (i, saw_dot)
        }
    } else {
        (i, saw_dot)
    }
}

/// Is `c` a digit of the radix (16 or 2)?
pub open spec fn radix_digit(c: char, radix: int) -> Option<int> {
    if radix == 16 {
        match hex_digit_value(c) {
            Some(v) => Some(v as int),
            None => None,
        }
    } else if c == '0' {
        Some(0)
    } else if c == '1' {
        Some(1)
    } else {
        None
    }
}

/// The first index at or after `i` that is neither `_` nor a digit.
pub open spec fn radix_end(chars: Seq<char>, i: int, radix: int) -> int
    decreases chars.len() - i,
{
    if 0 <= i < chars.len() && (chars[i] == '_' || radix_digit(chars[i], radix).is_some()) {
        radix_end(chars, i + 1, radix)
    } else {
        i
    }
}

/// The value of a run of digits and `_` separators in the radix.
pub open spec fn radix_value(s: Seq<char>, radix: int) -> int
    decreases s.len(),
{
    if s.len() == 0 {
        0
    } else {
        match radix_digit(s.last(), radix) {
            Some(d) => radix_value(s.drop_last(), radix) * radix + d,
            None => radix_value(s.drop_last(), radix),
        }
    }
}

/// How many digits (not separators) a run holds.
pub open spec fn radix_digit_count(s: Seq<char>) -> int
    decreases s.len(),
{
    if s.len() == 0 {
        0
    } else if s.last() == '_' {
        radix_digit_count(s.drop_last())
    } else {
        radix_digit_count(s.drop_last()) + 1
    }
}

/// "hex" or "binary".
pub open spec fn radix_name(radix: int) -> Seq<char> {
    if radix == 16 { "hex"@ } else { "binary"@ }
}

/// A `0x…` / `0b…` literal starting at `start`.
pub open spec fn radix_literal(chars: Seq<char>, start: int, radix: int) -> Step {
    let end = radix_end(chars, start + 2, radix);
    let body = chars.subrange(start + 2, end);
    if radix_digit_count(body) == 0 {
        Step::Fail(radix_name(radix) + " literal needs digits"@, start)
    } else if char_at(chars, end) matches Some(c) && (char_is_alphabetic(c) || char_is_numeric(c) || c == '.') {
        Step::Fail("malformed "@ + radix_name(radix) + " literal '"@ + chars.subrange(start, end + 1) + seq!['\''], start)
    } else {
        Step::Token(LexedKind::Number(canonical(radix_value(body, radix), 0)), start, end)
    }
}

/// A number literal starting at `start`.
pub open spec fn number_literal(chars: Seq<char>, start: int) -> Step {
    let next = char_at(chars, start + 1);
    if chars[start] == '0' && (next == Some('x') || next == Some('X')) {
        radix_literal(chars, start, 16)
    } else if chars[start] == '0' && (next == Some('b') || next == Some('B')) {
        radix_literal(chars, start, 2)
    } else {
        let (end, saw_dot) = number_scan(chars, start, false);
        let text = chars.subrange(start, end);
        if saw_dot && char_at(chars, end) == Some('.') {
            Step::Fail("malformed number '"@ + chars.subrange(start, end + 1) + seq!['\''], start)
        } else if !literal_fits(text) {
            Step::Overflow
        } else {
            match literal_value(text) {
                Some(v) => Step::Token(LexedKind::Number(canonical(v.0, v.1)), start, end),
                None => Step::Fail("malformed number '"@ + text + seq!['\''], start),
            }
        }
    }
}

/// The message for a `$` that does not pin a cell reference.
pub open spec fn pin_message() -> Seq<char> {
    "'$' pins a cell reference — write $A:1, A:$1, or $A:$1"@
}

/// A `'quoted name'` starting at `start`.
pub open spec fn quoted_step(chars: Seq<char>, start: int) -> Step {
    let end = quote_end(chars, start + 1);
    if end >= chars.len() {
        Step::Fail("unterminated sheet name quote"@, start)
    } else {
        Step::Token(LexedKind::QuotedName(chars.subrange(start + 1, end)), start, end + 1)
    }
}

/// A `$`-pinned cell reference starting at `start`.
pub open spec fn pinned_step(chars: Seq<char>, start: int) -> Step {
    let name_end = alphabetic_end(chars, start + 1);
    let name = chars.subrange(start + 1, name_end);
    if name.len() > 0 && char_at(chars, name_end) == Some(':') {
        match cell_tail(chars, name, start, true, name_end) {
            Some(step) => step,
            None => Step::Fail(pin_message(), start),
        }
    } else {
        Step::Fail(pin_message(), start)
    }
}

/// An identifier (or a cell reference `A:1`) starting at `start`.
pub open spec fn identifier_step(chars: Seq<char>, start: int) -> Step {
    let end = identifier_end(chars, start);
    let name = chars.subrange(start, end);
    if all_alphabetic(name) && char_at(chars, end) == Some(':') {
        match cell_tail(chars, name, start, false, end) {
            Some(step) => step,
            None => Step::Token(LexedKind::Identifier(name), start, end),
        }
    } else {
        Step::Token(LexedKind::Identifier(name), start, end)
    }
}

/// One token starting at `start`, which holds no whitespace.
pub open spec fn scan(chars: Seq<char>, start: int) -> Step {
    if start < 0 || start >= chars.len() {
        Step::Done
    } else {
        let c = chars[start];
        let two = match char_at(chars, start + 1) {
            Some(n) => two_char_kind(c, n),
            None => None,
        };
        if c == '#' {
            Step::Done
        } else if two.is_some() {
            Step::Token(LexedKind::Other(two.unwrap()), start, start + 2)
        } else if c == '.' {
            if char_at(chars, start + 1) matches Some(d) && char_is_numeric(d) {
                number_literal(chars, start)
            } else {
                Step::Token(LexedKind::Other(TokenKind::Dot), start, start + 1)
            }
        } else if simple_kind(c).is_some() {
            Step::Token(simple_kind(c).unwrap(), start, start + 1)
        } else if c == '"' {
            string_scan(chars, start + 1, Seq::empty(), start)
        } else if c == '\'' {
            quoted_step(chars, start)
        } else if char_is_numeric(c) {
            number_literal(chars, start)
        } else if c == '$' {
            pinned_step(chars, start)
        } else if char_is_alphabetic(c) || c == '_' {
            identifier_step(chars, start)
        } else {
            Step::Fail("unexpected character '"@ + seq![c] + seq!['\''], start)
        }
    }
}

/// Where a line's `#` comment starts, scanning from `i` (inside a string
/// literal when `in_string`): a `#` inside `"…"` does not count, and a `\`
/// inside a string skips the character after it.
pub open spec fn comment_start(chars: Seq<char>, i: int, in_string: bool) -> Option<int>
    decreases chars.len() + 1 - i,
{
    if i < 0 || i >= chars.len() {
        None
    } else if in_string {
        if chars[i] == '\\' {
            comment_start(chars, i + 2, true)
        } else if chars[i] == '"' {
            comment_start(chars, i + 1, false)
        } else {
            comment_start(chars, i + 1, true)
        }
    } else if chars[i] == '"' {
        comment_start(chars, i + 1, true)
    } else if chars[i] == '#' {
        Some(i)
    } else {
        comment_start(chars, i + 1, false)
    }
}

/// A line split into its code and its trimmed trailing comment.
pub open spec fn split_comment_of(s: Seq<char>) -> (Seq<char>, Option<Seq<char>>) {
    match comment_start(s, 0, false) {
        Some(i) => (s.take(i), Some(trimmed(s.skip(i + 1)))),
        None => (s, None),
    }
}

/// Lexes the line from `i` to the end.
pub open spec fn lex_from(chars: Seq<char>, i: int) -> Lexed
    decreases chars.len() - i,
{
    let start = skip_whitespace(chars, i);
    if i < 0 || i > chars.len() {
        Lexed::Tokens(Seq::empty())
    } else {
        match scan(chars, start) {
            Step::Done => Lexed::Tokens(Seq::empty()),
            Step::Token(kind, s, e) => {
                if i < e <= chars.len() {
                    match lex_from(chars, e) {
                        Lexed::Tokens(rest) => Lexed::Tokens(seq![(kind, s, e)] + rest),
                        other => other,
                    }
                } else {
                    Lexed::Tokens(Seq::empty())
                }
            }
            Step::Fail(message, position) => Lexed::Error(message, position),
            Step::Overflow => Lexed::Overflow,
        }
    }
}

/// The ASCII spelling of a typographic operator glyph.
pub open spec fn ascii_spelling(c: char) -> Option<Seq<char>> {
    if c == '≤' {
        Some("<="@)
    } else if c == '≥' {
        Some(">="@)
    } else if c == '≠' {
        Some("!="@)
    } else if c == '×' || c == '·' {
        Some("*"@)
    } else if c == '÷' {
        Some("/"@)
    } else if c == '−' {
        Some("-"@)
    } else {
        None
    }
}

/// A typographic glyph (`≤ ≥ ≠ × · ÷ −`) lexes to the same token as its
/// ASCII spelling (`<= >= != * * / -`).
pub proof fn lemma_typographic_glyphs(c: char)
    ensures
        ascii_spelling(c) matches Some(s) ==> simple_kind(c) == (if s.len() == 2 {
            match two_char_kind(s[0], s[1]) {
                Some(k) => Some(LexedKind::Other(k)),
                None => None,
            }
        } else {
            simple_kind(s[0])
        }),
{
    reveal_strlit("<=");
    reveal_strlit(">=");
    reveal_strlit("!=");
    reveal_strlit("*");
    reveal_strlit("/");
    reveal_strlit("-");
}

} // verus!
