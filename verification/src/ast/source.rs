//! A re-parseable rendering of an expression, used for lambda values'
//! display and for workbook persistence, so the contract is round-tripping,
//! not prettiness: compound subexpressions are parenthesized conservatively
//! rather than by precedence analysis.

use vstd::prelude::*;
use super::{Expression, MapLiteralEntry, Parameter, BinaryOperator, ReductionOperation, parameter_text, binary_symbol,
    comparison_symbol};
use crate::eval::currency::{str_equal, symbol_of};
use crate::eval::data_type::{DataField, declaration_of, field_text, declaration_text};
use crate::mode::LanguageMode;
use crate::number::{BigDecimal, negation, digit_count_of};
use crate::number::format::{formatted_text, formatted_fits};
use crate::text::{is_ascii_char, chars_of, push_char, is_alphabetic, is_numeric, char_is_alphabetic, char_is_numeric, int_text,
    i64_text, join, joined_with, views_of, to_lowercase, lowercase, ascii_folded, eq_ignore_ascii_case};
use crate::lexer::grammar::{is_identifier_char, identifier_end, identifier_step, scan, string_scan, Step, char_at, all_alphabetic,
    skip_whitespace, lex_from, Lexed};
use crate::lexer::lex;
use crate::lexer::token::LexedKind;

verus! {

/// How the string scanner's escapes spell one character.
pub open spec fn escape_of(c: char) -> Seq<char> {
    if c == '\\' {
        seq!['\\', '\\']
    } else if c == '"' {
        seq!['\\', '"']
    } else if c == '\n' {
        seq!['\\', 'n']
    } else if c == '\t' {
        seq!['\\', 't']
    } else {
        seq![c]
    }
}

/// The escaped body of a string literal.
pub open spec fn escaped_text(t: Seq<char>) -> Seq<char>
    decreases t.len(),
{
    if t.len() == 0 {
        Seq::empty()
    } else {
        escape_of(t[0]) + escaped_text(t.skip(1))
    }
}

/// `t` as a string literal: quotes around the escaped body.
pub open spec fn quoted_text(t: Seq<char>) -> Seq<char> {
    seq!['"'] + escaped_text(t) + seq!['"']
}

/// Does the text lex back as one bare identifier (a letter or `_`, then
/// letters, digits and `_`)?
pub open spec fn is_plain_key(key: Seq<char>) -> bool {
    &&& key.len() > 0
    &&& (char_is_alphabetic(key[0]) || key[0] == '_')
    &&& forall|i: int| 1 <= i < key.len() ==> is_identifier_char(#[trigger] key[i])
}

/// A map key as source: bare when it re-lexes as an identifier, else
/// quoted.
pub open spec fn key_text(key: Seq<char>) -> Seq<char> {
    if is_plain_key(key) { key } else { quoted_text(key) }
}

/// A sheet name's qualifier prefix: `Budget!`, `'Q1 Budget'!`, or nothing.
pub open spec fn sheet_prefix(sheet: Option<Seq<char>>) -> Seq<char> {
    match sheet {
        None => Seq::empty(),
        Some(s) => if s.len() > 0 && char_is_alphabetic(s[0]) && (forall|i: int|
            0 <= i < s.len() ==> is_identifier_char(#[trigger] s[i])) {
            s + seq!['!']
        } else {
            seq!['\''] + s + seq!['\'', '!']
        },
    }
}

/// Quotes a string with the language's `\" \\ \n \t` escapes: the exact
/// inverse of the lexer's string scanner.
pub fn quoted(text: &str) -> (r: String)
    ensures
        r@ == quoted_text(text@),
{
    let chars = chars_of(text);
    let mut body = String::new();
    let mut i: usize = chars.len();
    while i > 0
        invariant
            chars@ == text@,
            i <= chars@.len(),
            body@ == escaped_text(chars@.skip(i as int)),
        decreases i,
    {
        i -= 1;
        let c = chars[i];
        let mut piece = String::new();
        if c == '\\' {
            push_char(&mut piece, '\\');
            push_char(&mut piece, '\\');
        } else if c == '"' {
            push_char(&mut piece, '\\');
            push_char(&mut piece, '"');
        } else if c == '\n' {
            push_char(&mut piece, '\\');
            push_char(&mut piece, 'n');
        } else if c == '\t' {
            push_char(&mut piece, '\\');
            push_char(&mut piece, 't');
        } else {
            push_char(&mut piece, c);
        }
        proof {
            assert(piece@ =~= escape_of(c));
            assert(chars@.skip(i as int).skip(1) =~= chars@.skip(i + 1));
            assert(chars@.skip(i as int)[0] == c);
        }
        piece.append(body.as_str());
        body = piece;
    }
    let mut out = String::new();
    push_char(&mut out, '"');
    out.append(body.as_str());
    push_char(&mut out, '"');
    proof {
        assert(chars@.skip(0) =~= chars@);
        assert(out@ =~= quoted_text(text@));
    }
    out
}

/// Whether every character of `chars[from..]` can continue an identifier.
fn identifier_tail(chars: &Vec<char>, from: usize) -> (r: bool)
    requires
        from <= chars@.len(),
    ensures
        r == forall|i: int| from <= i < chars@.len() ==> is_identifier_char(#[trigger] chars@[i]),
{
    let mut i = from;
    while i < chars.len()
        invariant
            from <= i <= chars@.len(),
            forall|j: int| from <= j < i ==> is_identifier_char(#[trigger] chars@[j]),
        decreases chars@.len() - i,
    {
        let c = chars[i];
        if !(is_alphabetic(c) || is_numeric(c) || c == '_') {
            return false;
        }
        i += 1;
    }
    true
}

/// A map key as source: bare when it re-lexes as an identifier, else a
/// quoted string literal.
pub fn key_literal(key: &str) -> (r: String)
    ensures
        r@ == key_text(key@),
{
    let chars = chars_of(key);
    let plain = chars.len() > 0 && (is_alphabetic(chars[0]) || chars[0] == '_') && identifier_tail(&chars, 1);
    proof {
        if chars@.len() > 0 {
            assert(plain == is_plain_key(key@));
        }
    }
    if plain {
        String::from_str(key)
    } else {
        quoted(key)
    }
}

/// The sheet qualifier prefix: `Budget!` for a plain name, `'Q1 Budget'!`
/// otherwise, nothing for no sheet.
pub fn qualified(sheet: Option<&str>) -> (r: String)
    ensures
        r@ == sheet_prefix(match sheet { Some(s) => Some(s@), None => None }),
{
    match sheet {
        None => String::new(),
        Some(name) => {
            let chars = chars_of(name);
            let plain = chars.len() > 0 && is_alphabetic(chars[0]) && identifier_tail(&chars, 0);
            if plain {
                let mut out = String::from_str(name);
                push_char(&mut out, '!');
                out
            } else {
                let mut out = String::new();
                push_char(&mut out, '\'');
                out.append(name);
                push_char(&mut out, '\'');
                push_char(&mut out, '!');
                proof {
                    assert(out@ =~= seq!['\''] + name@ + seq!['\'', '!']);
                }
                out
            }
        }
    }
}

/// Can every number in `e` be rendered (its digit arithmetic fits the
/// machine)?
pub open spec fn renderable(e: Expression) -> bool
    decreases e,
{
    match e {
        Expression::Number(v) | Expression::Grouped(v) => v.wf() && formatted_fits(v@, 30),
        Expression::Money { value, .. } => value.wf() && formatted_fits(value@, 30),
        Expression::UnaryMinus(inner) | Expression::Percent(inner) => renderable(*inner),
        Expression::Binary(_, lhs, rhs) | Expression::Comparison(_, lhs, rhs) => renderable(*lhs) && renderable(*rhs),
        Expression::Call { arguments, .. } => all_renderable(arguments@),
        Expression::Assignment { value, .. } => renderable(*value),
        Expression::FunctionDefinition { body, .. } => renderable(*body),
        Expression::Reduction { lower, upper, body, .. } => renderable(*lower) && renderable(*upper) && renderable(*body),
        Expression::Conditional { condition, then, otherwise } => renderable(*condition) && renderable(*then)
            && renderable(*otherwise),
        Expression::ArrayLiteral(items) => all_renderable(items@),
        Expression::MapLiteral(entries) => entries_renderable(entries@),
        Expression::Index { base, index } => renderable(*base) && renderable(*index),
        Expression::Member { base, .. } => renderable(*base),
        Expression::MethodCall { base, arguments, .. } => renderable(*base) && all_renderable(arguments@),
        Expression::Lambda { body, .. } => renderable(*body),
        Expression::NamespaceDefinition { members, .. } => all_renderable(members@),
        _ => true,
    }
}

/// Every expression of `s` is renderable.
pub open spec fn all_renderable(s: Seq<Expression>) -> bool
    decreases s,
{
    if s.len() == 0 { true } else { all_renderable(s.drop_last()) && renderable(s.last()) }
}

/// Every value of the map-literal entries is renderable.
pub open spec fn entries_renderable(s: Seq<MapLiteralEntry>) -> bool
    decreases s,
{
    if s.len() == 0 { true } else { entries_renderable(s.drop_last()) && renderable(s.last().value) }
}

/// The Programmer-mode infix glyph of a canonical two-argument bitwise or
/// modulo call (named in lowercase).
pub open spec fn infix_glyph(lowered: Seq<char>) -> Option<Seq<char>> {
    if lowered == "bitxor"@ {
        Some(seq!['^'])
    } else if lowered == "bitand"@ {
        Some(seq!['&'])
    } else if lowered == "bitor"@ {
        Some(seq!['|'])
    } else if lowered == "mod"@ {
        Some(seq!['%'])
    } else {
        None
    }
}

/// `(lhs op rhs)`.
pub open spec fn infix_text(lhs: Seq<char>, op: Seq<char>, rhs: Seq<char>) -> Seq<char> {
    seq!['('] + lhs + seq![' '] + op + seq![' '] + rhs + seq![')']
}

/// The re-parseable rendering of `e` under a display dialect: only the
/// overloaded glyphs (`^ % & | << >>`) differ between modes.
pub open spec fn source_of(e: Expression, mode: LanguageMode) -> Seq<char>
    decreases e,
{
    match e {
        Expression::Number(v) | Expression::Grouped(v) => formatted_text(v@, 30),
        Expression::Money { value, currency } => {
            let negative = value@.0 < 0;
            let magnitude = if negative { negation(value@) } else { value@ };
            (if negative { seq!['-'] } else { Seq::empty() }) + symbol_of(currency) + formatted_text(magnitude, 30)
        }
        Expression::StringLiteral(text) => quoted_text(text@),
        Expression::Variable(name) => name@,
        Expression::CellReference { sheet, column, row } => sheet_prefix(option_view(sheet)) + column@ + seq![':']
            + int_text(row as int),
        Expression::CellRange { sheet, from_column, from_row, to_column, to_row } => sheet_prefix(option_view(sheet))
            + from_column@ + seq![':'] + int_text(from_row as int) + seq!['.', '.'] + to_column@ + seq![':']
            + int_text(to_row as int),
        Expression::UnaryMinus(inner) => seq!['(', '-'] + source_of(*inner, mode) + seq![')'],
        Expression::Percent(inner) => if mode == LanguageMode::Programmer {
            seq!['('] + source_of(*inner, mode) + " * 0.01)"@
        } else {
            source_of(*inner, mode) + seq!['%']
        },
        Expression::Binary(op, lhs, rhs) => if mode == LanguageMode::Programmer && op == BinaryOperator::Power {
            "pow("@ + source_of(*lhs, mode) + seq![',', ' '] + source_of(*rhs, mode) + seq![')']
        } else {
            infix_text(source_of(*lhs, mode), binary_symbol(op), source_of(*rhs, mode))
        },
        Expression::Comparison(op, lhs, rhs) => infix_text(source_of(*lhs, mode), comparison_symbol(op),
            source_of(*rhs, mode)),
        Expression::Call { name, arguments } => {
            let args = arguments@;
            let lowered = lowercase(name@);
            if mode == LanguageMode::Programmer && ascii_folded(name@) == ascii_folded("bitnot"@) && args.len() == 1 {
                seq!['~'] + source_of(args[0], mode)
            } else if mode == LanguageMode::Programmer && args.len() == 2 && infix_glyph(lowered) is Some {
                infix_text(source_of(args[0], mode), infix_glyph(lowered).unwrap(), source_of(args[1], mode))
            } else if mode == LanguageMode::Programmer && args.len() == 2 && lowered == "bitshift"@ {
                match args[1] {
                    Expression::UnaryMinus(inner) => infix_text(source_of(args[0], mode), seq!['>', '>'],
                        source_of(*inner, mode)),
                    _ => infix_text(source_of(args[0], mode), seq!['<', '<'], source_of(args[1], mode)),
                }
            } else {
                name@ + seq!['('] + joined_with(sources_of(args, mode), ", "@) + seq![')']
            }
        }
        Expression::Conditional { condition, then, otherwise } => "if("@ + source_of(*condition, mode) + ", "@
            + source_of(*then, mode) + ", "@ + source_of(*otherwise, mode) + seq![')'],
        Expression::Assignment { name, value } => name@ + " = "@ + source_of(*value, mode),
        Expression::FunctionDefinition { name, parameters, body } => name@ + seq!['('] + joined_with(
            parameters@.map_values(|p: Parameter| parameter_text(p)), ", "@) + ") = "@ + source_of(*body, mode),
        Expression::Reduction { operation, index, lower, upper, body } => (if operation == ReductionOperation::Sum {
            "sigma"@
        } else {
            "product"@
        }) + seq!['_'] + index@ + "=("@ + source_of(*lower, mode) + ")^("@ + source_of(*upper, mode) + ")("@
            + source_of(*body, mode) + seq![')'],
        Expression::HelpRequest { name } => "man "@ + name@,
        Expression::ArrayLiteral(items) => seq!['['] + joined_with(sources_of(items@, mode), ", "@) + seq![']'],
        Expression::MapLiteral(entries) => seq!['{'] + joined_with(entry_sources_of(entries@, mode), ", "@)
            + seq!['}'],
        Expression::Index { base, index } => source_of(*base, mode) + seq!['['] + source_of(*index, mode) + seq![']'],
        Expression::Member { base, name } => source_of(*base, mode) + seq!['.'] + name@,
        Expression::MethodCall { base, name, arguments } => source_of(*base, mode) + seq!['.'] + name@ + seq!['(']
            + joined_with(sources_of(arguments@, mode), ", "@) + seq![')'],
        Expression::Lambda { parameters, body } => seq!['('] + joined_with(views_of(parameters@), ", "@) + ") -> "@
            + source_of(*body, mode),
        Expression::NameReference { sheet, name } => sheet_prefix(option_view(sheet)) + seq!['\''] + name@
            + seq!['\''],
        Expression::DataDefinition { name, fields } => declaration_of(name@, fields@),
        Expression::NamespaceDefinition { name, members } => "namespace "@ + name@ + " { "@ + joined_with(
            sources_of(members@, mode), "; "@) + " }"@,
        Expression::ImportDirective { name } => "import "@ + name@,
    }
}

/// The renderings of a sequence of expressions.
pub open spec fn sources_of(s: Seq<Expression>, mode: LanguageMode) -> Seq<Seq<char>>
    decreases s,
{
    if s.len() == 0 {
        Seq::empty()
    } else {
        sources_of(s.drop_last(), mode).push(source_of(s.last(), mode))
    }
}

/// The renderings of map-literal entries: `key: value`.
pub open spec fn entry_sources_of(s: Seq<MapLiteralEntry>, mode: LanguageMode) -> Seq<Seq<char>>
    decreases s,
{
    if s.len() == 0 {
        Seq::empty()
    } else {
        entry_sources_of(s.drop_last(), mode).push(key_text(s.last().key@) + ": "@ + source_of(s.last().value, mode))
    }
}

/// An optional string by its view.
pub open spec fn option_view(o: Option<String>) -> Option<Seq<char>> {
    match o {
        Some(s) => Some(s@),
        None => None,
    }
}

/// Every element of a renderable sequence is renderable.
proof fn lemma_all_renderable(s: Seq<Expression>, i: int)
    requires
        all_renderable(s),
        0 <= i < s.len(),
    ensures
        renderable(s[i]),
    decreases s.len(),
{
    if i < s.len() - 1 {
        lemma_all_renderable(s.drop_last(), i);
    }
}

/// Every value of renderable entries is renderable.
proof fn lemma_entries_renderable(s: Seq<MapLiteralEntry>, i: int)
    requires
        entries_renderable(s),
        0 <= i < s.len(),
    ensures
        renderable(s[i].value),
    decreases s.len(),
{
    if i < s.len() - 1 {
        lemma_entries_renderable(s.drop_last(), i);
    }
}

/// An optional owned name as an optional `&str`.
fn sheet_str(sheet: &Option<String>) -> (r: Option<&str>)
    ensures
        match r {
            Some(s) => option_view(*sheet) == Some(s@),
            None => option_view(*sheet).is_none(),
        },
{
    match sheet {
        Some(s) => Some(s.as_str()),
        None => None,
    }
}

/// `(lhs op rhs)`.
fn infix(lhs: String, op: &str, rhs: String) -> (r: String)
    ensures
        r@ == infix_text(lhs@, op@, rhs@),
{
    let mut out = String::new();
    push_char(&mut out, '(');
    out.append(lhs.as_str());
    push_char(&mut out, ' ');
    out.append(op);
    push_char(&mut out, ' ');
    out.append(rhs.as_str());
    push_char(&mut out, ')');
    proof {
        assert(out@ =~= infix_text(lhs@, op@, rhs@));
    }
    out
}

impl Expression {
    /// Canonical (Normal-mode) rendering: what value descriptions and
    /// workbook persistence get.
    pub fn source_text(&self) -> (r: String)
        requires
            renderable(*self),
        ensures
            r@ == source_of(*self, LanguageMode::Normal),
    {
        self.source_text_in(LanguageMode::Normal)
    }

    /// Renders under a display dialect. Only the overloaded glyphs differ
    /// between modes (`^ % & | << >>`): in Programmer the canonical
    /// bitwise/mod calls and the power/percent nodes render with their infix
    /// glyphs; in Normal/Scientific they render as the canonical function,
    /// `^` and `%`. The result re-parses under the same mode.
    pub fn source_text_in(&self, mode: LanguageMode) -> (r: String)
        requires
            renderable(*self),
        ensures
            r@ == source_of(*self, mode),
        decreases self, 0int,
    {
        let programmer = matches!(mode, LanguageMode::Programmer);
        match self {
            Expression::Number(value) => value.to_string(),
            Expression::Grouped(value) => value.to_string(),
            Expression::Money { value, currency } => {
                let negative = value.is_negative();
                let magnitude = if negative { value.neg() } else { value.copy() };
                let mut out = String::new();
                if negative {
                    push_char(&mut out, '-');
                }
                out.append(currency.symbol());
                let digits = magnitude.to_string();
                out.append(digits.as_str());
                proof {
                    assert(out@ =~= source_of(*self, mode));
                }
                out
            }
            Expression::StringLiteral(text) => quoted(text.as_str()),
            Expression::Variable(name) => name.clone(),
            Expression::CellReference { sheet, column, row } => {
                let mut out = qualified(sheet_str(sheet));
                out.append(column.as_str());
                push_char(&mut out, ':');
                let row_text = i64_text(*row);
                out.append(row_text.as_str());
                proof {
                    assert(out@ =~= source_of(*self, mode));
                }
                out
            }
            Expression::CellRange { sheet, from_column, from_row, to_column, to_row } => {
                let mut out = qualified(sheet_str(sheet));
                out.append(from_column.as_str());
                push_char(&mut out, ':');
                let from_text = i64_text(*from_row);
                out.append(from_text.as_str());
                push_char(&mut out, '.');
                push_char(&mut out, '.');
                out.append(to_column.as_str());
                push_char(&mut out, ':');
                let to_text = i64_text(*to_row);
                out.append(to_text.as_str());
                proof {
                    assert(out@ =~= source_of(*self, mode));
                }
                out
            }
            Expression::UnaryMinus(inner) => {
                let mut out = String::new();
                push_char(&mut out, '(');
                push_char(&mut out, '-');
                let text = inner.source_text_in(mode);
                out.append(text.as_str());
                push_char(&mut out, ')');
                proof {
                    assert(out@ =~= source_of(*self, mode));
                }
                out
            }
            Expression::Percent(inner) => {
                let text = inner.source_text_in(mode);
                let mut out = String::new();
                if programmer {
                    push_char(&mut out, '(');
                    out.append(text.as_str());
                    out.append(" * 0.01)");
                } else {
                    out.append(text.as_str());
                    push_char(&mut out, '%');
                }
                proof {
                    assert(out@ =~= source_of(*self, mode));
                }
                out
            }
            Expression::Binary(op, lhs, rhs) => {
                let left = lhs.source_text_in(mode);
                let right = rhs.source_text_in(mode);
                if programmer && matches!(op, BinaryOperator::Power) {
                    let mut out = String::from_str("pow(");
                    out.append(left.as_str());
                    push_char(&mut out, ',');
                    push_char(&mut out, ' ');
                    out.append(right.as_str());
                    push_char(&mut out, ')');
                    proof {
                        assert(out@ =~= source_of(*self, mode));
                    }
                    out
                } else {
                    infix(left, op.symbol(), right)
                }
            }
            Expression::Comparison(op, lhs, rhs) => {
                let left = lhs.source_text_in(mode);
                let right = rhs.source_text_in(mode);
                infix(left, op.symbol(), right)
            }
            Expression::Call { name, arguments } => Self::call_text(name, arguments, mode),
            Expression::Conditional { condition, then, otherwise } => {
                let mut out = String::from_str("if(");
                let c = condition.source_text_in(mode);
                out.append(c.as_str());
                out.append(", ");
                let t = then.source_text_in(mode);
                out.append(t.as_str());
                out.append(", ");
                let o = otherwise.source_text_in(mode);
                out.append(o.as_str());
                push_char(&mut out, ')');
                proof {
                    assert(out@ =~= source_of(*self, mode));
                }
                out
            }
            Expression::Assignment { name, value } => {
                let mut out = name.clone();
                out.append(" = ");
                let v = value.source_text_in(mode);
                out.append(v.as_str());
                out
            }
            Expression::FunctionDefinition { name, parameters, body } => {
                let mut rendered: Vec<String> = Vec::new();
                let mut i: usize = 0;
                while i < parameters.len()
                    invariant
                        i <= parameters@.len(),
                        views_of(rendered@) =~= parameters@.take(i as int).map_values(|p: Parameter| parameter_text(p)),
                    decreases parameters@.len() - i,
                {
                    let ghost before = rendered@;
                    rendered.push(parameters[i].rendered());
                    proof {
                        assert(parameters@.take(i + 1).map_values(|p: Parameter| parameter_text(p))
                            =~= parameters@.take(i as int).map_values(|p: Parameter| parameter_text(p)).push(
                            parameter_text(parameters@[i as int])));
                        assert(views_of(rendered@) =~= views_of(before).push(rendered@.last()@));
                    }
                    i += 1;
                }
                proof {
                    assert(parameters@.take(i as int) =~= parameters@);
                }
                let list = join(&rendered, ", ");
                let mut out = name.clone();
                push_char(&mut out, '(');
                out.append(list.as_str());
                out.append(") = ");
                let b = body.source_text_in(mode);
                out.append(b.as_str());
                proof {
                    assert(out@ =~= source_of(*self, mode));
                }
                out
            }
            Expression::Reduction { operation, index, lower, upper, body } => {
                let mut out = if matches!(operation, ReductionOperation::Sum) {
                    String::from_str("sigma")
                } else {
                    String::from_str("product")
                };
                push_char(&mut out, '_');
                out.append(index.as_str());
                out.append("=(");
                let l = lower.source_text_in(mode);
                out.append(l.as_str());
                out.append(")^(");
                let u = upper.source_text_in(mode);
                out.append(u.as_str());
                out.append(")(");
                let b = body.source_text_in(mode);
                out.append(b.as_str());
                push_char(&mut out, ')');
                proof {
                    assert(out@ =~= source_of(*self, mode));
                }
                out
            }
            Expression::HelpRequest { name } => {
                let mut out = String::from_str("man ");
                out.append(name.as_str());
                out
            }
            Expression::ArrayLiteral(items) => {
                let parts = Self::sources(items, mode);
                let body = join(&parts, ", ");
                let mut out = String::new();
                push_char(&mut out, '[');
                out.append(body.as_str());
                push_char(&mut out, ']');
                proof {
                    assert(out@ =~= source_of(*self, mode));
                }
                out
            }
            Expression::MapLiteral(entries) => {
                let parts = Self::entry_sources(entries, mode);
                let body = join(&parts, ", ");
                let mut out = String::new();
                push_char(&mut out, '{');
                out.append(body.as_str());
                push_char(&mut out, '}');
                proof {
                    assert(out@ =~= source_of(*self, mode));
                }
                out
            }
            Expression::Index { base, index } => {
                let mut out = base.source_text_in(mode);
                push_char(&mut out, '[');
                let i = index.source_text_in(mode);
                out.append(i.as_str());
                push_char(&mut out, ']');
                proof {
                    assert(out@ =~= source_of(*self, mode));
                }
                out
            }
            Expression::Member { base, name } => {
                let mut out = base.source_text_in(mode);
                push_char(&mut out, '.');
                out.append(name.as_str());
                proof {
                    assert(out@ =~= source_of(*self, mode));
                }
                out
            }
            Expression::MethodCall { base, name, arguments } => {
                let mut out = base.source_text_in(mode);
                push_char(&mut out, '.');
                out.append(name.as_str());
                push_char(&mut out, '(');
                let parts = Self::sources(arguments, mode);
                let body = join(&parts, ", ");
                out.append(body.as_str());
                push_char(&mut out, ')');
                proof {
                    assert(out@ =~= source_of(*self, mode));
                }
                out
            }
            Expression::Lambda { parameters, body } => {
                let mut out = String::new();
                push_char(&mut out, '(');
                let list = join(parameters, ", ");
                out.append(list.as_str());
                out.append(") -> ");
                let b = body.source_text_in(mode);
                out.append(b.as_str());
                proof {
                    assert(out@ =~= source_of(*self, mode));
                }
                out
            }
            Expression::NameReference { sheet, name } => {
                let mut out = qualified(sheet_str(sheet));
                push_char(&mut out, '\'');
                out.append(name.as_str());
                push_char(&mut out, '\'');
                proof {
                    assert(out@ =~= source_of(*self, mode));
                }
                out
            }
            Expression::DataDefinition { name, fields } => declaration_text(name, fields),
            Expression::NamespaceDefinition { name, members } => {
                let parts = Self::sources(members, mode);
                let body = join(&parts, "; ");
                let mut out = String::from_str("namespace ");
                out.append(name.as_str());
                out.append(" { ");
                out.append(body.as_str());
                out.append(" }");
                out
            }
            Expression::ImportDirective { name } => {
                let mut out = String::from_str("import ");
                out.append(name.as_str());
                out
            }
        }
    }

    /// A call: in Programmer mode the canonical bitwise/mod calls re-spell
    /// as infix (`bitNot(x)` as `~x`; `bitShift(a, -n)` as `a >> n`), every
    /// other call renders as `name(args)`.
    fn call_text(name: &String, arguments: &Vec<Expression>, mode: LanguageMode) -> (r: String)
        requires
            all_renderable(arguments@),
        ensures
            r@ == source_of(Expression::Call { name: *name, arguments: *arguments }, mode),
        decreases arguments, 1int,
    {
        if matches!(mode, LanguageMode::Programmer) {
            if eq_ignore_ascii_case(name.as_str(), "bitnot") && arguments.len() == 1 {
                proof {
                    lemma_all_renderable(arguments@, 0);
                }
                let mut out = String::new();
                push_char(&mut out, '~');
                let text = arguments[0].source_text_in(mode);
                out.append(text.as_str());
                return out;
            }
            if arguments.len() == 2 {
                proof {
                    lemma_all_renderable(arguments@, 0);
                    lemma_all_renderable(arguments@, 1);
                }
                let lowered = to_lowercase(name.as_str());
                let glyph = if str_equal(lowered.as_str(), "bitxor") {
                    Some("^")
                } else if str_equal(lowered.as_str(), "bitand") {
                    Some("&")
                } else if str_equal(lowered.as_str(), "bitor") {
                    Some("|")
                } else if str_equal(lowered.as_str(), "mod") {
                    Some("%")
                } else {
                    None
                };
                match glyph {
                    Some(g) => {
                        proof {
                            reveal_strlit("^");
                            reveal_strlit("&");
                            reveal_strlit("|");
                            reveal_strlit("%");
                        }
                        let lhs = arguments[0].source_text_in(mode);
                        let rhs = arguments[1].source_text_in(mode);
                        return infix(lhs, g, rhs);
                    }
                    None => {}
                }
                if str_equal(lowered.as_str(), "bitshift") {
                    let lhs = arguments[0].source_text_in(mode);
                    match &arguments[1] {
                        Expression::UnaryMinus(inner) => {
                            let rhs = inner.source_text_in(mode);
                            proof {
                                reveal_strlit(">>");
                            }
                            return infix(lhs, ">>", rhs);
                        }
                        _ => {
                            let rhs = arguments[1].source_text_in(mode);
                            proof {
                                reveal_strlit("<<");
                            }
                            return infix(lhs, "<<", rhs);
                        }
                    }
                }
            }
        }
        let parts = Self::sources(arguments, mode);
        let body = join(&parts, ", ");
        let mut out = name.clone();
        push_char(&mut out, '(');
        out.append(body.as_str());
        push_char(&mut out, ')');
        proof {
            assert(out@ =~= source_of(Expression::Call { name: *name, arguments: *arguments }, mode));
        }
        out
    }

    /// The renderings of `items`, in order.
    fn sources(items: &Vec<Expression>, mode: LanguageMode) -> (r: Vec<String>)
        requires
            all_renderable(items@),
        ensures
            views_of(r@) == sources_of(items@, mode),
        decreases items, 0int,
    {
        let mut out: Vec<String> = Vec::new();
        let mut i: usize = 0;
        while i < items.len()
            invariant
                i <= items@.len(),
                all_renderable(items@),
                views_of(out@) =~= sources_of(items@.take(i as int), mode),
            decreases items@.len() - i,
        {
            proof {
                lemma_all_renderable(items@, i as int);
                assert(items@.take(i + 1).drop_last() =~= items@.take(i as int));
            }
            let ghost before = out@;
            out.push(items[i].source_text_in(mode));
            proof {
                assert(views_of(out@) =~= views_of(before).push(out@.last()@));
            }
            i += 1;
        }
        proof {
            assert(items@.take(i as int) =~= items@);
        }
        out
    }

    /// The renderings of map-literal entries, `key: value`, in order.
    fn entry_sources(entries: &Vec<MapLiteralEntry>, mode: LanguageMode) -> (r: Vec<String>)
        requires
            entries_renderable(entries@),
        ensures
            views_of(r@) == entry_sources_of(entries@, mode),
        decreases entries, 0int,
    {
        let mut out: Vec<String> = Vec::new();
        let mut i: usize = 0;
        while i < entries.len()
            invariant
                i <= entries@.len(),
                entries_renderable(entries@),
                views_of(out@) =~= entry_sources_of(entries@.take(i as int), mode),
            decreases entries@.len() - i,
        {
            proof {
                lemma_entries_renderable(entries@, i as int);
                assert(entries@.take(i + 1).drop_last() =~= entries@.take(i as int));
            }
            let entry = &entries[i];
            let mut text = key_literal(entry.key.as_str());
            text.append(": ");
            let value = entry.value.source_text_in(mode);
            text.append(value.as_str());
            let ghost before = out@;
            out.push(text);
            proof {
                assert(views_of(out@) =~= views_of(before).push(out@.last()@));
            }
            i += 1;
        }
        proof {
            assert(entries@.take(i as int) =~= entries@);
        }
        out
    }
}

/// The string scanner reads an escaped body back: from `i`, where `esc`
/// (the escaping of `t`) stands followed by a closing quote, it yields the
/// text collected so far followed by `t`.
proof fn lemma_scan_escaped(c: Seq<char>, i: int, t: Seq<char>, acc: Seq<char>, start: int)
    requires
        0 <= i,
        i + escaped_text(t).len() < c.len(),
        c.subrange(i, i + escaped_text(t).len()) == escaped_text(t),
        c[i + escaped_text(t).len()] == '"',
    ensures
        string_scan(c, i, acc, start) == Step::Token(LexedKind::Str(acc + t), start, i + escaped_text(t).len() + 1),
    decreases t.len(),
{
    let esc = escaped_text(t);
    if t.len() == 0 {
        assert(acc + t =~= acc);
    } else {
        let x = t[0];
        let rest = t.skip(1);
        let e = escape_of(x);
        assert(esc == e + escaped_text(rest));
        assert(c.subrange(i + e.len(), i + esc.len()) =~= escaped_text(rest)) by {
            assert forall|k: int| 0 <= k < escaped_text(rest).len() implies
                c.subrange(i + e.len(), i + esc.len())[k] == escaped_text(rest)[k] by {
                assert(c.subrange(i, i + esc.len())[e.len() + k] == esc[e.len() + k]);
            }
        }
        assert(c[i] == e[0]) by {
            assert(c.subrange(i, i + esc.len())[0] == esc[0]);
        }
        if e.len() == 2 {
            assert(c[i + 1] == e[1]) by {
                assert(c.subrange(i, i + esc.len())[1] == esc[1]);
            }
        }
        lemma_scan_escaped(c, i + e.len(), rest, acc.push(x), start);
        assert(acc.push(x) + rest =~= acc + t);
    }
}

/// `quoted` is the exact inverse of the lexer's string scanner: scanning
/// the quoted form of any text yields one string token holding exactly that
/// text and spanning the whole literal.
pub proof fn lemma_quoted_scans_back(t: Seq<char>)
    ensures
        scan(quoted_text(t), 0) == Step::Token(LexedKind::Str(t), 0, quoted_text(t).len() as int),
{
    let q = quoted_text(t);
    let esc = escaped_text(t);
    assert(q.subrange(1, 1 + esc.len() as int) =~= esc);
    assert(q[1 + esc.len() as int] == '"');
    lemma_scan_escaped(q, 1, t, Seq::empty(), 0);
    assert(Seq::<char>::empty() + t =~= t);
    assert(q[0] == '"');
}

/// The lexer reads the quoted form of any text back as exactly one string
/// token holding that text and spanning the whole line; `Lexer::tokenize`
/// then returns that token followed by `End`.
pub proof fn lemma_quoted_lexes(t: Seq<char>)
    ensures
        lex(quoted_text(t)) == Lexed::Tokens(seq![(LexedKind::Str(t), 0int, quoted_text(t).len() as int)]),
{
    let q = quoted_text(t);
    lemma_quoted_scans_back(t);
    assert(q[0] == '"');
    assert(skip_whitespace(q, 0) == 0);
    let n = q.len() as int;
    assert(skip_whitespace(q, n) == n);
    assert(scan(q, n) == Step::Done);
    assert(lex_from(q, n) == Lexed::Tokens(Seq::<(LexedKind, int, int)>::empty()));
    assert(seq![(LexedKind::Str(t), 0int, n)] + Seq::<(LexedKind, int, int)>::empty() =~= seq![(LexedKind::Str(t), 0int, n)]);
}

/// Past a run of identifier characters, the identifier ends at the end.
proof fn lemma_identifier_end(chars: Seq<char>, i: int)
    requires
        0 <= i <= chars.len(),
        forall|k: int| i <= k < chars.len() ==> is_identifier_char(#[trigger] chars[k]),
    ensures
        identifier_end(chars, i) == chars.len(),
    decreases chars.len() - i,
{
    if i < chars.len() {
        lemma_identifier_end(chars, i + 1);
    }
}

/// A map key renders so that it lexes back to itself: a plain key (one
/// starting with an ASCII letter or `_`) as a bare identifier spanning the
/// whole rendering, any other key as a string literal holding it.
pub proof fn lemma_key_literal_lexes_back(key: Seq<char>)
    ensures
        is_plain_key(key) && is_ascii_char(key[0]) ==> scan(key_text(key), 0) == Step::Token(
            LexedKind::Identifier(key), 0, key.len() as int),
        !is_plain_key(key) ==> scan(key_text(key), 0) == Step::Token(LexedKind::Str(key), 0,
            key_text(key).len() as int),
{
    if is_plain_key(key) {
        if is_ascii_char(key[0]) {
            assert(is_identifier_char(key[0]));
            lemma_identifier_end(key, 0);
            assert(key.subrange(0, key.len() as int) =~= key);
            assert(char_at(key, key.len() as int) is None);
            assert(identifier_step(key, 0) == Step::Token(LexedKind::Identifier(key), 0, key.len() as int));
        }
    } else {
        lemma_quoted_scans_back(key);
    }
}

} // verus!
