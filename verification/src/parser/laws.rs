//! What holds of the grammar as a whole.

use vstd::prelude::*;
use super::grammar::{Parse, parsed, kind_at, is_at, position_at, reserved, is_reduction_name};
use crate::lexer::token::TokenKind;
use crate::lexer::token::LexedKind;
use crate::mode::LanguageMode;
use super::grammar::comparison_of;
use crate::ast::{ComparisonOperator, comparison_symbol};
use crate::lexer::grammar::{two_char_kind, simple_kind};

verus! {

/// Scientific mode is grammatically identical to Normal: a line's tokens
/// parse to the same tree, or fail with the same error, in both (the modes
/// differ only in how a result is echoed).
pub proof fn lemma_scientific_parses_as_normal(ts: Seq<(LexedKind, int, int)>)
    ensures
        parsed(ts, LanguageMode::Scientific) == parsed(ts, LanguageMode::Normal),
{
}

/// A reserved name (`ans`, `pi`, `if`, … in any letter case) cannot be
/// assigned: `name = …` is an error pointing at the name.
pub proof fn lemma_reserved_names_are_not_assignable(ts: Seq<(LexedKind, int, int)>, mode: LanguageMode, name: Seq<char>)
    requires
        kind_at(ts, 0) == LexedKind::Identifier(name),
        is_at(ts, 1, TokenKind::Assign),
        reserved(name),
        !is_reduction_name(name),
    ensures
        parsed(ts, mode) == Parse::<crate::ast::tree::Tree>::Fail(
            "cannot assign to '"@ + name + "'"@,
            position_at(ts, 0),
        ),
{
}

/// The token a glyph of one or two characters lexes to, on its own.
pub open spec fn glyph_kind(g: Seq<char>) -> Option<LexedKind> {
    if g.len() == 2 {
        match two_char_kind(g[0], g[1]) {
            Some(k) => Some(LexedKind::Other(k)),
            None => None,
        }
    } else if g.len() == 1 {
        simple_kind(g[0])
    } else {
        None
    }
}

/// Every comparison is parsed from its own glyph: the token that the
/// operator's symbol (`<`, `<=`, `==`, …) lexes to is read back as that
/// operator, and any token read as a comparison reads as the operator whose
/// symbol lexes to it.
pub proof fn lemma_comparison_glyphs(op: ComparisonOperator, k: LexedKind)
    ensures
        glyph_kind(comparison_symbol(op)) matches Some(t) && comparison_of(t) == Some(op),
        comparison_of(k) == Some(op) ==> glyph_kind(comparison_symbol(op)) == Some(k),
{
    reveal_strlit("<");
    reveal_strlit(">");
    reveal_strlit("<=");
    reveal_strlit(">=");
    reveal_strlit("==");
    reveal_strlit("!=");
}

} // verus!
