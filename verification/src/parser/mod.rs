//! Pratt (precedence-climbing) parser: tokens to an expression tree.

pub mod grammar;
pub mod laws;

mod definitions;
pub mod expressions;
mod primary;
mod references;

use vstd::prelude::*;
use crate::ast::Expression;
use crate::ast::tree::{Tree, tree_of, trees_of};
use crate::error::EngineError;
use crate::eval::currency::str_equal;
use crate::lexer::{Lexer, Token, TokenKind, LexedKind, lex, line_fits, is_lex_error, token_matches};
use crate::lexer::grammar::Lexed;
use crate::mode::LanguageMode;
use crate::text::{to_lowercase, lowercase, chars_of};
use grammar::{Parse, kind_at, position_at, is_at, parsed, starts_with};

verus! {

/// Identifiers that cannot be assigned to (or defined as functions).
/// `sigma` is the special summation form, so a user function would be
/// uncallable anyway.
pub open spec fn reserved_names() -> Seq<Seq<char>> {
    seq!["ans"@, "pi"@, "e"@, "tau"@, "π"@, "τ"@, "sigma"@, "if"@, "man"@, "manual"@, "help"@, "true"@, "false"@,
        "json"@, "rounding"@]
}

/// The reserved names, in order.
pub fn reserved_name_list() -> (r: [&'static str; 15])
    ensures
        r@.map_values(|s: &str| s@) == reserved_names(),
{
    let r = ["ans", "pi", "e", "tau", "π", "τ", "sigma", "if", "man", "manual", "help", "true", "false", "json",
        "rounding"];
    proof {
        assert(r@.map_values(|s: &str| s@) =~= reserved_names());
    }
    r
}

/// Is `name` reserved, in any letter case?
pub fn is_reserved(name: &str) -> (r: bool)
    ensures
        r == reserved_names().contains(lowercase(name@)),
{
    let lowered = to_lowercase(name);
    let names = reserved_name_list();
    let mut i: usize = 0;
    while i < 15
        invariant
            i <= 15,
            lowered@ == lowercase(name@),
            names@.map_values(|s: &str| s@) == reserved_names(),
            forall|k: int| 0 <= k < i ==> reserved_names()[k] != lowered@,
        decreases 15 - i,
    {
        proof {
            assert(names@.map_values(|s: &str| s@)[i as int] == names@[i as int]@);
        }
        if str_equal(lowered.as_str(), names[i]) {
            proof {
                assert(reserved_names()[i as int] == lowered@);
                assert(0 <= i < reserved_names().len());
                assert(reserved_names().contains(lowered@));
            }
            return true;
        }
        i += 1;
    }
    false
}

/// A parse error with its message and character position.
pub fn parse_error(message: String, position: usize) -> (r: EngineError)
    ensures
        r matches EngineError::ParseError { message: m, position: p } && m@ == message@ && p == position,
{
    EngineError::ParseError { message, position }
}


/// Is `e` the parse error with this message and position?
pub open spec fn is_parse_error(e: EngineError, message: Seq<char>, position: int) -> bool {
    e matches EngineError::ParseError { message: m, position: p } && m@ == message && p == position
}

/// Does `r` report what the grammar says a production yields, ending at
/// `end` on success?
pub open spec fn yields(r: Result<Expression, EngineError>, p: Parse<Tree>, end: int) -> bool {
    match p {
        Parse::Done(t, j) => r matches Ok(e) && tree_of(e) == t && end == j,
        Parse::Fail(m, pos) => r matches Err(err) && is_parse_error(err, m, pos),
    }
}

/// `yields` for a production that may decline (`None`).
pub open spec fn yields_option(r: Result<Option<Expression>, EngineError>, p: Parse<Option<Tree>>, end: int) -> bool {
    match p {
        Parse::Done(Some(t), j) => r matches Ok(Some(e)) && tree_of(e) == t && end == j,
        Parse::Done(None, j) => r matches Ok(None) && end == j,
        Parse::Fail(m, pos) => r matches Err(err) && is_parse_error(err, m, pos),
    }
}

/// `yields` for a production that reads a list of expressions.
pub open spec fn yields_list(r: Result<Vec<Expression>, EngineError>, p: Parse<Seq<Tree>>, end: int) -> bool {
    match p {
        Parse::Done(ts, j) => r matches Ok(v) && trees_of(v@) == ts && end == j,
        Parse::Fail(m, pos) => r matches Err(err) && is_parse_error(err, m, pos),
    }
}

/// What the grammar sees of a token kind: payloads by their values.
pub open spec fn lexed_kind(k: TokenKind) -> LexedKind {
    match k {
        TokenKind::Number(n) => LexedKind::Number(n@),
        TokenKind::Identifier(s) => LexedKind::Identifier(s@),
        TokenKind::String(s) => LexedKind::Str(s@),
        TokenKind::CellReference { column, row, pin_column, pin_row } => LexedKind::CellReference(
            column@,
            row,
            pin_column,
            pin_row,
        ),
        TokenKind::QuotedName(s) => LexedKind::QuotedName(s@),
        other => LexedKind::Other(other),
    }
}

/// What the grammar sees of a token.
pub open spec fn lexed_of(t: Token) -> (LexedKind, int, int) {
    (lexed_kind(t.kind), t.range.start as int, t.range.end as int)
}

/// The numbers a token carries are well-formed.
pub open spec fn values_wf(k: TokenKind) -> bool {
    match k {
        TokenKind::Number(n) => n.wf(),
        TokenKind::Money { value, .. } => value.wf(),
        TokenKind::Grouped(v) => v.wf(),
        _ => true,
    }
}

/// A parser over a line's tokens: the dialect decides only the overloaded
/// glyphs (`^ % & | << >> ~`).
pub struct Parser {
    pub(crate) tokens: Vec<Token>,
    pub(crate) mode: LanguageMode,
    pub(crate) index: usize,
}

impl Parser {
    /// The tokens as the grammar sees them.
    pub(crate) open spec fn shape(&self) -> Seq<(LexedKind, int, int)> {
        self.tokens@.map_values(|t: Token| lexed_of(t))
    }

    /// Tokens end with the end marker, carry well-formed numbers, and the
    /// position is within them.
    pub(crate) open spec fn wf(&self) -> bool {
        &&& 1 <= self.tokens@.len() <= usize::MAX
        &&& self.tokens@.last().kind == TokenKind::End
        &&& self.index < self.tokens@.len()
        &&& forall|k: int| 0 <= k < self.tokens@.len() ==> values_wf(#[trigger] self.tokens@[k].kind)
    }

    /// Only the position moved, and only forward.
    pub(crate) open spec fn moved_from(&self, before: Parser) -> bool {
        &&& self.wf()
        &&& self.tokens@ == before.tokens@
        &&& self.mode == before.mode
        &&& before.index <= self.index
    }

    /// The tokens of `source` (the lexer's, then the end marker) parsed as
    /// one statement: lexer errors pass through, and anything after the
    /// statement is an error.
    pub fn parse(source: &str, mode: LanguageMode) -> (r: Result<Expression, EngineError>)
        requires
            line_fits(source@),
            !(lex(source@) is Overflow),
        ensures
            match lex(source@) {
                Lexed::Tokens(ts) => yields(
                    r,
                    parsed(ts.push((LexedKind::Other(TokenKind::End), source@.len() as int, source@.len() as int)), mode),
                    match parsed(ts.push((LexedKind::Other(TokenKind::End), source@.len() as int, source@.len() as int)), mode) {
                        Parse::Done(_, j) => j,
                        _ => 0,
                    },
                ),
                Lexed::Error(message, position) => r matches Err(e) && is_lex_error(e, message, position),
                Lexed::Overflow => false,
            },
    {
        let tokens = match Lexer::tokenize(source, mode) {
            Ok(tokens) => tokens,
            Err(e) => return Err(e),
        };
        let ghost ts = lex(source@)->Tokens_0;
        let ghost full = ts.push((LexedKind::Other(TokenKind::End), source@.len() as int, source@.len() as int));
        let count = tokens.len();
        let mut parser = Parser { tokens, mode, index: 0 };
        proof {
            assert(parser.tokens@.len() == count);
            assert forall|k: int| 0 <= k < full.len() implies #[trigger] parser.shape()[k] == full[k] by {
                if k < ts.len() {
                    assert(token_matches(parser.tokens@[k], ts[k]));
                }
            }
            assert(parser.shape() =~= full);
            assert forall|k: int| 0 <= k < parser.tokens@.len() implies values_wf(
                #[trigger] parser.tokens@[k].kind,
            ) by {
                if k < ts.len() {
                    assert(token_matches(parser.tokens@[k], ts[k]));
                }
            }
        }
        let expr = match parser.statement() {
            Ok(e) => e,
            Err(e) => return Err(e),
        };
        match parser.expect_end() {
            Ok(()) => Ok(expr),
            Err(e) => Err(e),
        }
    }

    /// The current token's kind.
    fn kind(&self) -> (r: &TokenKind)
        requires
            self.wf(),
        ensures
            *r == self.tokens@[self.index as int].kind,
            lexed_kind(*r) == kind_at(self.shape(), self.index as int),
    {
        &self.tokens[self.index].kind
    }

    /// The kind of the token `offset` places ahead, if there is one.
    fn kind_ahead(&self, offset: usize) -> (r: Option<&TokenKind>)
        requires
            self.wf(),
            offset <= 3,
        ensures
            match r {
                Some(k) => self.index + offset < self.tokens@.len() && *k == self.tokens@[self.index + offset].kind
                    && lexed_kind(*k) == kind_at(self.shape(), self.index + offset),
                None => self.index + offset >= self.tokens@.len() && kind_at(self.shape(), self.index + offset)
                    == LexedKind::Other(TokenKind::End),
            },
    {
        if offset < self.tokens.len() - self.index {
            Some(&self.tokens[self.index + offset].kind)
        } else {
            None
        }
    }

    /// Where the current token starts.
    fn position(&self) -> (r: usize)
        requires
            self.wf(),
        ensures
            r == position_at(self.shape(), self.index as int),
    {
        self.tokens[self.index].range.start
    }

    /// Where the token `offset` places ahead starts (it exists).
    fn position_ahead(&self, offset: usize) -> (r: usize)
        requires
            self.wf(),
            self.index + offset < self.tokens@.len(),
        ensures
            r == position_at(self.shape(), self.index + offset),
    {
        let count = self.tokens.len();
        self.tokens[self.index + offset].range.start
    }

    /// Steps past the current token; the end marker is never passed.
    fn advance(&mut self)
        requires
            old(self).wf(),
        ensures
            final(self).moved_from(*old(self)),
            final(self).index == if old(self).index < old(self).tokens@.len() - 1 {
                old(self).index + 1
            } else {
                old(self).index as int
            },
    {
        if self.index < self.tokens.len() - 1 {
            self.index += 1;
        }
    }

    /// Nothing may follow the statement.
    fn expect_end(&self) -> (r: Result<(), EngineError>)
        requires
            self.wf(),
        ensures
            is_at(self.shape(), self.index as int, TokenKind::End) ==> r is Ok,
            !is_at(self.shape(), self.index as int, TokenKind::End) ==> (r matches Err(e) && is_parse_error(
                e,
                "unexpected trailing input"@,
                position_at(self.shape(), self.index as int),
            )),
    {
        if matches!(self.kind(), TokenKind::End) {
            Ok(())
        } else {
            Err(parse_error(String::from_str("unexpected trailing input"), self.position()))
        }
    }
}

/// `sigma_x` / `product_x` spellings (any letter case) are reserved for the
/// indexed reductions.
pub fn is_reduction_name(name: &str) -> (r: bool)
    ensures
        r == grammar::is_reduction_name(name@),
{
    let lowered = to_lowercase(name);
    has_prefix(&lowered, "sigma_") || has_prefix(&lowered, "product_")
}

/// Does `s` start with `prefix`?
pub fn has_prefix(s: &String, prefix: &str) -> (r: bool)
    ensures
        r == starts_with(s@, prefix@),
{
    let chars = chars_of(s.as_str());
    let wanted = chars_of(prefix);
    if wanted.len() > chars.len() {
        return false;
    }
    let mut i: usize = 0;
    while i < wanted.len()
        invariant
            chars@ == s@,
            wanted@ == prefix@,
            wanted.len() <= chars.len(),
            i <= wanted.len(),
            forall|k: int| 0 <= k < i ==> chars@[k] == wanted@[k],
        decreases wanted.len() - i,
    {
        if chars[i] != wanted[i] {
            proof {
                assert(s@.subrange(0, prefix@.len() as int)[i as int] != prefix@[i as int]);
            }
            return false;
        }
        i += 1;
    }
    proof {
        assert(s@.subrange(0, prefix@.len() as int) =~= prefix@);
    }
    true
}

} // verus!
