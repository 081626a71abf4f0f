//! Reference and call-tail productions: namespace-qualified names, sheet-
//! qualified cell and named-cell references, cell ranges, and argument lists
//! (positional, and named arguments that desugar to one map).

use vstd::prelude::*;
use super::{Parser, parse_error, yields, yields_list, lexed_kind, is_parse_error};
use super::grammar::{self, Parse, kind_at, is_at, position_at, has_key, named_start};
use crate::ast::{Expression, MapLiteralEntry};
use crate::ast::tree::{Tree, tree_of, trees_of, entry_trees_of, name_of, lemma_trees_push, lemma_entry_trees_push,
    lemma_entry_trees_index};
use crate::error::EngineError;
use crate::eval::currency::str_equal;
use crate::lexer::{TokenKind, LexedKind};
use crate::number::BigDecimal;
use crate::text::chars_of;

verus! {

/// Is `key` already the key of one of the entries (exactly)?
pub fn same_name(entries: &Vec<MapLiteralEntry>, key: &String) -> (r: bool)
    ensures
        r == has_key(entry_trees_of(entries@), key@),
{
    proof {
        lemma_entry_trees_index(entries@);
    }
    let mut i: usize = 0;
    while i < entries.len()
        invariant
            i <= entries.len(),
            entry_trees_of(entries@).len() == entries@.len(),
            forall|k: int| 0 <= k < entries@.len() ==> #[trigger] entry_trees_of(entries@)[k] == (
                entries@[k].key@,
                tree_of(entries@[k].value),
            ),
            forall|k: int| 0 <= k < i ==> entries@[k].key@ != key@,
        decreases entries.len() - i,
    {
        if str_equal(entries[i].key.as_str(), key.as_str()) {
            proof {
                assert(entry_trees_of(entries@)[i as int].0 == key@);
            }
            return true;
        }
        i += 1;
    }
    proof {
        assert forall|k: int| 0 <= k < entry_trees_of(entries@).len() implies entry_trees_of(entries@)[k].0
            != key@ by {
            assert(entry_trees_of(entries@)[k] == (entries@[k].key@, tree_of(entries@[k].value)));
        }
    }
    false
}

impl Parser {
    /// `Bits::BitFormat`, `A::B::c` at the first `::`: a namespace-qualified
    /// name (nesting chains `::`), a qualified call when `(` follows. The
    /// whole name flows as one string ("A::B::c").
    #[verifier::rlimit(60)]
    pub(super) fn qualified_name(&mut self, namespace: String, prefix: String) -> (r: Result<Expression, EngineError>)
        requires
            old(self).wf(),
            is_at(old(self).shape(), old(self).index as int, TokenKind::ColonColon),
        ensures
            final(self).moved_from(*old(self)),
            yields(r, grammar::qualified_name(old(self).shape(), old(self).mode, old(self).index as int,
                namespace@, prefix@), final(self).index as int),
        decreases old(self).tokens@.len() - old(self).index, 55int,
    {
        let ghost start = *self;
        let mut qualified = prefix;
        loop
            invariant
                self.moved_from(start),
                start == *old(self),
                start.wf(),
                is_at(start.shape(), self.index as int, TokenKind::ColonColon),
                grammar::qualified_name(start.shape(), start.mode, start.index as int, namespace@, prefix@)
                    == grammar::qualified_name(start.shape(), start.mode, self.index as int, namespace@,
                    qualified@),
            decreases self.tokens@.len() - self.index,
        {
            self.advance();  // '::'
            let member = match self.kind() {
                TokenKind::Identifier(member) => member.clone(),
                _ => {
                    let mut message = String::from_str("expected a name after '::' — e.g. ");
                    message.append(namespace.as_str());
                    message.append("::Point");
                    return Err(parse_error(message, self.position()));
                },
            };
            self.advance();
            qualified.append("::");
            qualified.append(member.as_str());
            if !matches!(self.kind(), TokenKind::ColonColon) {
                if !matches!(self.kind(), TokenKind::LeftParen) {
                    return Ok(Expression::Variable(qualified));
                }
                self.advance();
                let arguments = match self.argument_list() {
                    Ok(a) => a,
                    Err(e) => return Err(e),
                };
                return Ok(Expression::Call { name: qualified, arguments });
            }
        }
    }

    /// After a sheet name, at its `!`: a cell, a range, or a named cell.
    pub(super) fn qualified_reference(&mut self, sheet: String) -> (r: Result<Expression, EngineError>)
        requires
            old(self).wf(),
        ensures
            final(self).moved_from(*old(self)),
            yields(r, grammar::qualified_reference(old(self).shape(), old(self).mode, old(self).index as int,
                sheet@), final(self).index as int),
        decreases old(self).tokens@.len() - old(self).index, 54int,
    {
        if !matches!(self.kind(), TokenKind::Bang) {
            let mut message = String::from_str("expected '!' after sheet name '");
            message.append(sheet.as_str());
            message.append("' — e.g. '");
            message.append(sheet.as_str());
            message.append("'!A:1");
            return Err(parse_error(message, self.position()));
        }
        self.advance();
        match self.kind() {
            TokenKind::CellReference { column, row, .. } => {
                let column = column.clone();
                let row = *row;
                self.advance();
                self.cell_reference_or_range(Some(sheet), column, row)
            },
            TokenKind::QuotedName(name) => {
                // Budget!'Projected Rate'
                let name = name.clone();
                self.advance();
                Ok(Expression::NameReference { sheet: Some(sheet), name })
            },
            _ => {
                let mut message = String::from_str("expected a cell or 'named cell' after '");
                message.append(sheet.as_str());
                message.append("!' — e.g. ");
                message.append(sheet.as_str());
                message.append("!A:1");
                Err(parse_error(message, self.position()))
            },
        }
    }

    /// A (possibly qualified) cell, extended to a range by `..`.
    pub(super) fn cell_reference_or_range(&mut self, sheet: Option<String>, column: String, row: i64) -> (r: Result<
        Expression,
        EngineError,
    >)
        requires
            old(self).wf(),
        ensures
            final(self).moved_from(*old(self)),
            yields(r, grammar::cell_reference_or_range(old(self).shape(), old(self).mode, old(self).index as int,
                name_of(sheet), column@, row), final(self).index as int),
        decreases old(self).tokens@.len() - old(self).index, 53int,
    {
        if !matches!(self.kind(), TokenKind::DotDot) {
            return Ok(Expression::CellReference { sheet, column, row });
        }
        self.advance();
        let (to_column, to_row) = match self.kind() {
            TokenKind::CellReference { column, row, .. } => (column.clone(), *row),
            _ => {
                return Err(
                    parse_error(String::from_str("expected a cell after '..' (e.g. A:1..A:9)"), self.position()),
                );
            },
        };
        self.advance();
        Ok(Expression::CellRange { sheet, from_column: column, from_row: row, to_column, to_row })
    }

    /// The arguments after a consumed `(`, through its `)`. Named arguments
    /// (`Person(name: "Ada", age: 36)`) desugar to one map literal.
    #[verifier::rlimit(60)]
    pub(super) fn argument_list(&mut self) -> (r: Result<Vec<Expression>, EngineError>)
        requires
            old(self).wf(),
        ensures
            final(self).moved_from(*old(self)),
            yields_list(r, grammar::argument_list(old(self).shape(), old(self).mode, old(self).index as int),
                final(self).index as int),
        decreases old(self).tokens@.len() - old(self).index, 62int,
    {
        let ghost start = *self;
        if matches!(self.kind(), TokenKind::RightParen) {
            self.advance();
            proof {
                assert(trees_of(Seq::<Expression>::empty()) =~= Seq::<Tree>::empty());
            }
            return Ok(Vec::new());
        }
        if self.is_named_argument_start() {
            let map = match self.named_arguments() {
                Ok(m) => m,
                Err(e) => return Err(e),
            };
            return Ok(super::expressions::single(map));
        }
        let first = match self.comparison() {
            Ok(e) => e,
            Err(e) => return Err(e),
        };
        let mut arguments: Vec<Expression> = Vec::new();
        arguments.push(first);
        proof {
            lemma_trees_push(Seq::empty(), first);
            assert(Seq::<Expression>::empty().push(first) =~= arguments@);
            assert(trees_of(Seq::<Expression>::empty()) =~= Seq::<Tree>::empty());
            assert(Seq::<Tree>::empty().push(tree_of(first)) =~= seq![tree_of(first)]);
        }
        loop
            invariant
                self.moved_from(start),
                start == *old(self),
                start.wf(),
                grammar::argument_list(start.shape(), start.mode, start.index as int) == grammar::arguments_rest(
                    start.shape(),
                    start.mode,
                    self.index as int,
                    trees_of(arguments@),
                ),
            decreases self.tokens@.len() - self.index,
        {
            if matches!(self.kind(), TokenKind::Comma) {
                self.advance();
                let next = match self.comparison() {
                    Ok(e) => e,
                    Err(e) => return Err(e),
                };
                proof {
                    lemma_trees_push(arguments@, next);
                }
                arguments.push(next);
            } else if !matches!(self.kind(), TokenKind::RightParen) {
                return Err(parse_error(String::from_str("expected ')' or ','"), self.position()));
            } else {
                self.advance();
                return Ok(arguments);
            }
        }
    }

    /// Does this argument list open with `name: value`? An identifier
    /// directly followed by `:`, or a compact `age:36` that the lexer fused
    /// into a cell reference with a multi-letter column (real columns are
    /// single letters). A compact single-letter `f(a:1)` stays a cell.
    fn is_named_argument_start(&self) -> (r: bool)
        requires
            self.wf(),
        ensures
            r == named_start(self.shape(), self.index as int),
    {
        if matches!(self.kind(), TokenKind::Identifier(_)) {
            if let Some(next) = self.kind_ahead(1) {
                if matches!(next, TokenKind::Colon) {
                    return true;
                }
            }
        }
        if let TokenKind::CellReference { column, .. } = self.kind() {
            if chars_of(column.as_str()).len() > 1 {
                return true;
            }
        }
        false
    }

    /// `name: "Ada", age: 36)` after the `(`, through the `)`: one map
    /// literal. A compact `key:number` arrives as a cell reference and
    /// decomposes into the key and its number.
    #[verifier::rlimit(60)]
    fn named_arguments(&mut self) -> (r: Result<Expression, EngineError>)
        requires
            old(self).wf(),
        ensures
            final(self).moved_from(*old(self)),
            yields(r, grammar::named_arguments(old(self).shape(), old(self).mode, old(self).index as int,
                position_at(old(self).shape(), old(self).index as int), Seq::empty()), final(self).index as int),
        decreases old(self).tokens@.len() - old(self).index, 61int,
    {
        let ghost start = *self;
        let position = self.position();
        let mut entries: Vec<MapLiteralEntry> = Vec::new();
        proof {
            assert(entry_trees_of(entries@) =~= Seq::<(Seq<char>, Tree)>::empty());
        }
        loop
            invariant
                self.moved_from(start),
                start == *old(self),
                start.wf(),
                position == position_at(start.shape(), start.index as int),
                grammar::named_arguments(start.shape(), start.mode, start.index as int, position as int,
                    Seq::empty()) == grammar::named_arguments(start.shape(), start.mode, self.index as int,
                    position as int, entry_trees_of(entries@)),
            decreases self.tokens@.len() - self.index,
        {
            let (key, value) = match self.kind() {
                TokenKind::CellReference { column, row, .. } => {
                    let key = column.clone();
                    let row = *row;
                    self.advance();
                    (key, Expression::Number(BigDecimal::from_int(row)))
                },
                TokenKind::Identifier(key) => {
                    let key = key.clone();
                    self.advance();
                    if !matches!(self.kind(), TokenKind::Colon) {
                        let mut message = String::from_str("expected ':' after '");
                        message.append(key.as_str());
                        message.append("' — named arguments are name: value");
                        return Err(parse_error(message, self.position()));
                    }
                    self.advance();
                    let value = match self.comparison() {
                        Ok(e) => e,
                        Err(e) => return Err(e),
                    };
                    (key, value)
                },
                _ => {
                    return Err(
                        parse_error(String::from_str("expected another name: value argument"), self.position()),
                    );
                },
            };
            if same_name(&entries, &key) {
                let mut message = String::from_str("duplicate field '");
                message.append(key.as_str());
                message.append("'");
                proof {
                    assert(message@ =~= "duplicate field '"@ + key@ + "'"@);
                }
                return Err(parse_error(message, position));
            }
            let entry = MapLiteralEntry { key, value };
            proof {
                lemma_entry_trees_push(entries@, entry);
            }
            entries.push(entry);
            if matches!(self.kind(), TokenKind::Comma) {
                self.advance();
            } else if matches!(self.kind(), TokenKind::RightParen) {
                self.advance();
                return Ok(Expression::MapLiteral(entries));
            } else {
                return Err(parse_error(String::from_str("expected ')' or ','"), self.position()));
            }
        }
    }
}

} // verus!
