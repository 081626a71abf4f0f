//! Primary expressions: literals, identifiers and calls, the `man`/`if`/∑/∏
//! special forms, array and map literals, and the indexed-reduction bounds.

use vstd::prelude::*;
use super::{Parser, parse_error, yields, lexed_kind, is_parse_error, is_reserved};
use super::grammar::{self, Parse, kind_at, is_at, position_at, has_key, starts_with};
use super::references::same_name;
use crate::ast::{Expression, MapLiteralEntry, ReductionOperation, reduction_symbol};
use crate::ast::tree::{Tree, tree_of, trees_of, entry_trees_of, lemma_trees_index, lemma_trees_push,
    lemma_entry_trees_push, lemma_entry_trees_index};
use crate::error::EngineError;
use crate::eval::currency::str_equal;
use crate::lexer::{TokenKind, LexedKind};
use crate::lexer::grammar::all_alphabetic;
use crate::number::{BigDecimal, canonical};
use crate::text::{to_lowercase, lowercase, chars_of, string_of, is_alphabetic};
use super::has_prefix;

verus! {

/// `s` without a leading `_`, when it has one.
fn subscript_of(s: &String) -> (r: Option<String>)
    ensures
        match r {
            Some(t) => s@.len() > 0 && s@[0] == '_' && t@ == s@.drop_first(),
            None => !(s@.len() > 0 && s@[0] == '_'),
        },
{
    let chars = chars_of(s.as_str());
    if chars.len() > 0 && chars[0] == '_' {
        let t = string_of(&chars, 1, chars.len());
        proof {
            assert(t@ =~= s@.drop_first());
        }
        Some(t)
    } else {
        None
    }
}

/// `name` without its first `k` characters (it has at least `k`).
fn tail_of(name: &String, k: usize) -> (r: String)
    requires
        name@.len() >= k,
    ensures
        r@ == name@.skip(k as int),
{
    let chars = chars_of(name.as_str());
    let t = string_of(&chars, k, chars.len());
    proof {
        assert(t@ =~= name@.skip(k as int));
    }
    t
}

/// Is every character of `chars` alphabetic?
fn all_letters(chars: &Vec<char>) -> (r: bool)
    ensures
        r == all_alphabetic(chars@),
{
    let mut i: usize = 0;
    while i < chars.len()
        invariant
            i <= chars.len(),
            forall|k: int| 0 <= k < i ==> crate::text::char_is_alphabetic(#[trigger] chars@[k]),
        decreases chars.len() - i,
    {
        if !is_alphabetic(chars[i]) {
            return false;
        }
        i += 1;
    }
    true
}

impl Parser {
    /// A literal, a name or call, a cell or named cell, a parenthesized
    /// expression, an array or map literal, or a special form.
    #[verifier::rlimit(60)]
    pub(super) fn primary(&mut self) -> (r: Result<Expression, EngineError>)
        requires
            old(self).wf(),
        ensures
            final(self).moved_from(*old(self)),
            yields(r, grammar::primary(old(self).shape(), old(self).mode, old(self).index as int),
                final(self).index as int),
            r is Ok ==> final(self).index > old(self).index,
        decreases old(self).tokens@.len() - old(self).index, 28int,
    {
        let token_position = self.position();
        match self.kind() {
            TokenKind::Number(v) => {
                let v = v.copy();
                self.advance();
                Ok(Expression::Number(v))
            },
            TokenKind::Money { value, currency } => {
                let value = value.copy();
                let currency = *currency;
                self.advance();
                Ok(Expression::Money { value, currency })
            },
            TokenKind::Grouped(v) => {
                let v = v.copy();
                self.advance();
                Ok(Expression::Grouped(v))
            },
            TokenKind::CellReference { column, row, .. } => {
                let column = column.clone();
                let row = *row;
                self.advance();
                self.cell_reference_or_range(None, column, row)
            },
            TokenKind::QuotedName(quoted) => {
                // 'Q1 Budget'!A:1 is a sheet qualifier when ! follows;
                // otherwise 'Projected Rate' is a named cell.
                let quoted = quoted.clone();
                self.advance();
                if matches!(self.kind(), TokenKind::Bang) {
                    return self.qualified_reference(quoted);
                }
                Ok(Expression::NameReference { sheet: None, name: quoted })
            },
            TokenKind::Identifier(name) => {
                let name = name.clone();
                self.advance();
                if matches!(self.kind(), TokenKind::Bang) {
                    // Budget!A:1: an unquoted sheet qualifier.
                    return self.qualified_reference(name);
                }
                if matches!(self.kind(), TokenKind::ColonColon) {
                    // Bits::BitFormat: a namespace-qualified name or call.
                    let namespace = name.clone();
                    return self.qualified_name(namespace, name);
                }
                self.identifier_primary(name, token_position)
            },
            TokenKind::LeftParen => {
                self.advance();
                let inner = match self.comparison() {
                    Ok(e) => e,
                    Err(e) => return Err(e),
                };
                if !matches!(self.kind(), TokenKind::RightParen) {
                    return Err(parse_error(String::from_str("expected ')'"), self.position()));
                }
                self.advance();
                Ok(inner)
            },
            TokenKind::String(text) => {
                let text = text.clone();
                self.advance();
                Ok(Expression::StringLiteral(text))
            },
            TokenKind::LeftBracket => {
                self.advance();
                self.array_literal()
            },
            TokenKind::LeftBrace => {
                self.advance();
                self.map_literal(token_position)
            },
            TokenKind::End => Err(parse_error(String::from_str("unexpected end of expression"), token_position)),
            _ => Err(parse_error(String::from_str("unexpected token"), token_position)),
        }
    }

    /// After a plain identifier: `∑`/`∏` reductions (`sigma_i=…` typed as
    /// one identifier, or `∑` then `_i`), `man NAME` (a name, never
    /// evaluated, no parentheses), a call (`sigma(…)` is sum, `if(c, a, b)`
    /// the lazy conditional), or a variable.
    #[verifier::rlimit(60)]
    fn identifier_primary(&mut self, name: String, position: usize) -> (r: Result<Expression, EngineError>)
        requires
            old(self).wf(),
            old(self).index > 0,
        ensures
            final(self).moved_from(*old(self)),
            yields(r, grammar::identifier_primary(old(self).shape(), old(self).mode, old(self).index as int,
                name@, position as int), final(self).index as int),
        decreases old(self).tokens@.len() - old(self).index, 70int,
    {
        let lowered = to_lowercase(name.as_str());
        let count = chars_of(name.as_str()).len();
        let subscript = match self.kind() {
            TokenKind::Identifier(s) => subscript_of(s),
            _ => None,
        };
        let is_sigma = str_equal(lowered.as_str(), "sigma");
        let is_product = str_equal(lowered.as_str(), "product");
        if is_sigma && subscript.is_some() {
            self.advance();
            return self.math_reduction(ReductionOperation::Sum, subscript.unwrap(), position);
        }
        if has_prefix(&lowered, "sigma_") && count >= 6 {
            let index_name = tail_of(&name, 6);
            return self.math_reduction(ReductionOperation::Sum, index_name, position);
        }
        if is_product && subscript.is_some() {
            self.advance();
            return self.math_reduction(ReductionOperation::Product, subscript.unwrap(), position);
        }
        if has_prefix(&lowered, "product_") && count >= 8 {
            let index_name = tail_of(&name, 8);
            return self.math_reduction(ReductionOperation::Product, index_name, position);
        }
        if str_equal(lowered.as_str(), "man") || str_equal(lowered.as_str(), "manual") || str_equal(
            lowered.as_str(),
            "help",
        ) {
            if matches!(self.kind(), TokenKind::LeftParen) {
                let mut message = String::from_str("use `");
                message.append(name.as_str());
                message.append(" name` — e.g. ");
                message.append(name.as_str());
                message.append(" pmt (no parentheses)");
                return Err(parse_error(message, self.position()));
            }
            let subject = match self.kind() {
                TokenKind::Identifier(subject) => subject.clone(),
                _ => {
                    let mut message = name.clone();
                    message.append(" needs a function name — e.g. ");
                    message.append(name.as_str());
                    message.append(" pmt");
                    return Err(parse_error(message, self.position()));
                },
            };
            self.advance();
            return Ok(Expression::HelpRequest { name: subject });
        }
        if !matches!(self.kind(), TokenKind::LeftParen) {
            return Ok(Expression::Variable(name));
        }
        self.advance();
        let arguments = match self.argument_list() {
            Ok(a) => a,
            Err(e) => return Err(e),
        };
        if is_sigma {
            // ∑(1,2,3) = 6
            return Ok(Expression::Call { name: String::from_str("sum"), arguments });
        }
        if str_equal(lowered.as_str(), "if") {
            // A special form: the branches stay lazy.
            proof {
                lemma_trees_index(arguments@);
            }
            if arguments.len() != 3 {
                return Err(parse_error(String::from_str("if expects (condition, then, else)"), position));
            }
            proof {
                lemma_trees_index(arguments@);
            }
            let mut arguments = arguments;
            let otherwise = arguments.pop().unwrap();
            let then = arguments.pop().unwrap();
            let condition = arguments.pop().unwrap();
            return Ok(
                Expression::Conditional {
                    condition: Box::new(condition),
                    then: Box::new(then),
                    otherwise: Box::new(otherwise),
                },
            );
        }
        Ok(Expression::Call { name, arguments })
    }

    /// `[1, 2, 3]` after its `[`: elements are full expressions.
    #[verifier::rlimit(60)]
    fn array_literal(&mut self) -> (r: Result<Expression, EngineError>)
        requires
            old(self).wf(),
        ensures
            final(self).moved_from(*old(self)),
            yields(r, grammar::array_literal(old(self).shape(), old(self).mode, old(self).index as int),
                final(self).index as int),
        decreases old(self).tokens@.len() - old(self).index, 52int,
    {
        let ghost start = *self;
        if matches!(self.kind(), TokenKind::RightBracket) {
            self.advance();
            proof {
                assert(trees_of(Seq::<Expression>::empty()) =~= Seq::<Tree>::empty());
            }
            return Ok(Expression::ArrayLiteral(Vec::new()));
        }
        let first = match self.comparison() {
            Ok(e) => e,
            Err(e) => return Err(e),
        };
        let mut items: Vec<Expression> = Vec::new();
        items.push(first);
        proof {
            lemma_trees_push(Seq::empty(), first);
            assert(Seq::<Expression>::empty().push(first) =~= items@);
            assert(trees_of(Seq::<Expression>::empty()) =~= Seq::<Tree>::empty());
            assert(Seq::<Tree>::empty().push(tree_of(first)) =~= seq![tree_of(first)]);
        }
        loop
            invariant
                self.moved_from(start),
                start == *old(self),
                start.wf(),
                grammar::array_literal(start.shape(), start.mode, start.index as int) == grammar::array_rest(
                    start.shape(),
                    start.mode,
                    self.index as int,
                    trees_of(items@),
                ),
            decreases self.tokens@.len() - self.index,
        {
            if matches!(self.kind(), TokenKind::Comma) {
                self.advance();
                let next = match self.comparison() {
                    Ok(e) => e,
                    Err(e) => return Err(e),
                };
                proof {
                    lemma_trees_push(items@, next);
                }
                items.push(next);
            } else if !matches!(self.kind(), TokenKind::RightBracket) {
                return Err(parse_error(String::from_str("expected ']' or ','"), self.position()));
            } else {
                self.advance();
                return Ok(Expression::ArrayLiteral(items));
            }
        }
    }

    /// `{name: "Ada", age: 36}` after its `{` (at `position`). Keys are
    /// names or strings, unique; a compact `{b:1}` arrives as a cell
    /// reference and decomposes into the key and its number.
    #[verifier::rlimit(60)]
    fn map_literal(&mut self, position: usize) -> (r: Result<Expression, EngineError>)
        requires
            old(self).wf(),
            old(self).index > 0,
            position == position_at(old(self).shape(), old(self).index - 1),
        ensures
            final(self).moved_from(*old(self)),
            yields(r, grammar::map_literal(old(self).shape(), old(self).mode, old(self).index as int),
                final(self).index as int),
        decreases old(self).tokens@.len() - old(self).index, 9int,
    {
        let ghost start = *self;
        let mut entries: Vec<MapLiteralEntry> = Vec::new();
        if matches!(self.kind(), TokenKind::RightBrace) {
            self.advance();
            proof {
                assert(entry_trees_of(entries@) =~= Seq::<(Seq<char>, Tree)>::empty());
            }
            return Ok(Expression::MapLiteral(entries));
        }
        proof {
            assert(entry_trees_of(entries@) =~= Seq::<(Seq<char>, Tree)>::empty());
        }
        loop
            invariant
                self.moved_from(start),
                start == *old(self),
                start.wf(),
                grammar::map_literal(start.shape(), start.mode, start.index as int) == grammar::map_entries(
                    start.shape(),
                    start.mode,
                    self.index as int,
                    position as int,
                    entry_trees_of(entries@),
                ),
            decreases self.tokens@.len() - self.index,
        {
            let ghost at = self.index as int;
            let (key, value) = match self.kind() {
                TokenKind::CellReference { column, row, .. } => {
                    // {b:1}: the lexer saw a cell reference; here it is a key
                    // and its number.
                    let key = column.clone();
                    let row = *row;
                    self.advance();
                    (key, Expression::Number(BigDecimal::from_int(row)))
                },
                TokenKind::Identifier(key) | TokenKind::String(key) => {
                    let key = key.clone();
                    self.advance();
                    if !matches!(self.kind(), TokenKind::Colon) {
                        let mut message = String::from_str("expected ':' after key '");
                        message.append(key.as_str());
                        message.append("'");
                        proof {
                            assert(message@ =~= "expected ':' after key '"@ + key@ + "'"@);
                        }
                        return Err(parse_error(message, self.position()));
                    }
                    self.advance();
                    let value = match self.comparison() {
                        Ok(e) => e,
                        Err(e) => return Err(e),
                    };
                    (key, value)
                },
                _ => {
                    return Err(
                        parse_error(
                            String::from_str("expected a key — e.g. {name: \"Ada\", age: 36}"),
                            self.position(),
                        ),
                    );
                },
            };
            if same_name(&entries, &key) {
                let mut message = String::from_str("duplicate key '");
                message.append(key.as_str());
                message.append("'");
                proof {
                    assert(message@ =~= "duplicate key '"@ + key@ + "'"@);
                }
                return Err(parse_error(message, position));
            }
            let entry = MapLiteralEntry { key, value };
            proof {
                lemma_entry_trees_push(entries@, entry);
            }
            entries.push(entry);
            if matches!(self.kind(), TokenKind::Comma) {
                self.advance();
            } else if matches!(self.kind(), TokenKind::RightBrace) {
                self.advance();
                return Ok(Expression::MapLiteral(entries));
            } else {
                return Err(parse_error(String::from_str("expected '}' or ','"), self.position()));
            }
        }
    }

    /// An indexed reduction in math notation after its index name, at the
    /// `=`: `∑_i=1^10(i^2)`. The term is not evaluated eagerly; the bounds
    /// are signed primaries, which keeps the `^` separator unambiguous.
    fn math_reduction(&mut self, operation: ReductionOperation, index_name: String, position: usize) -> (r: Result<
        Expression,
        EngineError,
    >)
        requires
            old(self).wf(),
        ensures
            final(self).moved_from(*old(self)),
            yields(r, grammar::math_reduction(old(self).shape(), old(self).mode, old(self).index as int,
                operation, index_name@, position as int), final(self).index as int),
        decreases old(self).tokens@.len() - old(self).index, 58int,
    {
        let symbol = operation.symbol();
        let letters = chars_of(index_name.as_str());
        if letters.len() == 0 || !all_letters(&letters) {
            let mut message = String::from_str("the ");
            message.append(symbol);
            message.append(" index must be a plain variable name (e.g. ");
            message.append(symbol);
            message.append("_i=1^10(i))");
            return Err(parse_error(message, position));
        }
        if is_reserved(index_name.as_str()) {
            let mut message = String::from_str("cannot use '");
            message.append(index_name.as_str());
            message.append("' as the ");
            message.append(symbol);
            message.append(" index");
            return Err(parse_error(message, position));
        }
        if !matches!(self.kind(), TokenKind::Assign) {
            let mut message = String::from_str("expected '=' after the ");
            message.append(symbol);
            message.append(" index — e.g. ");
            message.append(symbol);
            message.append("_i=1^10(i)");
            return Err(parse_error(message, self.position()));
        }
        self.advance();
        let lower = match self.signed_primary() {
            Ok(e) => e,
            Err(e) => return Err(e),
        };
        if !matches!(self.kind(), TokenKind::Caret) {
            let mut message = String::from_str("expected '^' before the ");
            message.append(symbol);
            message.append(" upper bound — parenthesize compound bounds, e.g. ");
            message.append(symbol);
            message.append("_i=(n-1)^10(i)");
            return Err(parse_error(message, self.position()));
        }
        self.advance();
        let upper = match self.signed_primary() {
            Ok(e) => e,
            Err(e) => return Err(e),
        };
        if !matches!(self.kind(), TokenKind::LeftParen) {
            let mut message = String::from_str("the ");
            message.append(symbol);
            message.append(" term must be parenthesized — e.g. ");
            message.append(symbol);
            message.append("_i=1^10(i)");
            return Err(parse_error(message, self.position()));
        }
        self.advance();
        let body = match self.comparison() {
            Ok(e) => e,
            Err(e) => return Err(e),
        };
        if !matches!(self.kind(), TokenKind::RightParen) {
            return Err(parse_error(String::from_str("expected ')'"), self.position()));
        }
        self.advance();
        Ok(
            Expression::Reduction {
                operation,
                index: index_name,
                lower: Box::new(lower),
                upper: Box::new(upper),
                body: Box::new(body),
            },
        )
    }

    /// A reduction bound: an optional minus and a bound primary. Not
    /// `unary` (which would swallow the `^` separator) and not `primary`
    /// (which would read `n(` as a call).
    fn signed_primary(&mut self) -> (r: Result<Expression, EngineError>)
        requires
            old(self).wf(),
        ensures
            final(self).moved_from(*old(self)),
            yields(r, grammar::signed_primary(old(self).shape(), old(self).mode, old(self).index as int),
                final(self).index as int),
        decreases old(self).tokens@.len() - old(self).index, 57int,
    {
        if matches!(self.kind(), TokenKind::Minus) {
            self.advance();
            let bound = match self.bound_primary() {
                Ok(e) => e,
                Err(e) => return Err(e),
            };
            return Ok(Expression::UnaryMinus(Box::new(bound)));
        }
        self.bound_primary()
    }

    /// A number, a variable (never a call: a following `(` is the term), a
    /// cell, or a parenthesized expression.
    fn bound_primary(&mut self) -> (r: Result<Expression, EngineError>)
        requires
            old(self).wf(),
        ensures
            final(self).moved_from(*old(self)),
            yields(r, grammar::bound_primary(old(self).shape(), old(self).mode, old(self).index as int),
                final(self).index as int),
        decreases old(self).tokens@.len() - old(self).index, 56int,
    {
        let token_position = self.position();
        match self.kind() {
            TokenKind::Number(v) => {
                let v = v.copy();
                self.advance();
                Ok(Expression::Number(v))
            },
            TokenKind::Money { value, currency } => {
                let value = value.copy();
                let currency = *currency;
                self.advance();
                Ok(Expression::Money { value, currency })
            },
            TokenKind::Grouped(v) => {
                let v = v.copy();
                self.advance();
                Ok(Expression::Grouped(v))
            },
            TokenKind::CellReference { column, row, .. } => {
                let column = column.clone();
                let row = *row;
                self.advance();
                Ok(Expression::CellReference { sheet: None, column, row })
            },
            TokenKind::Identifier(name) => {
                let name = name.clone();
                self.advance();
                Ok(Expression::Variable(name))
            },
            TokenKind::LeftParen => {
                self.advance();
                let inner = match self.comparison() {
                    Ok(e) => e,
                    Err(e) => return Err(e),
                };
                if !matches!(self.kind(), TokenKind::RightParen) {
                    return Err(parse_error(String::from_str("expected ')'"), self.position()));
                }
                self.advance();
                Ok(inner)
            },
            _ => Err(
                parse_error(
                    String::from_str("expected a ∑ bound (number, variable, or parenthesized expression)"),
                    token_position,
                ),
            ),
        }
    }
}

} // verus!
