//! The operator-precedence ladder: comparison → the Programmer-mode bitwise
//! band → additive → term (with implicit multiplication) → unary → power →
//! postfix accessors.

use vstd::prelude::*;
use super::{Parser, parse_error, yields, yields_option, yields_list, lexed_kind, is_parse_error};
use super::grammar::{self, Parse, kind_at, is_at, position_at, call2, comparison_of, mode_operator_message};
use crate::ast::{BinaryOperator, ComparisonOperator, Expression};
use crate::ast::tree::{Tree, tree_of, trees_of, lemma_trees_single, lemma_trees_pair};
use crate::error::EngineError;
use crate::lexer::{TokenKind, LexedKind};
use crate::mode::LanguageMode;

verus! {

/// The comparison a token kind spells, if any.
fn comparison_operator(kind: &TokenKind) -> (r: Option<ComparisonOperator>)
    ensures
        r == comparison_of(lexed_kind(*kind)),
{
    match kind {
        TokenKind::LessThan => Some(ComparisonOperator::Less),
        TokenKind::GreaterThan => Some(ComparisonOperator::Greater),
        TokenKind::LessOrEqual => Some(ComparisonOperator::LessOrEqual),
        TokenKind::GreaterOrEqual => Some(ComparisonOperator::GreaterOrEqual),
        TokenKind::EqualEqual => Some(ComparisonOperator::Equal),
        TokenKind::NotEqual => Some(ComparisonOperator::NotEqual),
        _ => None,
    }
}

/// One argument as a list.
pub fn single(a: Expression) -> (r: Vec<Expression>)
    ensures
        trees_of(r@) == seq![tree_of(a)],
{
    let mut v: Vec<Expression> = Vec::new();
    v.push(a);
    proof {
        lemma_trees_single(a);
        assert(v@ =~= seq![a]);
    }
    v
}

/// A canonical call with two arguments.
pub fn call_pair(name: &str, a: Expression, b: Expression) -> (r: Expression)
    ensures
        tree_of(r) == call2(name@, tree_of(a), tree_of(b)),
{
    let mut v: Vec<Expression> = Vec::new();
    v.push(a);
    v.push(b);
    proof {
        assert(v@ =~= seq![a, b]);
        lemma_trees_pair(a, b);
    }
    Expression::Call { name: String::from_str(name), arguments: v }
}

impl Parser {
    /// The error for a glyph that only Programmer mode gives a meaning.
    pub(super) fn mode_operator_error(glyph: &str, function: &str, position: usize) -> (r: EngineError)
        ensures
            is_parse_error(r, mode_operator_message(glyph@, function@), position as int),
    {
        let mut message = String::from_str("'");
        message.append(glyph);
        message.append("' is a Programmer-mode operator — use ");
        message.append(function);
        message.append("(…), or switch to Programmer mode");
        proof {
            assert(message@ =~= mode_operator_message(glyph@, function@));
        }
        parse_error(message, position)
    }

    /// One comparison level: `band (op band)?`. A second comparison
    /// operator is rejected (chaining is never what was meant). Lambdas are
    /// tried first.
    pub(super) fn comparison(&mut self) -> (r: Result<Expression, EngineError>)
        requires
            old(self).wf(),
        ensures
            final(self).moved_from(*old(self)),
            yields(r, grammar::comparison(old(self).shape(), old(self).mode, old(self).index as int),
                final(self).index as int),
        decreases old(self).tokens@.len() - old(self).index, 46int,
    {
        let ghost start = *self;
        match self.lambda_expression() {
            Err(e) => return Err(e),
            Ok(Some(lambda)) => return Ok(lambda),
            Ok(None) => {},
        }
        let lhs = match self.bitwise_or() {
            Ok(e) => e,
            Err(e) => return Err(e),
        };
        let op = match comparison_operator(self.kind()) {
            None => return Ok(lhs),
            Some(op) => op,
        };
        self.advance();
        let rhs = match self.bitwise_or() {
            Ok(e) => e,
            Err(e) => return Err(e),
        };
        if comparison_operator(self.kind()).is_some() {
            return Err(
                parse_error(
                    String::from_str("comparisons can't be chained — use and(a < b, b < c)"),
                    self.position(),
                ),
            );
        }
        Ok(Expression::Comparison(op, Box::new(lhs), Box::new(rhs)))
    }

    /// `|` (Programmer mode): bitOr.
    fn bitwise_or(&mut self) -> (r: Result<Expression, EngineError>)
        requires
            old(self).wf(),
        ensures
            final(self).moved_from(*old(self)),
            yields(r, grammar::bitwise_or(old(self).shape(), old(self).mode, old(self).index as int),
                final(self).index as int),
        decreases old(self).tokens@.len() - old(self).index, 44int,
    {
        let ghost start = *self;
        let mut lhs = match self.bitwise_xor() {
            Ok(e) => e,
            Err(e) => return Err(e),
        };
        loop
            invariant
                self.moved_from(start),
                start == *old(self),
                start.wf(),
                grammar::bitwise_or(start.shape(), start.mode, start.index as int) == grammar::or_rest(
                    start.shape(),
                    start.mode,
                    self.index as int,
                    tree_of(lhs),
                ),
            decreases self.tokens@.len() - self.index,
        {
            if !matches!(self.kind(), TokenKind::Pipe) {
                return Ok(lhs);
            }
            if !matches!(self.mode, LanguageMode::Programmer) {
                return Err(Self::mode_operator_error("|", "bitOr", self.position()));
            }
            self.advance();
            let rhs = match self.bitwise_xor() {
                Ok(e) => e,
                Err(e) => return Err(e),
            };
            lhs = call_pair("bitOr", lhs, rhs);
        }
    }

    /// `^` (Programmer mode): bitXor; elsewhere `^` is power.
    fn bitwise_xor(&mut self) -> (r: Result<Expression, EngineError>)
        requires
            old(self).wf(),
        ensures
            final(self).moved_from(*old(self)),
            yields(r, grammar::bitwise_xor(old(self).shape(), old(self).mode, old(self).index as int),
                final(self).index as int),
        decreases old(self).tokens@.len() - old(self).index, 42int,
    {
        let ghost start = *self;
        let mut lhs = match self.bitwise_and() {
            Ok(e) => e,
            Err(e) => return Err(e),
        };
        loop
            invariant
                self.moved_from(start),
                start == *old(self),
                start.wf(),
                grammar::bitwise_xor(start.shape(), start.mode, start.index as int) == grammar::xor_rest(
                    start.shape(),
                    start.mode,
                    self.index as int,
                    tree_of(lhs),
                ),
            decreases self.tokens@.len() - self.index,
        {
            if !(matches!(self.mode, LanguageMode::Programmer) && matches!(self.kind(), TokenKind::Caret)) {
                return Ok(lhs);
            }
            self.advance();
            let rhs = match self.bitwise_and() {
                Ok(e) => e,
                Err(e) => return Err(e),
            };
            lhs = call_pair("bitXor", lhs, rhs);
        }
    }

    /// `&` (Programmer mode): bitAnd.
    fn bitwise_and(&mut self) -> (r: Result<Expression, EngineError>)
        requires
            old(self).wf(),
        ensures
            final(self).moved_from(*old(self)),
            yields(r, grammar::bitwise_and(old(self).shape(), old(self).mode, old(self).index as int),
                final(self).index as int),
        decreases old(self).tokens@.len() - old(self).index, 40int,
    {
        let ghost start = *self;
        let mut lhs = match self.shift() {
            Ok(e) => e,
            Err(e) => return Err(e),
        };
        loop
            invariant
                self.moved_from(start),
                start == *old(self),
                start.wf(),
                grammar::bitwise_and(start.shape(), start.mode, start.index as int) == grammar::and_rest(
                    start.shape(),
                    start.mode,
                    self.index as int,
                    tree_of(lhs),
                ),
            decreases self.tokens@.len() - self.index,
        {
            if !matches!(self.kind(), TokenKind::Ampersand) {
                return Ok(lhs);
            }
            if !matches!(self.mode, LanguageMode::Programmer) {
                return Err(Self::mode_operator_error("&", "bitAnd", self.position()));
            }
            self.advance();
            let rhs = match self.shift() {
                Ok(e) => e,
                Err(e) => return Err(e),
            };
            lhs = call_pair("bitAnd", lhs, rhs);
        }
    }

    /// `<<` / `>>` (Programmer mode): bitShift; `a >> n` is
    /// `bitShift(a, -n)`.
    fn shift(&mut self) -> (r: Result<Expression, EngineError>)
        requires
            old(self).wf(),
        ensures
            final(self).moved_from(*old(self)),
            yields(r, grammar::shift(old(self).shape(), old(self).mode, old(self).index as int),
                final(self).index as int),
        decreases old(self).tokens@.len() - old(self).index, 38int,
    {
        let ghost start = *self;
        let mut lhs = match self.additive() {
            Ok(e) => e,
            Err(e) => return Err(e),
        };
        loop
            invariant
                self.moved_from(start),
                start == *old(self),
                start.wf(),
                grammar::shift(start.shape(), start.mode, start.index as int) == grammar::shift_rest(
                    start.shape(),
                    start.mode,
                    self.index as int,
                    tree_of(lhs),
                ),
            decreases self.tokens@.len() - self.index,
        {
            let left = matches!(self.kind(), TokenKind::ShiftLeft);
            if !left && !matches!(self.kind(), TokenKind::ShiftRight) {
                return Ok(lhs);
            }
            if !matches!(self.mode, LanguageMode::Programmer) {
                let glyph = if left { "<<" } else { ">>" };
                return Err(Self::mode_operator_error(glyph, "bitShift", self.position()));
            }
            self.advance();
            let rhs = match self.additive() {
                Ok(e) => e,
                Err(e) => return Err(e),
            };
            lhs = if left {
                call_pair("bitShift", lhs, rhs)
            } else {
                call_pair("bitShift", lhs, Expression::UnaryMinus(Box::new(rhs)))
            };
        }
    }

    /// `+` and `-`, left-associative.
    fn additive(&mut self) -> (r: Result<Expression, EngineError>)
        requires
            old(self).wf(),
        ensures
            final(self).moved_from(*old(self)),
            yields(r, grammar::additive(old(self).shape(), old(self).mode, old(self).index as int),
                final(self).index as int),
        decreases old(self).tokens@.len() - old(self).index, 36int,
    {
        let ghost start = *self;
        let mut lhs = match self.term() {
            Ok(e) => e,
            Err(e) => return Err(e),
        };
        loop
            invariant
                self.moved_from(start),
                start == *old(self),
                start.wf(),
                grammar::additive(start.shape(), start.mode, start.index as int) == grammar::additive_rest(
                    start.shape(),
                    start.mode,
                    self.index as int,
                    tree_of(lhs),
                ),
            decreases self.tokens@.len() - self.index,
        {
            let plus = matches!(self.kind(), TokenKind::Plus);
            if !plus && !matches!(self.kind(), TokenKind::Minus) {
                return Ok(lhs);
            }
            self.advance();
            let rhs = match self.term() {
                Ok(e) => e,
                Err(e) => return Err(e),
            };
            let op = if plus { BinaryOperator::Add } else { BinaryOperator::Subtract };
            lhs = Expression::Binary(op, Box::new(lhs), Box::new(rhs));
        }
    }

    /// `*`, `/`, Programmer-mode `%` (mod), and implicit multiplication: a
    /// value against a name, a parenthesis, or a cell. A number right after
    /// a value is almost always a missing operator, so it is an error.
    fn term(&mut self) -> (r: Result<Expression, EngineError>)
        requires
            old(self).wf(),
        ensures
            final(self).moved_from(*old(self)),
            yields(r, grammar::term(old(self).shape(), old(self).mode, old(self).index as int),
                final(self).index as int),
        decreases old(self).tokens@.len() - old(self).index, 34int,
    {
        let ghost start = *self;
        let mut lhs = match self.unary() {
            Ok(e) => e,
            Err(e) => return Err(e),
        };
        loop
            invariant
                self.moved_from(start),
                start == *old(self),
                start.wf(),
                grammar::term(start.shape(), start.mode, start.index as int) == grammar::term_rest(
                    start.shape(),
                    start.mode,
                    self.index as int,
                    tree_of(lhs),
                ),
            decreases self.tokens@.len() - self.index,
        {
            let ghost before = self.index;
            let kind = self.kind();
            let star = matches!(kind, TokenKind::Star);
            let slash = matches!(kind, TokenKind::Slash);
            let modulo = matches!(kind, TokenKind::Percent) && matches!(self.mode, LanguageMode::Programmer);
            let implicit = matches!(kind, TokenKind::LeftParen) || matches!(kind, TokenKind::Identifier(_))
                || matches!(kind, TokenKind::CellReference { .. });
            if matches!(kind, TokenKind::Number(_)) {
                return Err(
                    parse_error(
                        String::from_str(
                            "a number can't directly follow another value — add an operator (e.g. 3 * 4)",
                        ),
                        self.position(),
                    ),
                );
            }
            if !star && !slash && !modulo && !implicit {
                return Ok(lhs);
            }
            if !implicit {
                self.advance();
            }
            let rhs = match self.unary() {
                Ok(e) => e,
                Err(e) => return Err(e),
            };
            lhs = if modulo {
                call_pair("mod", lhs, rhs)
            } else if slash {
                Expression::Binary(BinaryOperator::Divide, Box::new(lhs), Box::new(rhs))
            } else {
                Expression::Binary(BinaryOperator::Multiply, Box::new(lhs), Box::new(rhs))
            };
        }
    }

    /// Prefix `-`, `+` (a no-op), `√` (sqrt), and Programmer-mode `~`
    /// (bitNot).
    pub(super) fn unary(&mut self) -> (r: Result<Expression, EngineError>)
        requires
            old(self).wf(),
        ensures
            final(self).moved_from(*old(self)),
            yields(r, grammar::unary(old(self).shape(), old(self).mode, old(self).index as int),
                final(self).index as int),
            r is Ok ==> final(self).index > old(self).index,
        decreases old(self).tokens@.len() - old(self).index, 32int,
    {
        let kind = self.kind();
        let minus = matches!(kind, TokenKind::Minus);
        let plus = matches!(kind, TokenKind::Plus);
        let sqrt = matches!(kind, TokenKind::SqrtSign);
        let tilde = matches!(kind, TokenKind::Tilde);
        if tilde && !matches!(self.mode, LanguageMode::Programmer) {
            return Err(Self::mode_operator_error("~", "bitNot", self.position()));
        }
        if !minus && !plus && !sqrt && !tilde {
            return self.power();
        }
        self.advance();
        let operand = match self.unary() {
            Ok(e) => e,
            Err(e) => return Err(e),
        };
        if minus {
            Ok(Expression::UnaryMinus(Box::new(operand)))
        } else if plus {
            Ok(operand)
        } else {
            let arguments = single(operand);
            let name = if sqrt { "sqrt" } else { "bitNot" };
            Ok(Expression::Call { name: String::from_str(name), arguments })
        }
    }

    /// `base ^ exponent`: right-associative, the exponent carrying its own
    /// sign (`2^-1`); power outside Programmer mode only.
    fn power(&mut self) -> (r: Result<Expression, EngineError>)
        requires
            old(self).wf(),
        ensures
            final(self).moved_from(*old(self)),
            yields(r, grammar::power(old(self).shape(), old(self).mode, old(self).index as int),
                final(self).index as int),
            r is Ok ==> final(self).index > old(self).index,
        decreases old(self).tokens@.len() - old(self).index, 31int,
    {
        let base = match self.postfix() {
            Ok(e) => e,
            Err(e) => return Err(e),
        };
        if matches!(self.mode, LanguageMode::Programmer) || !matches!(self.kind(), TokenKind::Caret) {
            return Ok(base);
        }
        self.advance();
        let exponent = match self.unary() {
            Ok(e) => e,
            Err(e) => return Err(e),
        };
        Ok(Expression::Binary(BinaryOperator::Power, Box::new(base), Box::new(exponent)))
    }

    /// Postfix accessors, binding tighter than `^`: `arr[0]`, `m.name`,
    /// `host.method(args)`, and (outside Programmer mode) percent `3%`.
    #[verifier::rlimit(50)]
    fn postfix(&mut self) -> (r: Result<Expression, EngineError>)
        requires
            old(self).wf(),
        ensures
            final(self).moved_from(*old(self)),
            yields(r, grammar::postfix(old(self).shape(), old(self).mode, old(self).index as int),
                final(self).index as int),
            r is Ok ==> final(self).index > old(self).index,
        decreases old(self).tokens@.len() - old(self).index, 30int,
    {
        let ghost start = *self;
        let mut expr = match self.primary() {
            Ok(e) => e,
            Err(e) => return Err(e),
        };
        loop
            invariant
                self.moved_from(start),
                start == *old(self),
                start.wf(),
                self.index > start.index,
                grammar::postfix(start.shape(), start.mode, start.index as int) == grammar::postfix_rest(
                    start.shape(),
                    start.mode,
                    self.index as int,
                    tree_of(expr),
                ),
            decreases self.tokens@.len() - self.index,
        {
            if matches!(self.kind(), TokenKind::LeftBracket) {
                self.advance();
                let index = match self.comparison() {
                    Ok(e) => e,
                    Err(e) => return Err(e),
                };
                if !matches!(self.kind(), TokenKind::RightBracket) {
                    return Err(parse_error(String::from_str("expected ']'"), self.position()));
                }
                self.advance();
                expr = Expression::Index { base: Box::new(expr), index: Box::new(index) };
            } else if matches!(self.kind(), TokenKind::Dot) {
                self.advance();
                let name = match self.kind() {
                    TokenKind::Identifier(name) => name.clone(),
                    _ => {
                        return Err(
                            parse_error(
                                String::from_str("expected a key name after '.' — e.g. person.age"),
                                self.position(),
                            ),
                        );
                    },
                };
                self.advance();
                if matches!(self.kind(), TokenKind::LeftParen) {
                    self.advance();
                    let arguments = match self.argument_list() {
                        Ok(a) => a,
                        Err(e) => return Err(e),
                    };
                    expr = Expression::MethodCall { base: Box::new(expr), name, arguments };
                } else {
                    expr = Expression::Member { base: Box::new(expr), name };
                }
            } else if matches!(self.kind(), TokenKind::Percent) && !matches!(self.mode, LanguageMode::Programmer) {
                self.advance();
                expr = Expression::Percent(Box::new(expr));
            } else {
                return Ok(expr);
            }
        }
    }
}

} // verus!
