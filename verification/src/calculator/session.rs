//! The calculation log's session: the variables a log has defined, and
//! `ans`, which names the last result.

use vstd::prelude::*;
use crate::ast::Expression;
use crate::ast::tree::tree_of;
use crate::error::{EngineError, error_text};
use crate::eval::evaluator::{EvaluationEnvironment, Evaluator, Outcome, evaluation, rebound, bound,
    lemma_rebound_reads_back};
use crate::eval::value::Value;
use crate::number::BigDecimal;
use crate::calculator::host_seams::{standalone_comment, standalone_comment_of};
use crate::lexer::{lex, line_fits, is_lex_error, LexedKind, TokenKind};
use crate::lexer::grammar::Lexed;
use crate::mode::LanguageMode;
use crate::parser::{Parser, is_parse_error};
use crate::parser::grammar::{Parse, parsed};
use crate::ast::tree::Tree;
use crate::text::{trim, trimmed, chars_of, string_of};

verus! {

/// A calculation session: its variables, the division precision and the
/// language mode its lines are read in.
pub struct Calculator {
    environment: EvaluationEnvironment,
    precision: usize,
    mode: LanguageMode,
}

/// What one log line comes to.
pub enum EvalOutcome {
    /// A calculation's value, which became `ans`.
    Value(Value),
    /// A comment-only line (`# note`): recorded, never affecting `ans`.
    Comment(String),
    /// A declaration line (`import Finance`), reported by its source form;
    /// it does not affect `ans`.
    DataDefined { declaration: String },
}

/// A log line as it is read: surrounding whitespace dropped, and one
/// leading `=` (a pasted cell formula) with the whitespace after it.
pub open spec fn prepared_line(input: Seq<char>) -> Seq<char> {
    let t = trimmed(input);
    if t.len() > 0 && t[0] == '=' {
        trimmed(t.drop_first())
    } else {
        t
    }
}

/// How a prepared line reads: a comment, a lexer or parser error, or a tree.
pub enum LineReading {
    Comment(Seq<char>),
    LexFailed(Seq<char>, int),
    ParseFailed(Seq<char>, int),
    Parsed(Tree),
    Overflow,
}

/// The reading of `line` in `mode`.
pub open spec fn line_reading(line: Seq<char>, mode: LanguageMode) -> LineReading {
    match standalone_comment_of(line) {
        Some(c) => LineReading::Comment(c),
        None => match lex(line) {
            Lexed::Error(m, p) => LineReading::LexFailed(m, p),
            Lexed::Overflow => LineReading::Overflow,
            Lexed::Tokens(ts) => match parsed(
                ts.push((LexedKind::Other(TokenKind::End), line.len() as int, line.len() as int)),
                mode,
            ) {
                Parse::Done(t, _) => LineReading::Parsed(t),
                Parse::Fail(m, p) => LineReading::ParseFailed(m, p),
            },
        },
    }
}

/// The line with one leading `=` and the surrounding whitespace removed.
fn prepare(input: &str) -> (r: String)
    ensures
        r@ == prepared_line(input@),
{
    let t = trim(input);
    let chars = chars_of(t);
    if chars.len() > 0 && chars[0] == '=' {
        let rest = string_of(&chars, 1, chars.len());
        proof {
            assert(chars@.subrange(1, chars@.len() as int) =~= trimmed(input@).drop_first());
        }
        trim(rest.as_str()).to_string()
    } else {
        t.to_string()
    }
}

impl Calculator {
    /// The session's variables, `ans` among them once a value was computed.
    pub closed spec fn variables(&self) -> Seq<(Seq<char>, (int, int))> {
        self.environment@
    }

    /// How many significant digits division keeps.
    pub closed spec fn digits(&self) -> usize {
        self.precision
    }

    /// The language mode lines are read in.
    pub closed spec fn language(&self) -> LanguageMode {
        self.mode
    }

    /// Reads later lines in `mode`.
    pub fn set_mode(&mut self, mode: LanguageMode)
        requires
            old(self).wf(),
        ensures
            final(self).wf(),
            final(self).language() == mode,
            final(self).variables() == old(self).variables(),
            final(self).digits() == old(self).digits(),
    {
        self.mode = mode;
    }

    /// The environment is well formed.
    pub closed spec fn wf(&self) -> bool {
        self.environment.wf()
    }

    /// A fresh session dividing to 50 significant digits, with `ans` zero.
    pub fn new() -> (r: Self)
        ensures
            r.wf(),
            r.variables() == seq![("ans"@, (0int, 0int))],
            r.digits() == 50,
            r.language() == LanguageMode::Normal,
    {
        let mut environment = EvaluationEnvironment::new();
        environment.set("ans", BigDecimal::zero());
        proof {
            assert(rebound(Seq::<(Seq<char>, (int, int))>::empty(), "ans"@, (0int, 0int)) =~= seq![("ans"@, (0int, 0int))]);
        }
        Calculator { environment, precision: 50, mode: LanguageMode::Normal }
    }

    /// The value of a variable of the session.
    pub fn get(&self, name: &str) -> (r: Option<BigDecimal>)
        requires
            self.wf(),
        ensures
            match bound(self.variables(), name@) {
                Some(v) => r matches Some(d) && d.wf() && d@ == v,
                None => r is None,
            },
    {
        self.environment.get(name)
    }

    /// Evaluates one parsed line. On success the value becomes `ans`; a
    /// failure leaves the variables as evaluation left them.
    pub fn evaluate_expression(&mut self, expression: &Expression) -> (r: Result<Value, EngineError>)
        requires
            old(self).wf(),
            !(evaluation(tree_of(*expression), old(self).variables(), Seq::empty(), old(self).digits() as int)
                is Overflow),
        ensures
            final(self).wf(),
            final(self).digits() == old(self).digits(),
            final(self).language() == old(self).language(),
            match evaluation(tree_of(*expression), old(self).variables(), Seq::empty(), old(self).digits() as int) {
                Outcome::Value(v, e) => r matches Ok(Value::Number(d)) && d.wf() && d@ == v
                    && final(self).variables() == rebound(e, "ans"@, v),
                Outcome::Failure(m, e) => r matches Err(err) && error_text(err) == m && final(self).variables() == e,
                Outcome::Overflow => false,
            },
            r matches Ok(Value::Number(d)) ==> bound(final(self).variables(), "ans"@) == Some(d@),
    {
        let evaluator = Evaluator::new(self.precision);
        let r = evaluator.evaluate(expression, &mut self.environment);
        match r {
            Ok(Value::Number(d)) => {
                let kept = d.copy();
                proof {
                    self.environment.lemma_distinct();
                    lemma_rebound_reads_back(self.environment@, "ans"@, "ans"@, d@);
                }
                self.environment.set("ans", d);
                Ok(Value::Number(kept))
            },
            other => other,
        }
    }

    /// Evaluates one line of the log: surrounding whitespace and one leading
    /// `=` are dropped; a comment-only line is a note; otherwise the line is
    /// parsed in the session's mode and evaluated, and its value becomes
    /// `ans`. A lexer or parser error leaves the session as it was.
    pub fn evaluate(&mut self, input: &str) -> (r: Result<EvalOutcome, EngineError>)
        requires
            old(self).wf(),
            line_fits(prepared_line(input@)),
            !(line_reading(prepared_line(input@), old(self).language()) is Overflow),
            line_reading(prepared_line(input@), old(self).language()) matches LineReading::Parsed(t) ==> !(evaluation(
                t,
                old(self).variables(),
                Seq::empty(),
                old(self).digits() as int,
            ) is Overflow),
        ensures
            final(self).wf(),
            final(self).digits() == old(self).digits(),
            final(self).language() == old(self).language(),
            match line_reading(prepared_line(input@), old(self).language()) {
                LineReading::Comment(c) => r matches Ok(EvalOutcome::Comment(s)) && s@ == c
                    && final(self).variables() == old(self).variables(),
                LineReading::LexFailed(m, p) => r matches Err(e) && is_lex_error(e, m, p)
                    && final(self).variables() == old(self).variables(),
                LineReading::ParseFailed(m, p) => r matches Err(e) && is_parse_error(e, m, p)
                    && final(self).variables() == old(self).variables(),
                LineReading::Parsed(Tree::ImportDirective(name)) => match evaluation(
                    Tree::ImportDirective(name),
                    old(self).variables(),
                    Seq::empty(),
                    old(self).digits() as int,
                ) {
                    Outcome::Value(_, e) => r matches Ok(EvalOutcome::DataDefined { declaration })
                        && declaration@ == "import "@ + name && final(self).variables() == e,
                    Outcome::Failure(m, e) => r matches Err(err) && error_text(err) == m && final(self).variables() == e,
                    Outcome::Overflow => false,
                },
                LineReading::Parsed(t) => match evaluation(t, old(self).variables(), Seq::empty(), old(self).digits() as int) {
                    Outcome::Value(v, e) => r matches Ok(EvalOutcome::Value(Value::Number(d))) && d.wf() && d@ == v
                        && final(self).variables() == rebound(e, "ans"@, v),
                    Outcome::Failure(m, e) => r matches Err(err) && error_text(err) == m && final(self).variables() == e,
                    Outcome::Overflow => false,
                },
                LineReading::Overflow => false,
            },
    {
        let line = prepare(input);
        if let Some(comment) = standalone_comment(line.as_str()) {
            return Ok(EvalOutcome::Comment(comment));
        }
        let expression = match Parser::parse(line.as_str(), self.mode) {
            Ok(e) => e,
            Err(e) => return Err(e),
        };
        if let Expression::ImportDirective { name } = &expression {
            let evaluator = Evaluator::new(self.precision);
            return match evaluator.evaluate(&expression, &mut self.environment) {
                Ok(_) => {
                    let mut declaration = "import ".to_string();
                    declaration.append(name.as_str());
                    Ok(EvalOutcome::DataDefined { declaration })
                },
                Err(e) => Err(e),
            };
        }
        match self.evaluate_expression(&expression) {
            Ok(v) => Ok(EvalOutcome::Value(v)),
            Err(e) => Err(e),
        }
    }
}

} // verus!
