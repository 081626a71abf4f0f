//! The arithmetic core of the evaluator: number literals, variables (and
//! the constants `true` and `false`), negation and percent, the arithmetic operators, comparisons, the lazy
//! `if`, the `∑`/`∏` reductions and assignment, walked against an
//! environment of numeric variables. Only the taken branch of a conditional
//! is evaluated, a reduction's index is a local that shadows the variables,
//! and the environment changes only through assignment.

use vstd::prelude::*;
use crate::ast::{Expression, BinaryOperator, ComparisonOperator, ReductionOperation, reduction_symbol};
use crate::ast::tree::{Tree, tree_of};
use crate::error::{EngineError, error_text};
use crate::eval::currency::str_equal;
use crate::eval::builtins::{CallOutcome, builtin_of, builtin_result, builtin_named, call_builtin, number_views};
use crate::ast::tree::{trees_of, lemma_trees_index};
use crate::text::{lowercase, to_lowercase, int_text, i64_text, ascii_folded, eq_ignore_ascii_case};
use crate::eval::registry::{FunctionCategory, all_categories, module_name_of};
use crate::eval::value::Value;
use crate::number::{BigDecimal, sum, product, negation, alignable, sum_fits, canonical, canonical_fits,
    compare_values};
use crate::number::rounding::{quotient, quotient_fits, remainder, remainder_fits};
use crate::number::{digit_count_of, common_exponent, is_normalized, lemma_canonical_normalized, pow10};
use crate::number::constants::{pi_value, tau_value, e_value};
use crate::number::math::{PowerOutcome, power_outcome, power_fits, int_value_of};
use crate::eval::numeric::exact_pow;

verus! {

/// Named numeric variables, as the evaluator sees them.
pub struct EvaluationEnvironment {
    variables: Vec<(String, BigDecimal)>,
}

/// A binding's name and value.
pub open spec fn binding_view(b: (String, BigDecimal)) -> (Seq<char>, (int, int)) {
    (b.0@, b.1@)
}

/// No name is bound twice.
pub open spec fn names_distinct(b: Seq<(Seq<char>, (int, int))>) -> bool {
    forall|i: int, j: int| 0 <= i < j < b.len() ==> #[trigger] b[i].0 != #[trigger] b[j].0
}

/// The position of `name` among the bindings, if it is bound.
pub open spec fn position_of(b: Seq<(Seq<char>, (int, int))>, name: Seq<char>) -> Option<int> {
    if exists|i: int| 0 <= i < b.len() && #[trigger] b[i].0 == name {
        Some(choose|i: int| 0 <= i < b.len() && #[trigger] b[i].0 == name)
    } else {
        None
    }
}

/// The value bound to `name`, if any.
pub open spec fn bound(b: Seq<(Seq<char>, (int, int))>, name: Seq<char>) -> Option<(int, int)> {
    match position_of(b, name) {
        Some(i) => Some(b[i].1),
        None => None,
    }
}

/// The bindings after `name = v`: an existing binding is replaced in place,
/// a new one goes last.
pub open spec fn rebound(b: Seq<(Seq<char>, (int, int))>, name: Seq<char>, v: (int, int)) -> Seq<
    (Seq<char>, (int, int)),
> {
    match position_of(b, name) {
        Some(i) => b.update(i, (name, v)),
        None => b.push((name, v)),
    }
}

/// What a read gives back of a write: after `name = v`, `name` reads `v`,
/// every other name reads what it read before, and no name is bound twice.
pub proof fn lemma_rebound_reads_back(
    b: Seq<(Seq<char>, (int, int))>,
    name: Seq<char>,
    other: Seq<char>,
    v: (int, int),
)
    requires
        names_distinct(b),
    ensures
        bound(rebound(b, name, v), name) == Some(v),
        other != name ==> bound(rebound(b, name, v), other) == bound(b, other),
        names_distinct(rebound(b, name, v)),
{
    let after = rebound(b, name, v);
    match position_of(b, name) {
        Some(i) => {
            assert(0 <= i < b.len() && b[i].0 == name);
            assert(after[i].0 == name);
            assert(names_distinct(after)) by {
                assert forall|x: int, y: int| 0 <= x < y < after.len() implies #[trigger] after[x].0
                    != #[trigger] after[y].0 by {
                    if x == i {
                        assert(b[y].0 != b[i].0);
                    } else if y == i {
                        assert(b[x].0 != b[i].0);
                    } else {
                        assert(b[x].0 != b[y].0);
                    }
                }
            }
            let k = choose|k: int| 0 <= k < after.len() && #[trigger] after[k].0 == name;
            if k != i {
                assert(after[k].0 != after[i].0);
            }
            if other != name {
                if exists|j: int| 0 <= j < b.len() && #[trigger] b[j].0 == other {
                    let j = choose|j: int| 0 <= j < b.len() && #[trigger] b[j].0 == other;
                    assert(after[j].0 == other);
                    let j2 = choose|j2: int| 0 <= j2 < after.len() && #[trigger] after[j2].0 == other;
                    if j2 != j {
                        assert(after[j2].0 != after[j].0);
                    }
                } else {
                    assert forall|j: int| 0 <= j < after.len() implies #[trigger] after[j].0 != other by {
                        if j != i {
                            assert(b[j].0 != other);
                        }
                    }
                }
            }
        },
        None => {
            assert(forall|j: int| 0 <= j < b.len() ==> #[trigger] b[j].0 != name);
            let n = b.len() as int;
            assert(after[n].0 == name);
            assert(names_distinct(after)) by {
                assert forall|x: int, y: int| 0 <= x < y < after.len() implies #[trigger] after[x].0
                    != #[trigger] after[y].0 by {
                    if y == n {
                        assert(b[x].0 != name);
                    } else {
                        assert(b[x].0 != b[y].0);
                    }
                }
            }
            let k = choose|k: int| 0 <= k < after.len() && #[trigger] after[k].0 == name;
            if k != n {
                assert(after[k].0 != after[n].0);
            }
            if other != name {
                if exists|j: int| 0 <= j < b.len() && #[trigger] b[j].0 == other {
                    let j = choose|j: int| 0 <= j < b.len() && #[trigger] b[j].0 == other;
                    assert(after[j].0 == other);
                    let j2 = choose|j2: int| 0 <= j2 < after.len() && #[trigger] after[j2].0 == other;
                    if j2 != j {
                        assert(after[j2].0 != after[j].0);
                    }
                } else {
                    assert forall|j: int| 0 <= j < after.len() implies #[trigger] after[j].0 != other by {
                        if j != n {
                            assert(b[j].0 != other);
                        }
                    }
                }
            }
        },
    }
}

impl View for EvaluationEnvironment {
    type V = Seq<(Seq<char>, (int, int))>;

    closed spec fn view(&self) -> Seq<(Seq<char>, (int, int))> {
        self.variables@.map_values(|b: (String, BigDecimal)| binding_view(b))
    }
}

impl EvaluationEnvironment {
    /// Every value is well formed and no name is bound twice.
    pub closed spec fn wf(&self) -> bool {
        &&& forall|i: int| 0 <= i < self.variables@.len() ==> (#[trigger] self.variables@[i]).1.wf()
        &&& names_distinct(self@)
    }

    /// A well-formed environment binds no name twice.
    pub proof fn lemma_distinct(&self)
        requires
            self.wf(),
        ensures
            names_distinct(self@),
    {
    }

    /// An environment with no variables.
    pub fn new() -> (r: Self)
        ensures
            r.wf(),
            r@ == Seq::<(Seq<char>, (int, int))>::empty(),
    {
        EvaluationEnvironment { variables: Vec::new() }
    }

    /// A copy with the same bindings.
    pub fn copy(&self) -> (r: Self)
        requires
            self.wf(),
        ensures
            r.wf(),
            r@ == self@,
    {
        let mut variables: Vec<(String, BigDecimal)> = Vec::new();
        let mut i: usize = 0;
        while i < self.variables.len()
            invariant
                self.wf(),
                i <= self.variables@.len(),
                variables@.len() == i,
                forall|j: int| 0 <= j < i ==> (#[trigger] variables@[j]).1.wf(),
                forall|j: int| 0 <= j < i ==> binding_view(#[trigger] variables@[j]) == binding_view(self.variables@[j]),
            decreases self.variables@.len() - i,
        {
            let name = self.variables[i].0.clone();
            let value = self.variables[i].1.copy();
            variables.push((name, value));
            i = i + 1;
        }
        let r = EvaluationEnvironment { variables };
        proof {
            assert(r@ =~= self@);
        }
        r
    }

    fn find(&self, name: &str) -> (r: Option<usize>)
        requires
            self.wf(),
        ensures
            r matches Some(i) ==> position_of(self@, name@) == Some(i as int) && i < self.variables@.len(),
            r is None ==> position_of(self@, name@) is None,
    {
        let mut i: usize = 0;
        while i < self.variables.len()
            invariant
                self.wf(),
                i <= self.variables@.len(),
                forall|j: int| 0 <= j < i ==> #[trigger] self@[j].0 != name@,
            decreases self.variables@.len() - i,
        {
            proof {
                assert(self@[i as int] == binding_view(self.variables@[i as int]));
            }
            if str_equal(self.variables[i].0.as_str(), name) {
                proof {
                    assert(self@[i as int].0 == name@);
                    let k = choose|k: int| 0 <= k < self@.len() && #[trigger] self@[k].0 == name@;
                    if k != i {
                        assert(self@[k].0 != self@[i as int].0);
                    }
                }
                return Some(i);
            }
            i = i + 1;
        }
        None
    }

    /// The value of `name`, if it is bound.
    pub fn get(&self, name: &str) -> (r: Option<BigDecimal>)
        requires
            self.wf(),
        ensures
            match bound(self@, name@) {
                Some(v) => r matches Some(d) && d.wf() && d@ == v,
                None => r is None,
            },
    {
        match self.find(name) {
            Some(i) => Some(self.variables[i].1.copy()),
            None => None,
        }
    }

    /// Binds `name` to `value`, replacing an existing binding.
    pub fn set(&mut self, name: &str, value: BigDecimal)
        requires
            old(self).wf(),
            value.wf(),
        ensures
            final(self).wf(),
            final(self)@ == rebound(old(self)@, name@, value@),
    {
        let found = self.find(name);
        let ghost before = self@;
        match found {
            Some(i) => {
                self.variables.set(i, (name.to_string(), value));
                proof {
                    assert(self@ =~= before.update(i as int, (name@, value@)));
                }
            },
            None => {
                self.variables.push((name.to_string(), value));
                proof {
                    assert(self@ =~= before.push((name@, value@)));
                }
            },
        }
    }
}

/// What evaluating a tree comes to: a number and the environment after it,
/// an error message and the environment as far as evaluation got, or a
/// result beyond the machine range of the exponents.
pub enum Outcome {
    Value((int, int), Seq<(Seq<char>, (int, int))>),
    Failure(Seq<char>, Seq<(Seq<char>, (int, int))>),
    Overflow,
}

/// The message for an expression outside the arithmetic core.
pub open spec fn unsupported_text() -> Seq<char> {
    "only numbers, variables, arithmetic, comparisons, if, sums, products, core functions and assignment are evaluated here"@
}

/// `x op y` on numbers.
pub open spec fn arithmetic(op: BinaryOperator, x: (int, int), y: (int, int), precision: int, env: Seq<
    (Seq<char>, (int, int)),
>) -> Outcome {
    match op {
        BinaryOperator::Add => if alignable(x, y) && sum_fits(x, y) {
            Outcome::Value(sum(x, y), env)
        } else {
            Outcome::Overflow
        },
        BinaryOperator::Subtract => if alignable(x, y) && sum_fits(x, negation(y)) {
            Outcome::Value(sum(x, negation(y)), env)
        } else {
            Outcome::Overflow
        },
        BinaryOperator::Multiply => if canonical_fits(x.0 * y.0, x.1 + y.1) {
            Outcome::Value(product(x, y), env)
        } else {
            Outcome::Overflow
        },
        BinaryOperator::Divide => if y.0 == 0 {
            Outcome::Failure("division by zero"@, env)
        } else if quotient_fits(x, y, precision) && precision <= usize::MAX {
            Outcome::Value(quotient(x, y, precision), env)
        } else {
            Outcome::Overflow
        },
        BinaryOperator::Modulo => if !alignable(x, y) {
            Outcome::Overflow
        } else if y.0 == 0 {
            Outcome::Failure("division by zero"@, env)
        } else if remainder_fits(x, y) {
            Outcome::Value(remainder(x, y), env)
        } else {
            Outcome::Overflow
        },
        BinaryOperator::Power => if digit_count_of(y) > i64::MAX - 18 {
            Outcome::Overflow
        } else {
            match int_value_of(y) {
                Some(n) => if power_fits(x, n as int, precision) {
                    power_result(power_outcome(x, n as int, precision), env)
                } else {
                    Outcome::Overflow
                },
                None => if x.0 < 0 {
                    Outcome::Failure("negative base with non-integer exponent"@, env)
                } else {
                    Outcome::Failure(unsupported_text(), env)
                },
            }
        },
    }
}

/// An exact power's outcome as an evaluation outcome.
pub open spec fn power_result(o: PowerOutcome, env: Seq<(Seq<char>, (int, int))>) -> Outcome {
    match o {
        PowerOutcome::Value(v) => Outcome::Value(v, env),
        PowerOutcome::Undefined => Outcome::Failure("0^0 is undefined"@, env),
        PowerOutcome::TooLarge => Outcome::Failure("result of ^ is too large"@, env),
        PowerOutcome::DivisionByZero => Outcome::Failure("division by zero"@, env),
    }
}

/// Does `name` name a built-in module (`Finance`, `Stats`, …), in any ASCII
/// letter case?
pub open spec fn is_module_name(name: Seq<char>) -> bool {
    exists|i: int| 0 <= i < all_categories().len() && ascii_folded(#[trigger] module_name_of(all_categories()[i]))
        == ascii_folded(name)
}

/// The numeric constant a lowercased name denotes: `pi`/`π`, `tau`/`τ`,
/// `e`, `true` and `false`.
pub open spec fn named_constant(lowered: Seq<char>) -> Option<(int, int)> {
    if lowered == "pi"@ || lowered == "π"@ {
        Some(pi_value())
    } else if lowered == "tau"@ || lowered == "τ"@ {
        Some(tau_value())
    } else if lowered == "e"@ {
        Some(e_value())
    } else if lowered == "true"@ {
        Some((1, 0))
    } else if lowered == "false"@ {
        Some((0, 0))
    } else {
        None
    }
}

/// Does comparison `op` hold of `c`, the sign of `x - y`?
pub open spec fn comparison_holds(op: ComparisonOperator, c: int) -> bool {
    match op {
        ComparisonOperator::Less => c < 0,
        ComparisonOperator::Greater => c > 0,
        ComparisonOperator::LessOrEqual => c <= 0,
        ComparisonOperator::GreaterOrEqual => c >= 0,
        ComparisonOperator::Equal => c == 0,
        ComparisonOperator::NotEqual => c != 0,
    }
}

/// 1 for true, 0 for false.
pub open spec fn truth(holds: bool) -> (int, int) {
    if holds { (1, 0) } else { (0, 0) }
}

/// The identity a reduction starts from: 0 for a sum, 1 for a product.
pub open spec fn identity_of(op: ReductionOperation) -> (int, int) {
    match op {
        ReductionOperation::Sum => (0, 0),
        ReductionOperation::Product => (1, 0),
    }
}

/// A reduction's running total with one more term, when it stays within the
/// machine range of the exponents.
pub open spec fn combined(op: ReductionOperation, total: (int, int), term: (int, int)) -> Option<(int, int)> {
    match op {
        ReductionOperation::Sum => if alignable(total, term) && sum_fits(total, term) {
            Some(sum(total, term))
        } else {
            None
        },
        ReductionOperation::Product => if canonical_fits(total.0 * term.0, total.1 + term.1) {
            Some(product(total, term))
        } else {
            None
        },
    }
}

/// The terms `i..=upper` of a reduction added to `total`: the body is
/// evaluated with the index bound, as a local, to each integer in turn.
pub open spec fn accumulation(
    op: ReductionOperation,
    index: Seq<char>,
    body: Tree,
    i: int,
    upper: int,
    total: (int, int),
    env: Seq<(Seq<char>, (int, int))>,
    locals: Seq<(Seq<char>, (int, int))>,
    precision: int,
) -> Outcome
    decreases body, upper - i + 1,
{
    if i > upper {
        Outcome::Value(total, env)
    } else {
        match evaluation(body, env, rebound(locals, index, canonical(i, 0)), precision) {
            Outcome::Value(t, e) => match combined(op, total, t) {
                Some(next) => accumulation(op, index, body, i + 1, upper, next, e, locals, precision),
                None => Outcome::Overflow,
            },
            other => other,
        }
    }
}

/// A reduction bound: an integer within `i64`, else the message naming it.
pub open spec fn bound_value(v: (int, int), op: ReductionOperation, which: Seq<char>) -> Result<Option<int>, Seq<char>> {
    if digit_count_of(v) > i64::MAX - 18 {
        Ok(None)
    } else {
        match int_value_of(v) {
            Some(n) => Ok(Some(n as int)),
            None => Err(reduction_symbol(op) + which + " must be an integer"@),
        }
    }
}

/// What evaluating a list of arguments comes to: their numbers and the
/// environment after them, or the first failure.
pub enum ListOutcome {
    Values(Seq<(int, int)>, Seq<(Seq<char>, (int, int))>),
    Failure(Seq<char>, Seq<(Seq<char>, (int, int))>),
    Overflow,
}

/// The arguments evaluated left to right.
pub open spec fn evaluated_arguments(
    args: Seq<Tree>,
    env: Seq<(Seq<char>, (int, int))>,
    locals: Seq<(Seq<char>, (int, int))>,
    precision: int,
) -> ListOutcome
    decreases args, 0int,
{
    if args.len() == 0 {
        ListOutcome::Values(Seq::empty(), env)
    } else {
        match evaluation(args[0], env, locals, precision) {
            Outcome::Value(v, e) => match evaluated_arguments(args.subrange(1, args.len() as int), e, locals, precision) {
                ListOutcome::Values(vs, e2) => ListOutcome::Values(seq![v] + vs, e2),
                other => other,
            },
            Outcome::Failure(m, e) => ListOutcome::Failure(m, e),
            Outcome::Overflow => ListOutcome::Overflow,
        }
    }
}

/// The values already computed put in front of the rest's outcome.
pub open spec fn prepended(done: Seq<(int, int)>, o: ListOutcome) -> ListOutcome {
    match o {
        ListOutcome::Values(vs, e) => ListOutcome::Values(done + vs, e),
        other => other,
    }
}

/// A built-in call's outcome as an evaluation outcome.
pub open spec fn call_result(o: CallOutcome, env: Seq<(Seq<char>, (int, int))>) -> Outcome {
    match o {
        CallOutcome::Value(v) => Outcome::Value(v, env),
        CallOutcome::Failure(m) => Outcome::Failure(m, env),
        CallOutcome::Overflow => Outcome::Overflow,
    }
}

/// Evaluation of a tree against the bindings `env` and the reduction
/// indices `locals` (which shadow them), dividing to `precision`
/// significant digits. Operands go left to right; a failure stops
/// evaluation with the environment as it stands; a conditional evaluates its
/// condition and then only the branch it selects (nonzero is true); a
/// reduction evaluates its bounds, then its body once per integer between
/// them (an empty range gives the identity, more than 100,000 terms is an
/// error).
pub open spec fn evaluation(
    t: Tree,
    env: Seq<(Seq<char>, (int, int))>,
    locals: Seq<(Seq<char>, (int, int))>,
    precision: int,
) -> Outcome
    decreases t, 0int,
{
    match t {
        Tree::Number(v) => if canonical_fits(v.0, v.1) {
            Outcome::Value(canonical(v.0, v.1), env)
        } else {
            Outcome::Overflow
        },
        Tree::Variable(name) => match bound(locals, name) {
            Some(v) => Outcome::Value(v, env),
            None => if lowercase(name) == "ans"@ {
                Outcome::Value(
                    match bound(env, "ans"@) {
                        Some(v) => v,
                        None => (0, 0),
                    },
                    env,
                )
            } else if let Some(v) = named_constant(lowercase(name)) {
                Outcome::Value(v, env)
            } else if lowercase(name) == "json"@ || lowercase(name) == "rounding"@ {
                Outcome::Failure(unsupported_text(), env)
            } else {
                match bound(env, name) {
                    Some(v) => Outcome::Value(v, env),
                    None => Outcome::Failure("unknown variable '"@ + name + seq!['\''], env),
                }
            },
        },
        Tree::UnaryMinus(a) => match evaluation(*a, env, locals, precision) {
            Outcome::Value(v, e) => Outcome::Value(negation(v), e),
            other => other,
        },
        Tree::Percent(a) => match evaluation(*a, env, locals, precision) {
            Outcome::Value(v, e) => if canonical_fits(v.0, v.1 - 2) {
                Outcome::Value(product(v, (1, -2)), e)
            } else {
                Outcome::Overflow
            },
            other => other,
        },
        Tree::Binary(op, a, b) => match evaluation(*a, env, locals, precision) {
            Outcome::Value(x, e1) => match evaluation(*b, e1, locals, precision) {
                Outcome::Value(y, e2) => arithmetic(op, x, y, precision, e2),
                other => other,
            },
            other => other,
        },
        Tree::Comparison(op, a, b) => match evaluation(*a, env, locals, precision) {
            Outcome::Value(x, e1) => match evaluation(*b, e1, locals, precision) {
                Outcome::Value(y, e2) => if alignable(x, y) {
                    Outcome::Value(truth(comparison_holds(op, compare_values(x, y))), e2)
                } else {
                    Outcome::Overflow
                },
                other => other,
            },
            other => other,
        },
        Tree::Conditional(c, then, otherwise) => match evaluation(*c, env, locals, precision) {
            Outcome::Value(x, e1) => if x.0 == 0 {
                evaluation(*otherwise, e1, locals, precision)
            } else {
                evaluation(*then, e1, locals, precision)
            },
            other => other,
        },
        Tree::Assignment(name, a) => match evaluation(*a, env, locals, precision) {
            Outcome::Value(v, e) => Outcome::Value(v, rebound(e, name, v)),
            other => other,
        },
        Tree::Reduction(op, index, lower, upper, body) => match evaluation(*lower, env, locals, precision) {
            Outcome::Value(l, e1) => match bound_value(l, op, " lower bound"@) {
                Ok(None) => Outcome::Overflow,
                Err(m) => Outcome::Failure(m, e1),
                Ok(Some(lo)) => match evaluation(*upper, e1, locals, precision) {
                    Outcome::Value(u, e2) => match bound_value(u, op, " upper bound"@) {
                        Ok(None) => Outcome::Overflow,
                        Err(m) => Outcome::Failure(m, e2),
                        Ok(Some(hi)) => if lo > hi {
                            Outcome::Value(identity_of(op), e2)
                        } else if hi - lo >= 100_000 {
                            Outcome::Failure(reduction_symbol(op) + " spans more than 100,000 terms"@, e2)
                        } else {
                            accumulation(op, index, *body, lo, hi, identity_of(op), e2, locals, precision)
                        },
                    },
                    other => other,
                },
            },
            other => other,
        },
        Tree::CellReference(_, column, row) => Outcome::Failure(
            "no sheet available for "@ + column + ":"@ + int_text(row as int),
            env,
        ),
        Tree::NameReference(_, name) => Outcome::Failure("no sheet available for '"@ + name + "'"@, env),
        Tree::CellRange(_, column, row, _, _) => Outcome::Failure(
            "ranges like "@ + column + ":"@ + int_text(row as int)
                + "..… can only be used inside functions, e.g. sum(A:1..A:9)"@,
            env,
        ),
        Tree::HelpRequest(_) => Outcome::Failure("man works in the calculation log, not a cell"@, env),
        Tree::ImportDirective(name) => if is_module_name(name) {
            Outcome::Value((0, 0), env)
        } else {
            Outcome::Failure("no namespace '"@ + name + "' to import"@, env)
        },
        Tree::Index(b, i) => match evaluation(*b, env, locals, precision) {
            Outcome::Value(_, e1) => match evaluation(*i, e1, locals, precision) {
                Outcome::Value(_, e2) => Outcome::Failure("a number can't be indexed"@, e2),
                other => other,
            },
            other => other,
        },
        Tree::Member(b, name) => match evaluation(*b, env, locals, precision) {
            Outcome::Value(_, e1) => Outcome::Failure("."@ + name + " needs a map or data value, got a number"@, e1),
            other => other,
        },
        Tree::MethodCall(b, name, _) => match evaluation(*b, env, locals, precision) {
            Outcome::Value(_, e1) => Outcome::Failure("."@ + name + "(…) needs a host value, got a number"@, e1),
            other => other,
        },
        Tree::Call(name, args) => match builtin_of(lowercase(name)) {
            Some(b) => match evaluated_arguments(args, env, locals, precision) {
                ListOutcome::Values(vs, e) => call_result(builtin_result(b, vs, precision), e),
                ListOutcome::Failure(m, e) => Outcome::Failure(m, e),
                ListOutcome::Overflow => Outcome::Overflow,
            },
            None => Outcome::Failure(unsupported_text(), env),
        },
        _ => Outcome::Failure(unsupported_text(), env),
    }
}

/// Does the tree contain no assignment?
pub open spec fn assignment_free(t: Tree) -> bool
    decreases t,
{
    match t {
        Tree::Assignment(_, _) => false,
        Tree::UnaryMinus(a) => assignment_free(*a),
        Tree::Percent(a) => assignment_free(*a),
        Tree::Binary(_, a, b) => assignment_free(*a) && assignment_free(*b),
        Tree::Comparison(_, a, b) => assignment_free(*a) && assignment_free(*b),
        Tree::Conditional(c, a, b) => assignment_free(*c) && assignment_free(*a) && assignment_free(*b),
        Tree::Reduction(_, _, lower, upper, body) => assignment_free(*lower) && assignment_free(*upper)
            && assignment_free(*body),
        Tree::Call(_, args) => all_assignment_free(args),
        Tree::Index(b, i) => assignment_free(*b) && assignment_free(*i),
        Tree::Member(b, _) => assignment_free(*b),
        Tree::MethodCall(b, _, _) => assignment_free(*b),
        _ => true,
    }
}

/// No argument contains an assignment.
pub open spec fn all_assignment_free(args: Seq<Tree>) -> bool
    decreases args,
{
    args.len() > 0 ==> assignment_free(args[0]) && all_assignment_free(args.subrange(1, args.len() as int))
}

/// The environment changes only through assignment: evaluating a tree with
/// no assignment in it leaves the bindings as they were, whether it yields
/// a number or fails.
pub proof fn lemma_environment_kept(
    t: Tree,
    env: Seq<(Seq<char>, (int, int))>,
    locals: Seq<(Seq<char>, (int, int))>,
    precision: int,
)
    requires
        assignment_free(t),
    ensures
        evaluation(t, env, locals, precision) matches Outcome::Value(_, e) ==> e == env,
        evaluation(t, env, locals, precision) matches Outcome::Failure(_, e) ==> e == env,
    decreases t, 0int,
{
    match t {
        Tree::UnaryMinus(a) => lemma_environment_kept(*a, env, locals, precision),
        Tree::Percent(a) => lemma_environment_kept(*a, env, locals, precision),
        Tree::Binary(_, a, b) => {
            lemma_environment_kept(*a, env, locals, precision);
            lemma_environment_kept(*b, env, locals, precision);
        },
        Tree::Comparison(_, a, b) => {
            lemma_environment_kept(*a, env, locals, precision);
            lemma_environment_kept(*b, env, locals, precision);
        },
        Tree::Conditional(c, a, b) => {
            lemma_environment_kept(*c, env, locals, precision);
            lemma_environment_kept(*a, env, locals, precision);
            lemma_environment_kept(*b, env, locals, precision);
        },
        Tree::Reduction(op, index, lower, upper, body) => {
            lemma_environment_kept(*lower, env, locals, precision);
            lemma_environment_kept(*upper, env, locals, precision);
            match evaluation(*lower, env, locals, precision) {
                Outcome::Value(l, _) => match bound_value(l, op, " lower bound"@) {
                    Ok(Some(lo)) => match evaluation(*upper, env, locals, precision) {
                        Outcome::Value(u, _) => match bound_value(u, op, " upper bound"@) {
                            Ok(Some(hi)) => lemma_accumulation_kept(op, index, *body, lo, hi, identity_of(op), env,
                                locals, precision),
                            _ => {},
                        },
                        _ => {},
                    },
                    _ => {},
                },
                _ => {},
            }
        },
        Tree::Call(_, args) => lemma_arguments_kept(args, env, locals, precision),
        Tree::Index(b, i) => {
            lemma_environment_kept(*b, env, locals, precision);
            lemma_environment_kept(*i, env, locals, precision);
        },
        Tree::Member(b, _) => lemma_environment_kept(*b, env, locals, precision),
        Tree::MethodCall(b, _, _) => lemma_environment_kept(*b, env, locals, precision),
        _ => {},
    }
}

/// Evaluating assignment-free arguments leaves the bindings as they were.
proof fn lemma_arguments_kept(
    args: Seq<Tree>,
    env: Seq<(Seq<char>, (int, int))>,
    locals: Seq<(Seq<char>, (int, int))>,
    precision: int,
)
    requires
        all_assignment_free(args),
    ensures
        evaluated_arguments(args, env, locals, precision) matches ListOutcome::Values(_, e) ==> e == env,
        evaluated_arguments(args, env, locals, precision) matches ListOutcome::Failure(_, e) ==> e == env,
    decreases args, 0int,
{
    if args.len() > 0 {
        lemma_environment_kept(args[0], env, locals, precision);
        lemma_arguments_kept(args.subrange(1, args.len() as int), env, locals, precision);
    }
}

/// A reduction over an assignment-free body leaves the bindings as they
/// were.
proof fn lemma_accumulation_kept(
    op: ReductionOperation,
    index: Seq<char>,
    body: Tree,
    i: int,
    upper: int,
    total: (int, int),
    env: Seq<(Seq<char>, (int, int))>,
    locals: Seq<(Seq<char>, (int, int))>,
    precision: int,
)
    requires
        assignment_free(body),
    ensures
        accumulation(op, index, body, i, upper, total, env, locals, precision) matches Outcome::Value(_, e) ==> e
            == env,
        accumulation(op, index, body, i, upper, total, env, locals, precision) matches Outcome::Failure(_, e) ==> e
            == env,
    decreases body, upper - i + 1,
{
    if i <= upper {
        let inner = rebound(locals, index, canonical(i, 0));
        lemma_environment_kept(body, env, inner, precision);
        match evaluation(body, env, inner, precision) {
            Outcome::Value(t, _) => match combined(op, total, t) {
                Some(next) => lemma_accumulation_kept(op, index, body, i + 1, upper, next, env, locals, precision),
                None => {},
            },
            _ => {},
        }
    }
}

/// Only the taken branch is evaluated: when the condition comes to zero the
/// conditional is exactly the `otherwise` branch evaluated after it, and the
/// `then` branch, assignments and failures included, has no effect.
pub proof fn lemma_untaken_branch_ignored(
    c: Tree,
    then: Tree,
    then_other: Tree,
    otherwise: Tree,
    env: Seq<(Seq<char>, (int, int))>,
    locals: Seq<(Seq<char>, (int, int))>,
    precision: int,
)
    requires
        evaluation(c, env, locals, precision) matches Outcome::Value(x, _) && x.0 == 0,
    ensures
        evaluation(Tree::Conditional(Box::new(c), Box::new(then), Box::new(otherwise)), env, locals, precision)
            == evaluation(Tree::Conditional(Box::new(c), Box::new(then_other), Box::new(otherwise)), env, locals,
            precision),
        evaluation(Tree::Conditional(Box::new(c), Box::new(then), Box::new(otherwise)), env, locals, precision)
            == evaluation(otherwise, evaluation(c, env, locals, precision)->Value_1, locals, precision),
{
}

/// Two number literals compared by `op`.
pub open spec fn literal_comparison(op: ComparisonOperator, x: (int, int), y: (int, int)) -> Tree {
    Tree::Comparison(op, Box::new(Tree::Number(x)), Box::new(Tree::Number(y)))
}

/// Comparisons order numbers by value: with both significands brought to
/// the smaller exponent (`a` for `x`, `b` for `y`), `x < y` yields 1
/// exactly when `a < b`, `x > y` exactly when `a > b`, and so on, and 0
/// otherwise. In particular `x > x` and `x < x` yield 0, `x <= x` yields 1.
pub proof fn lemma_comparisons_order_numbers(
    x: (int, int),
    y: (int, int),
    env: Seq<(Seq<char>, (int, int))>,
    locals: Seq<(Seq<char>, (int, int))>,
    precision: int,
)
    requires
        is_normalized(x),
        is_normalized(y),
        i64::MIN <= x.1 <= i64::MAX,
        i64::MIN <= y.1 <= i64::MAX,
        alignable(x, y),
    ensures
        ({
            let m = if x.1 <= y.1 { x.1 } else { y.1 };
            let a = x.0 * pow10(x.1 - m);
            let b = y.0 * pow10(y.1 - m);
            &&& evaluation(literal_comparison(ComparisonOperator::Less, x, y), env, locals, precision)
                == Outcome::Value(if a < b { (1int, 0int) } else { (0int, 0int) }, env)
            &&& evaluation(literal_comparison(ComparisonOperator::Greater, x, y), env, locals, precision)
                == Outcome::Value(if a > b { (1int, 0int) } else { (0int, 0int) }, env)
            &&& evaluation(literal_comparison(ComparisonOperator::LessOrEqual, x, y), env, locals, precision)
                == Outcome::Value(if a <= b { (1int, 0int) } else { (0int, 0int) }, env)
            &&& evaluation(literal_comparison(ComparisonOperator::GreaterOrEqual, x, y), env, locals, precision)
                == Outcome::Value(if a >= b { (1int, 0int) } else { (0int, 0int) }, env)
            &&& evaluation(literal_comparison(ComparisonOperator::Equal, x, y), env, locals, precision)
                == Outcome::Value(if a == b { (1int, 0int) } else { (0int, 0int) }, env)
            &&& evaluation(literal_comparison(ComparisonOperator::NotEqual, x, y), env, locals, precision)
                == Outcome::Value(if a != b { (1int, 0int) } else { (0int, 0int) }, env)
        }),
{
    lemma_canonical_normalized(x);
    lemma_canonical_normalized(y);
    assert(canonical_fits(x.0, x.1));
    assert(canonical_fits(y.0, y.1));
    assert(evaluation(Tree::Number(x), env, locals, precision) == Outcome::Value(x, env));
    assert(evaluation(Tree::Number(y), env, locals, precision) == Outcome::Value(y, env));
    let m = if x.1 <= y.1 { x.1 } else { y.1 };
    assert(common_exponent(x, y) == m);
    let c = compare_values(x, y);
    assert(c == (if x.0 * pow10(x.1 - m) < y.0 * pow10(y.1 - m) { -1int } else if x.0 * pow10(x.1 - m) == y.0
        * pow10(y.1 - m) { 0int } else { 1int }));
}

/// Does `r`, with the environment left as `env`, report outcome `o`?
pub open spec fn reports(r: Result<BigDecimal, EngineError>, env: Seq<(Seq<char>, (int, int))>, o: Outcome) -> bool {
    match o {
        Outcome::Value(v, e) => r matches Ok(d) && d.wf() && d@ == v && env == e,
        Outcome::Failure(m, e) => r matches Err(err) && error_text(err) == m && env == e,
        Outcome::Overflow => false,
    }
}

/// Does `r` report outcome `o` as a value?
pub open spec fn reports_value(r: Result<Value, EngineError>, env: Seq<(Seq<char>, (int, int))>, o: Outcome) -> bool {
    match o {
        Outcome::Value(v, e) => r matches Ok(Value::Number(d)) && d.wf() && d@ == v && env == e,
        Outcome::Failure(m, e) => r matches Err(err) && error_text(err) == m && env == e,
        Outcome::Overflow => false,
    }
}

/// The evaluator: how many significant digits division keeps.
pub struct Evaluator {
    pub precision: usize,
}

impl Evaluator {
    /// An evaluator dividing to `precision` significant digits.
    pub fn new(precision: usize) -> (r: Self)
        ensures
            r.precision == precision,
    {
        Evaluator { precision }
    }

    /// Evaluates `expression` against `environment`, which assignments
    /// update.
    pub fn evaluate(&self, expression: &Expression, environment: &mut EvaluationEnvironment) -> (r: Result<
        Value,
        EngineError,
    >)
        requires
            old(environment).wf(),
            !(evaluation(tree_of(*expression), old(environment)@, Seq::empty(), self.precision as int) is Overflow),
        ensures
            final(environment).wf(),
            reports_value(r, final(environment)@, evaluation(tree_of(*expression), old(environment)@, Seq::empty(),
                self.precision as int)),
    {
        let locals = EvaluationEnvironment::new();
        match self.number(expression, environment, &locals) {
            Ok(d) => Ok(Value::Number(d)),
            Err(e) => Err(e),
        }
    }

    fn number(&self, expression: &Expression, environment: &mut EvaluationEnvironment, locals: &EvaluationEnvironment) -> (r: Result<
        BigDecimal,
        EngineError,
    >)
        requires
            old(environment).wf(),
            locals.wf(),
            !(evaluation(tree_of(*expression), old(environment)@, locals@, self.precision as int) is Overflow),
        ensures
            final(environment).wf(),
            reports(r, final(environment)@, evaluation(tree_of(*expression), old(environment)@, locals@,
                self.precision as int)),
        decreases expression, 0int,
    {
        let ghost p = self.precision as int;
        match expression {
            Expression::Number(v) => match v.renormalized() {
                Some(d) => Ok(d),
                None => Err(EngineError::domain("number out of range".to_string())),
            },
            Expression::Variable(name) => match locals.get(name.as_str()) {
                Some(d) => Ok(d),
                None => {
                    let lowered = to_lowercase(name.as_str());
                    let l = lowered.as_str();
                    proof {
                        assert(canonical(1, 0) == (1int, 0int));
                    }
                    if str_equal(l, "ans") {
                        match environment.get("ans") {
                            Some(d) => Ok(d),
                            None => Ok(BigDecimal::zero()),
                        }
                    } else if str_equal(l, "pi") || str_equal(l, "π") {
                        Ok(BigDecimal::pi())
                    } else if str_equal(l, "tau") || str_equal(l, "τ") {
                        Ok(BigDecimal::tau())
                    } else if str_equal(l, "e") {
                        Ok(BigDecimal::e())
                    } else if str_equal(l, "true") {
                        Ok(BigDecimal::one())
                    } else if str_equal(l, "false") {
                        Ok(BigDecimal::zero())
                    } else if str_equal(l, "json") || str_equal(l, "rounding") {
                        Err(EngineError::domain(
                            "only numbers, variables, arithmetic, comparisons, if, sums, products, core functions and assignment are evaluated here".to_string(),
                        ))
                    } else {
                        match environment.get(name.as_str()) {
                            Some(d) => Ok(d),
                            None => Err(EngineError::UnknownVariable { name: name.clone() }),
                        }
                    }
                },
            },
            Expression::UnaryMinus(a) => {
                let v = self.number(a, environment, locals)?;
                Ok(v.neg())
            },
            Expression::Percent(a) => {
                let v = self.number(a, environment, locals)?;
                let hundredth = BigDecimal::new(crate::bigint::BigInteger::from_i64(1), -2);
                proof {
                    assert(canonical(1, -2) == (1int, -2int));
                }
                Ok(v.mul(&hundredth))
            },
            Expression::Binary(op, a, b) => {
                let x = self.number(a, environment, locals)?;
                let y = self.number(b, environment, locals)?;
                self.arithmetic(*op, &x, &y)
            },
            Expression::Comparison(op, a, b) => {
                let x = self.number(a, environment, locals)?;
                let y = self.number(b, environment, locals)?;
                let c = x.compare(&y);
                let holds = match op {
                    ComparisonOperator::Less => c < 0,
                    ComparisonOperator::Greater => c > 0,
                    ComparisonOperator::LessOrEqual => c <= 0,
                    ComparisonOperator::GreaterOrEqual => c >= 0,
                    ComparisonOperator::Equal => c == 0,
                    ComparisonOperator::NotEqual => c != 0,
                };
                proof {
                    assert(canonical(1, 0) == (1int, 0int));
                }
                Ok(if holds { BigDecimal::one() } else { BigDecimal::zero() })
            },
            Expression::Conditional { condition, then, otherwise } => {
                let c = self.number(condition, environment, locals)?;
                if c.is_zero() {
                    self.number(otherwise, environment, locals)
                } else {
                    self.number(then, environment, locals)
                }
            },
            Expression::Assignment { name, value } => {
                let v = self.number(value, environment, locals)?;
                let kept = v.copy();
                environment.set(name.as_str(), v);
                Ok(kept)
            },
            Expression::CellReference { column, row, .. } => {
                let mut message = "no sheet available for ".to_string();
                message.append(column.as_str());
                message.append(":");
                message.append(i64_text(*row).as_str());
                Err(EngineError::domain(message))
            },
            Expression::NameReference { name, .. } => {
                let mut message = "no sheet available for '".to_string();
                message.append(name.as_str());
                message.append("'");
                Err(EngineError::domain(message))
            },
            Expression::CellRange { from_column, from_row, .. } => {
                let mut message = "ranges like ".to_string();
                message.append(from_column.as_str());
                message.append(":");
                message.append(i64_text(*from_row).as_str());
                message.append("..… can only be used inside functions, e.g. sum(A:1..A:9)");
                Err(EngineError::domain(message))
            },
            Expression::ImportDirective { name } => {
                let categories = FunctionCategory::all();
                let mut i: usize = 0;
                let mut found = false;
                while i < 10
                    invariant
                        i <= 10,
                        categories@ == all_categories(),
                        found <==> exists|k: int| 0 <= k < i && ascii_folded(
                            #[trigger] module_name_of(all_categories()[k]),
                        ) == ascii_folded(name@),
                    decreases 10 - i,
                {
                    if eq_ignore_ascii_case(categories[i].module_name(), name.as_str()) {
                        found = true;
                    }
                    i = i + 1;
                }
                if found {
                    Ok(BigDecimal::zero())
                } else {
                    let mut message = "no namespace '".to_string();
                    message.append(name.as_str());
                    message.append("' to import");
                    Err(EngineError::domain(message))
                }
            },
            Expression::HelpRequest { .. } => Err(EngineError::domain(
                "man works in the calculation log, not a cell".to_string(),
            )),
            Expression::Index { base, index } => {
                let _ = self.number(base, environment, locals)?;
                let _ = self.number(index, environment, locals)?;
                Err(EngineError::domain("a number can't be indexed".to_string()))
            },
            Expression::Member { base, name } => {
                let _ = self.number(base, environment, locals)?;
                let mut message = ".".to_string();
                message.append(name.as_str());
                message.append(" needs a map or data value, got a number");
                Err(EngineError::domain(message))
            },
            Expression::MethodCall { base, name, .. } => {
                let _ = self.number(base, environment, locals)?;
                let mut message = ".".to_string();
                message.append(name.as_str());
                message.append("(…) needs a host value, got a number");
                Err(EngineError::domain(message))
            },
            Expression::Call { name, arguments } => match builtin_named(name.as_str()) {
                Some(b) => {
                    proof {
                        lemma_trees_index(arguments@);
                    }
                    let values = self.arguments(arguments, environment, locals)?;
                    call_builtin(b, &values, self.precision)
                },
                None => Err(EngineError::domain(
                    "only numbers, variables, arithmetic, comparisons, if, sums, products, core functions and assignment are evaluated here".to_string(),
                )),
            },
            Expression::Reduction { operation, index, lower, upper, body } => {
                let l = self.number(lower, environment, locals)?;
                let lo = match self.bound(&l, *operation, " lower bound") {
                    Ok(n) => n,
                    Err(e) => return Err(e),
                };
                let u = self.number(upper, environment, locals)?;
                let hi = match self.bound(&u, *operation, " upper bound") {
                    Ok(n) => n,
                    Err(e) => return Err(e),
                };
                if lo > hi {
                    return Ok(match operation {
                        ReductionOperation::Sum => BigDecimal::zero(),
                        ReductionOperation::Product => BigDecimal::one(),
                    });
                }
                if (hi as i128) - (lo as i128) >= 100_000 {
                    let mut message = operation.symbol().to_string();
                    message.append(" spans more than 100,000 terms");
                    return Err(EngineError::domain(message));
                }
                self.reduce(*operation, index, body, lo, hi, environment, locals)
            },
            _ => Err(EngineError::domain(
                "only numbers, variables, arithmetic, comparisons, if, sums, products, core functions and assignment are evaluated here".to_string(),
            )),
        }
    }

    /// The arguments' numbers, left to right.
    fn arguments(&self, arguments: &Vec<Expression>, environment: &mut EvaluationEnvironment, locals: &EvaluationEnvironment) -> (r: Result<
        Vec<BigDecimal>,
        EngineError,
    >)
        requires
            old(environment).wf(),
            locals.wf(),
            !(evaluated_arguments(trees_of(arguments@), old(environment)@, locals@, self.precision as int) is Overflow),
        ensures
            final(environment).wf(),
            match evaluated_arguments(trees_of(arguments@), old(environment)@, locals@, self.precision as int) {
                ListOutcome::Values(vs, e) => r matches Ok(v) && (forall|k: int| 0 <= k < v@.len() ==> (#[trigger] v@[k]).wf())
                    && number_views(v@) == vs && final(environment)@ == e,
                ListOutcome::Failure(m, e) => r matches Err(err) && error_text(err) == m && final(environment)@ == e,
                ListOutcome::Overflow => false,
            },
        decreases arguments, 0int,
    {
        let ghost trees = trees_of(arguments@);
        let ghost whole = evaluated_arguments(trees, old(environment)@, locals@, self.precision as int);
        proof {
            lemma_trees_index(arguments@);
            assert(trees.subrange(0, trees.len() as int) =~= trees);
        }
        let n = arguments.len();
        let mut values: Vec<BigDecimal> = Vec::new();
        let mut i: usize = 0;
        let mut result: Result<Vec<BigDecimal>, EngineError> = Ok(Vec::new());
        loop
            invariant_except_break
                i <= n,
                values@.len() == i,
                forall|k: int| 0 <= k < values@.len() ==> (#[trigger] values@[k]).wf(),
                prepended(number_views(values@), evaluated_arguments(trees.subrange(i as int, n as int), environment@,
                    locals@, self.precision as int)) == whole,
            invariant
                n == arguments@.len(),
                trees == trees_of(arguments@),
                trees.len() == n,
                forall|k: int| 0 <= k < n ==> #[trigger] trees[k] == tree_of(arguments@[k]),
                environment.wf(),
                locals.wf(),
                !(whole is Overflow),
                whole == evaluated_arguments(trees, old(environment)@, locals@, self.precision as int),
            ensures
                environment.wf(),
                match whole {
                    ListOutcome::Values(vs, e) => result matches Ok(v) && (forall|k: int| 0 <= k < v@.len() ==> (#[trigger] v@[k]).wf())
                        && number_views(v@) == vs && environment@ == e,
                    ListOutcome::Failure(m, e) => result matches Err(err) && error_text(err) == m && environment@ == e,
                    ListOutcome::Overflow => false,
                },
            decreases n - i,
        {
            if i == n {
                proof {
                    assert(trees.subrange(i as int, n as int).len() == 0);
                    assert(number_views(values@) + Seq::<(int, int)>::empty() =~= number_views(values@));
                }
                result = Ok(values);
                break;
            }
            let ghost before = environment@;
            let ghost rest = trees.subrange(i as int, n as int);
            proof {
                assert(rest[0] == tree_of(arguments@[i as int]));
                assert(rest.subrange(1, rest.len() as int) =~= trees.subrange(i + 1, n as int));
            }
            let outcome = self.number(&arguments[i], environment, locals);
            match outcome {
                Ok(v) => {
                    let ghost done = number_views(values@);
                    values.push(v);
                    proof {
                        assert(number_views(values@) =~= done.push(v@));
                        match evaluated_arguments(trees.subrange(i + 1, n as int), environment@, locals@, self.precision as int) {
                            ListOutcome::Values(vs, e2) => {
                                assert(done + (seq![v@] + vs) =~= done.push(v@) + vs);
                            },
                            _ => {},
                        }
                    }
                    i = i + 1;
                },
                Err(e) => {
                    result = Err(e);
                    break;
                },
            }
        }
        result
    }

    /// A reduction bound as an integer.
    fn bound(&self, v: &BigDecimal, op: ReductionOperation, which: &str) -> (r: Result<i64, EngineError>)
        requires
            v.wf(),
            !(bound_value(v@, op, which@) matches Ok(None)),
        ensures
            match bound_value(v@, op, which@) {
                Ok(Some(n)) => r == Ok::<i64, EngineError>(n as i64),
                Err(m) => r matches Err(e) && error_text(e) == m,
                Ok(None) => false,
            },
    {
        match v.int_value() {
            Some(n) => Ok(n),
            None => {
                let mut message = op.symbol().to_string();
                message.append(which);
                message.append(" must be an integer");
                Err(EngineError::domain(message))
            },
        }
    }

    /// The terms `lo..=hi` of a reduction.
    fn reduce(
        &self,
        op: ReductionOperation,
        index: &String,
        body: &Expression,
        lo: i64,
        hi: i64,
        environment: &mut EvaluationEnvironment,
        locals: &EvaluationEnvironment,
    ) -> (r: Result<BigDecimal, EngineError>)
        requires
            old(environment).wf(),
            locals.wf(),
            lo <= hi,
            !(accumulation(op, index@, tree_of(*body), lo as int, hi as int, identity_of(op), old(environment)@,
                locals@, self.precision as int) is Overflow),
        ensures
            final(environment).wf(),
            reports(r, final(environment)@, accumulation(op, index@, tree_of(*body), lo as int, hi as int,
                identity_of(op), old(environment)@, locals@, self.precision as int)),
        decreases body, 1int,
    {
        let ghost whole = accumulation(op, index@, tree_of(*body), lo as int, hi as int, identity_of(op),
            old(environment)@, locals@, self.precision as int);
        let mut total = match op {
            ReductionOperation::Sum => BigDecimal::zero(),
            ReductionOperation::Product => BigDecimal::one(),
        };
        let mut i: i64 = lo;
        let mut result: Result<BigDecimal, EngineError> = Ok(BigDecimal::zero());
        loop
            invariant_except_break
                lo <= i <= hi,
                total.wf(),
                accumulation(op, index@, tree_of(*body), i as int, hi as int, total@, environment@, locals@,
                    self.precision as int) == whole,
            invariant
                environment.wf(),
                locals.wf(),
                    !(whole is Overflow),
            ensures
                reports(result, environment@, whole),
            decreases hi - i,
        {
            let ghost before = environment@;
            let ghost sofar = total@;
            let mut inner = locals.copy();
            inner.set(index.as_str(), BigDecimal::from_int(i));
            let ghost step = evaluation(tree_of(*body), before, inner@, self.precision as int);
            proof {
                assert(inner@ == rebound(locals@, index@, canonical(i as int, 0)));
                assert(accumulation(op, index@, tree_of(*body), i as int, hi as int, sofar, before, locals@,
                    self.precision as int) == match step {
                    Outcome::Value(t, e) => match combined(op, sofar, t) {
                        Some(next) => accumulation(op, index@, tree_of(*body), i + 1, hi as int, next, e, locals@,
                            self.precision as int),
                        None => Outcome::Overflow,
                    },
                    other => other,
                });
            }
            let outcome = self.number(body, environment, &inner);
            let term = match outcome {
                Ok(t) => t,
                Err(e) => {
                    result = Err(e);
                    break;
                },
            };
            total = match op {
                ReductionOperation::Sum => total.add(&term),
                ReductionOperation::Product => total.mul(&term),
            };
            if i == hi {
                proof {
                    assert(accumulation(op, index@, tree_of(*body), i + 1, hi as int, total@, environment@, locals@,
                        self.precision as int) == Outcome::Value(total@, environment@));
                }
                result = Ok(total);
                break;
            }
            i = i + 1;
        }
        result
    }

    fn arithmetic(&self, op: BinaryOperator, x: &BigDecimal, y: &BigDecimal) -> (r: Result<BigDecimal, EngineError>)
        requires
            x.wf(),
            y.wf(),
            !(arithmetic(op, x@, y@, self.precision as int, Seq::empty()) is Overflow),
        ensures
            match arithmetic(op, x@, y@, self.precision as int, Seq::empty()) {
                Outcome::Value(v, _) => r matches Ok(d) && d.wf() && d@ == v,
                Outcome::Failure(m, _) => r matches Err(err) && error_text(err) == m,
                Outcome::Overflow => false,
            },
    {
        match op {
            BinaryOperator::Add => Ok(x.add(y)),
            BinaryOperator::Subtract => Ok(x.sub(y)),
            BinaryOperator::Multiply => Ok(x.mul(y)),
            BinaryOperator::Divide => x.div(y, self.precision),
            BinaryOperator::Modulo => x.rem(y),
            BinaryOperator::Power => match exact_pow(x, y, self.precision) {
                Some(r) => r,
                None => Err(EngineError::domain(
                    "only numbers, variables, arithmetic, comparisons, if, sums, products, core functions and assignment are evaluated here".to_string(),
                )),
            },
        }
    }
}

} // verus!
