//! The exact core of the built-in function library: the functions whose
//! results decimal arithmetic decides (`abs`, `min`, `max`, `round`, `mod`,
//! `percent` and the logic functions `not`, `and`, `or`). Names are looked
//! up in any letter case; the argument count is checked before the function
//! runs.

use vstd::prelude::*;
use crate::error::{EngineError, error_text};
use crate::eval::currency::str_equal;
use crate::number::{BigDecimal, alignable, negation, compare_values, canonical, digit_count_of, pow10, scaled,
    common_exponent};
use crate::number::rounding::{quotient, quotient_fits, remainder, remainder_fits, rounded_places, rounded_places_fits};
use crate::number::math::int_value_of;
use crate::text::{int_text, lowercase, to_lowercase};

verus! {

/// A built-in function of the exact core.
#[derive(Debug, Clone, Copy, PartialEq, Eq, Structural)]
pub enum Builtin {
    Abs,
    Min,
    Max,
    Round,
    Modulo,
    Percent,
    Not,
    And,
    Or,
}

/// The built-in a lowercased name denotes.
pub open spec fn builtin_of(lowered: Seq<char>) -> Option<Builtin> {
    if lowered == "abs"@ {
        Some(Builtin::Abs)
    } else if lowered == "min"@ {
        Some(Builtin::Min)
    } else if lowered == "max"@ {
        Some(Builtin::Max)
    } else if lowered == "round"@ {
        Some(Builtin::Round)
    } else if lowered == "mod"@ {
        Some(Builtin::Modulo)
    } else if lowered == "percent"@ {
        Some(Builtin::Percent)
    } else if lowered == "not"@ {
        Some(Builtin::Not)
    } else if lowered == "and"@ {
        Some(Builtin::And)
    } else if lowered == "or"@ {
        Some(Builtin::Or)
    } else {
        None
    }
}

/// A built-in's registered name.
pub open spec fn builtin_name(b: Builtin) -> Seq<char> {
    match b {
        Builtin::Abs => "abs"@,
        Builtin::Min => "min"@,
        Builtin::Max => "max"@,
        Builtin::Round => "round"@,
        Builtin::Modulo => "mod"@,
        Builtin::Percent => "percent"@,
        Builtin::Not => "not"@,
        Builtin::And => "and"@,
        Builtin::Or => "or"@,
    }
}

/// The fewest arguments a built-in takes.
pub open spec fn fewest_arguments(b: Builtin) -> int {
    match b {
        Builtin::Modulo | Builtin::And | Builtin::Or => 2,
        _ => 1,
    }
}

/// The most arguments a built-in takes; `None` for no limit.
pub open spec fn most_arguments(b: Builtin) -> Option<int> {
    match b {
        Builtin::Min | Builtin::Max | Builtin::And | Builtin::Or => None,
        Builtin::Round | Builtin::Modulo => Some(2),
        _ => Some(1),
    }
}

/// How an arity error words the expected count.
pub open spec fn arity_text(b: Builtin) -> Seq<char> {
    match b {
        Builtin::Min | Builtin::Max => "at least 1"@,
        Builtin::And | Builtin::Or => "at least 2"@,
        Builtin::Round => "1 to 2"@,
        Builtin::Modulo => "2"@,
        _ => "1"@,
    }
}

/// The message of an arity error for `got` arguments.
pub open spec fn arity_message(b: Builtin, got: int) -> Seq<char> {
    builtin_name(b) + "() expects "@ + arity_text(b) + " argument"@ + (if arity_text(b) == "1"@ {
        Seq::empty()
    } else {
        seq!['s']
    }) + ", got "@ + int_text(got)
}

/// What a call comes to: a number, an error message, or a result beyond the
/// machine range of the exponents.
pub enum CallOutcome {
    Value((int, int)),
    Failure(Seq<char>),
    Overflow,
}

/// Every two arguments can be aligned for comparison.
pub open spec fn all_alignable(s: Seq<(int, int)>) -> bool {
    forall|i: int, j: int| 0 <= i < s.len() && 0 <= j < s.len() ==> alignable(#[trigger] s[i], #[trigger] s[j])
}

/// The smallest value (the first of equal ones).
pub open spec fn least(s: Seq<(int, int)>) -> (int, int)
    decreases s.len(),
{
    if s.len() <= 1 {
        s[0]
    } else if compare_values(s.last(), least(s.drop_last())) < 0 {
        s.last()
    } else {
        least(s.drop_last())
    }
}

/// The largest value (the last of equal ones).
pub open spec fn greatest(s: Seq<(int, int)>) -> (int, int)
    decreases s.len(),
{
    if s.len() <= 1 {
        s[0]
    } else if compare_values(s.last(), greatest(s.drop_last())) >= 0 {
        s.last()
    } else {
        greatest(s.drop_last())
    }
}

/// A value's significand at exponent `m` (at or below its own exponent).
pub open spec fn at_exponent(v: (int, int), m: int) -> int {
    v.0 * pow10(v.1 - m)
}

/// Comparison of two values reads off their significands at any exponent
/// at or below both of theirs.
proof fn lemma_compare_at(a: (int, int), b: (int, int), m: int)
    requires
        m <= a.1,
        m <= b.1,
    ensures
        (compare_values(a, b) < 0) == (at_exponent(a, m) < at_exponent(b, m)),
        (compare_values(a, b) == 0) == (at_exponent(a, m) == at_exponent(b, m)),
{
    let c = common_exponent(a, b);
    let k = c - m;
    assert(k >= 0);
    vstd::arithmetic::power::lemma_pow_positive(10, k as nat);
    vstd::arithmetic::power::lemma_pow_adds(10, (a.1 - c) as nat, k as nat);
    vstd::arithmetic::power::lemma_pow_adds(10, (b.1 - c) as nat, k as nat);
    assert(pow10(a.1 - m) == pow10(a.1 - c) * pow10(k)) by {
        assert((a.1 - c) as nat + k as nat == (a.1 - m) as nat);
    }
    assert(pow10(b.1 - m) == pow10(b.1 - c) * pow10(k)) by {
        assert((b.1 - c) as nat + k as nat == (b.1 - m) as nat);
    }
    let x = scaled(a, c);
    let y = scaled(b, c);
    let p = pow10(k);
    assert(at_exponent(a, m) == x * p) by (nonlinear_arith)
        requires
            at_exponent(a, m) == a.0 * (pow10(a.1 - c) * p),
            x == a.0 * pow10(a.1 - c);
    assert(at_exponent(b, m) == y * p) by (nonlinear_arith)
        requires
            at_exponent(b, m) == b.0 * (pow10(b.1 - c) * p),
            y == b.0 * pow10(b.1 - c);
    assert((x < y) == (x * p < y * p)) by (nonlinear_arith)
        requires
            p > 0;
    assert((x == y) == (x * p == y * p)) by (nonlinear_arith)
        requires
            p > 0;
}

/// The smallest argument: `least` is one of the values and no value is
/// below it; `greatest` is one of them and none is above it.
pub proof fn lemma_least_and_greatest(s: Seq<(int, int)>)
    requires
        s.len() >= 1,
    ensures
        s.contains(least(s)),
        s.contains(greatest(s)),
        forall|i: int| 0 <= i < s.len() ==> compare_values(least(s), #[trigger] s[i]) <= 0,
        forall|i: int| 0 <= i < s.len() ==> compare_values(greatest(s), #[trigger] s[i]) >= 0,
    decreases s.len(),
{
    if s.len() == 1 {
        assert(s[0] == least(s));
        lemma_compare_at(s[0], s[0], s[0].1);
        return;
    }
    let rest = s.drop_last();
    lemma_least_and_greatest(rest);
    let l = least(rest);
    let g = greatest(rest);
    let z = s.last();
    assert forall|i: int| 0 <= i < s.len() implies compare_values(least(s), #[trigger] s[i]) <= 0 by {
        let m0 = if l.1 <= z.1 { l.1 } else { z.1 };
        let m = if m0 <= s[i].1 { m0 } else { s[i].1 };
        lemma_compare_at(z, l, m);
        lemma_compare_at(l, s[i], m);
        lemma_compare_at(z, s[i], m);
        lemma_compare_at(l, l, m);
        lemma_compare_at(z, z, m);
        if i < s.len() - 1 {
            assert(s[i] == rest[i]);
            assert(compare_values(l, rest[i]) <= 0);
        }
    }
    assert forall|i: int| 0 <= i < s.len() implies compare_values(greatest(s), #[trigger] s[i]) >= 0 by {
        let m0 = if g.1 <= z.1 { g.1 } else { z.1 };
        let m = if m0 <= s[i].1 { m0 } else { s[i].1 };
        lemma_compare_at(z, g, m);
        lemma_compare_at(g, s[i], m);
        lemma_compare_at(z, s[i], m);
        lemma_compare_at(g, g, m);
        lemma_compare_at(z, z, m);
        if i < s.len() - 1 {
            assert(s[i] == rest[i]);
            assert(compare_values(g, rest[i]) >= 0);
        }
    }
    let j = choose|j: int| 0 <= j < rest.len() && rest[j] == l;
    let k = choose|k: int| 0 <= k < rest.len() && rest[k] == g;
    assert(s[j] == l && s[k] == g && s[s.len() - 1] == z);
}

/// 1 for true, 0 for false.
pub open spec fn truth_value(holds: bool) -> (int, int) {
    if holds { (1, 0) } else { (0, 0) }
}

/// Calling `b` on the numbers `args`, dividing to `precision` digits.
pub open spec fn builtin_result(b: Builtin, args: Seq<(int, int)>, precision: int) -> CallOutcome {
    if args.len() < fewest_arguments(b) || (most_arguments(b) matches Some(h) && args.len() > h) {
        CallOutcome::Failure(arity_message(b, args.len() as int))
    } else {
        match b {
            Builtin::Abs => CallOutcome::Value(if args[0].0 < 0 { negation(args[0]) } else { args[0] }),
            Builtin::Min => if all_alignable(args) { CallOutcome::Value(least(args)) } else { CallOutcome::Overflow },
            Builtin::Max => if all_alignable(args) {
                CallOutcome::Value(greatest(args))
            } else {
                CallOutcome::Overflow
            },
            Builtin::Round => if args.len() == 2 && digit_count_of(args[1]) > i64::MAX - 18 {
                CallOutcome::Overflow
            } else {
                match (if args.len() == 2 { int_value_of(args[1]) } else { Some(0i64) }) {
                    None => CallOutcome::Failure("round places must be an integer"@),
                    Some(p) => if rounded_places_fits(args[0], p as int, false) {
                        CallOutcome::Value(rounded_places(args[0], p as int, false))
                    } else {
                        CallOutcome::Overflow
                    },
                }
            },
            Builtin::Modulo => if !alignable(args[0], args[1]) {
                CallOutcome::Overflow
            } else if args[1].0 == 0 {
                CallOutcome::Failure("division by zero"@)
            } else if remainder_fits(args[0], args[1]) {
                CallOutcome::Value(remainder(args[0], args[1]))
            } else {
                CallOutcome::Overflow
            },
            Builtin::Percent => if quotient_fits(args[0], (1, 2), precision) && 0 <= precision <= usize::MAX {
                CallOutcome::Value(quotient(args[0], (1, 2), precision))
            } else {
                CallOutcome::Overflow
            },
            Builtin::Not => CallOutcome::Value(truth_value(args[0].0 == 0)),
            Builtin::And => CallOutcome::Value(truth_value(forall|i: int| 0 <= i < args.len() ==> #[trigger] args[i].0 != 0)),
            Builtin::Or => CallOutcome::Value(truth_value(exists|i: int| 0 <= i < args.len() && #[trigger] args[i].0 != 0)),
        }
    }
}

/// The views of a list of numbers.
pub open spec fn number_views(s: Seq<BigDecimal>) -> Seq<(int, int)> {
    s.map_values(|d: BigDecimal| d@)
}

/// Does `r` report `o`?
pub open spec fn reports_call(r: Result<BigDecimal, EngineError>, o: CallOutcome) -> bool {
    match o {
        CallOutcome::Value(v) => r matches Ok(d) && d.wf() && d@ == v,
        CallOutcome::Failure(m) => r matches Err(e) && error_text(e) == m,
        CallOutcome::Overflow => false,
    }
}

/// The built-in `name` denotes, in any letter case.
pub fn builtin_named(name: &str) -> (r: Option<Builtin>)
    ensures
        r == builtin_of(lowercase(name@)),
{
    let lowered = to_lowercase(name);
    let l = lowered.as_str();
    if str_equal(l, "abs") {
        Some(Builtin::Abs)
    } else if str_equal(l, "min") {
        Some(Builtin::Min)
    } else if str_equal(l, "max") {
        Some(Builtin::Max)
    } else if str_equal(l, "round") {
        Some(Builtin::Round)
    } else if str_equal(l, "mod") {
        Some(Builtin::Modulo)
    } else if str_equal(l, "percent") {
        Some(Builtin::Percent)
    } else if str_equal(l, "not") {
        Some(Builtin::Not)
    } else if str_equal(l, "and") {
        Some(Builtin::And)
    } else if str_equal(l, "or") {
        Some(Builtin::Or)
    } else {
        None
    }
}

impl Builtin {
    /// The registered name.
    pub fn name(&self) -> (r: &'static str)
        ensures
            r@ == builtin_name(*self),
    {
        match self {
            Builtin::Abs => "abs",
            Builtin::Min => "min",
            Builtin::Max => "max",
            Builtin::Round => "round",
            Builtin::Modulo => "mod",
            Builtin::Percent => "percent",
            Builtin::Not => "not",
            Builtin::And => "and",
            Builtin::Or => "or",
        }
    }

    /// How an arity error words the expected count.
    pub fn arity_description(&self) -> (r: &'static str)
        ensures
            r@ == arity_text(*self),
    {
        match self {
            Builtin::Min | Builtin::Max => "at least 1",
            Builtin::And | Builtin::Or => "at least 2",
            Builtin::Round => "1 to 2",
            Builtin::Modulo => "2",
            _ => "1",
        }
    }
}

/// Calls `b` on `args`, dividing to `precision` significant digits.
pub fn call_builtin(b: Builtin, args: &Vec<BigDecimal>, precision: usize) -> (r: Result<BigDecimal, EngineError>)
    requires
        forall|i: int| 0 <= i < args@.len() ==> (#[trigger] args@[i]).wf(),
        !(builtin_result(b, number_views(args@), precision as int) is Overflow),
    ensures
        reports_call(r, builtin_result(b, number_views(args@), precision as int)),
{
    let ghost s = number_views(args@);
    let n = args.len();
    proof {
        assert(s.len() == n);
        assert forall|i: int| 0 <= i < n implies #[trigger] s[i] == args@[i]@ by {}
    }
    let too_many = match b {
        Builtin::Min | Builtin::Max | Builtin::And | Builtin::Or => false,
        Builtin::Round | Builtin::Modulo => n > 2,
        _ => n > 1,
    };
    let too_few = match b {
        Builtin::Modulo | Builtin::And | Builtin::Or => n < 2,
        _ => n < 1,
    };
    if too_few || too_many {
        return Err(EngineError::ArityMismatch {
            function: b.name().to_string(),
            expected: b.arity_description().to_string(),
            got: n,
        });
    }
    proof {
        assert(canonical(1, 0) == (1int, 0int));
    }
    match b {
        Builtin::Abs => Ok(if args[0].is_negative() { args[0].neg() } else { args[0].copy() }),
        Builtin::Min | Builtin::Max => {
            let mut best = args[0].copy();
            let mut i: usize = 1;
            proof {
                assert(best@ == s[0]);
                assert(s.take(1) =~= seq![s[0]]);
            }
            while i < n
                invariant
                    1 <= i <= n,
                    n == args@.len(),
                    s == number_views(args@),
                    forall|k: int| 0 <= k < n ==> (#[trigger] args@[k]).wf(),
                    forall|k: int| 0 <= k < n ==> #[trigger] s[k] == args@[k]@,
                    all_alignable(s),
                    best.wf(),
                    b == Builtin::Min ==> best@ == least(s.take(i as int)),
                    b == Builtin::Max ==> best@ == greatest(s.take(i as int)),
                    exists|k: int| 0 <= k < i && best@ == #[trigger] s[k],
                decreases n - i,
            {
                let ghost k0 = choose|k: int| 0 <= k < i && best@ == #[trigger] s[k];
                proof {
                    assert(alignable(s[i as int], s[k0]));
                    assert(s.take(i + 1).drop_last() =~= s.take(i as int));
                    assert(s.take(i + 1).last() == s[i as int]);
                }
                let c = args[i].compare(&best);
                let take = if b == Builtin::Min { c < 0 } else { c >= 0 };
                if take {
                    best = args[i].copy();
                }
                i = i + 1;
            }
            proof {
                assert(s.take(n as int) =~= s);
            }
            Ok(best)
        },
        Builtin::Round => {
            let places = if n == 2 {
                match args[1].int_value() {
                    Some(p) => p,
                    None => return Err(EngineError::domain("round places must be an integer".to_string())),
                }
            } else {
                0
            };
            Ok(args[0].rounded_to_places(places))
        },
        Builtin::Modulo => args[0].rem(&args[1]),
        Builtin::Percent => {
            let hundred = BigDecimal::from_int(100);
            proof {
                assert(canonical(100, 0) == (1int, 2int)) by {
                    assert(canonical(100, 0) == canonical(10, 1));
                    assert(canonical(10, 1) == canonical(1, 2));
                }
            }
            args[0].div(&hundred, precision)
        },
        Builtin::Not => Ok(if args[0].is_zero() { BigDecimal::one() } else { BigDecimal::zero() }),
        Builtin::And | Builtin::Or => {
            let mut found = false;
            let mut i: usize = 0;
            while i < n
                invariant
                    i <= n,
                    n == args@.len(),
                    s.len() == n,
                    forall|k: int| 0 <= k < n ==> (#[trigger] args@[k]).wf(),
                    forall|k: int| 0 <= k < n ==> #[trigger] s[k] == args@[k]@,
                    b == Builtin::And ==> (found <==> exists|k: int| 0 <= k < i && #[trigger] s[k].0 == 0),
                    b == Builtin::Or ==> (found <==> exists|k: int| 0 <= k < i && #[trigger] s[k].0 != 0),
                decreases n - i,
            {
                let zero = args[i].is_zero();
                proof {
                    assert(s[i as int] == args@[i as int]@);
                }
                if (b == Builtin::And && zero) || (b == Builtin::Or && !zero) {
                    found = true;
                }
                i = i + 1;
            }
            let holds = if b == Builtin::And { !found } else { found };
            Ok(if holds { BigDecimal::one() } else { BigDecimal::zero() })
        },
    }
}

} // verus!
