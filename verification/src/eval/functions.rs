//! Integer helpers of the built-in function library.

use vstd::prelude::*;
use vstd::arithmetic::div_mod::{lemma_fundamental_div_mod, lemma_fundamental_div_mod_converse};
use crate::bigint::{abs, trunc_div, trunc_rem};

verus! {

/// Euclid's algorithm with Rust's truncating remainder.
pub open spec fn euclid(a: int, b: int) -> int
    decreases abs(b),
{
    if b == 0 {
        a
    } else {
        proof {
            lemma_trunc_rem_smaller(a, b);
        }
        euclid(b, trunc_rem(a, b))
    }
}

/// `d` divides `x`.
pub open spec fn divides(d: int, x: int) -> bool {
    exists|k: int| #[trigger] (d * k) == x
}

/// A truncating remainder is smaller in magnitude than the divisor and
/// keeps the dividend's sign.
pub proof fn lemma_trunc_rem_smaller(a: int, b: int)
    requires
        b != 0,
    ensures
        abs(trunc_rem(a, b)) < abs(b),
        a >= 0 ==> trunc_rem(a, b) >= 0,
{
}

/// The Euclidean remainder by a divisor depends only on its magnitude.
proof fn lemma_rem_abs(a: int, b: int)
    requires
        b != 0,
    ensures
        a % b == a % abs(b),
{
    lemma_fundamental_div_mod(a, b);
    let q = a / b;
    let r = a % b;
    if b < 0 {
        assert(a == abs(b) * (-q) + r) by (nonlinear_arith)
            requires
                a == b * q + r,
                b < 0;
        lemma_fundamental_div_mod_converse(a, abs(b), -q, r);
    }
}

/// The greatest common divisor of two integers by Euclid's algorithm, with
/// truncating remainders (the sign follows the last nonzero remainder). The
/// remainder `i64::MIN % -1` overflows, which the two excluded pairs reach.
pub fn gcd_i64(a: i64, b: i64) -> (r: i64)
    requires
        !(a == i64::MIN && b == -1),
        !(a == -1 && b == i64::MIN),
    ensures
        r == euclid(a as int, b as int),
{
    let mut x = a;
    let mut y = b;
    while y != 0
        invariant
            euclid(x as int, y as int) == euclid(a as int, b as int),
            !(x == i64::MIN && y == -1),
            y == i64::MIN ==> x != -1,
        decreases abs(y as int),
    {
        let r = x % y;
        proof {
            lemma_trunc_rem_smaller(x as int, y as int);
            lemma_rem_abs(x as int, y as int);
            lemma_rem_abs(-(x as int), y as int);
            assert(r == trunc_rem(x as int, y as int));
            if y == i64::MIN && x != i64::MIN {
                assert(abs(x as int) < abs(y as int));
                vstd::arithmetic::div_mod::lemma_small_mod(abs(x as int) as nat, abs(y as int) as nat);
                assert(r == x);
            }
        }
        x = y;
        y = r;
    }
    x
}

/// Truncated division reassembles the dividend.
proof fn lemma_trunc_division(a: int, b: int)
    requires
        b != 0,
    ensures
        a == b * trunc_div(a, b) + trunc_rem(a, b),
{
    let x = abs(a);
    let y = abs(b);
    lemma_fundamental_div_mod(x, y);
    let q = x / y;
    let r = x % y;
    if a >= 0 && b > 0 {
    } else if a >= 0 {
        assert(b * (-q) == y * q) by (nonlinear_arith)
            requires b == -y;
    } else if b > 0 {
        assert(b * (-q) + (-r) == -(y * q + r)) by (nonlinear_arith)
            requires b == y;
    } else {
        assert(b * q + (-r) == -(y * q + r)) by (nonlinear_arith)
            requires b == -y;
    }
}

/// What Euclid's algorithm computes is a greatest common divisor: it
/// divides both inputs, and every common divisor of the inputs divides it.
pub proof fn lemma_euclid_is_gcd(a: int, b: int)
    ensures
        divides(euclid(a, b), a),
        divides(euclid(a, b), b),
        forall|d: int| divides(d, a) && divides(d, b) ==> #[trigger] divides(d, euclid(a, b)),
    decreases abs(b),
{
    if b == 0 {
        assert(a * 1 == a);
        assert(a * 0 == 0);
    } else {
        let r = trunc_rem(a, b);
        let q = trunc_div(a, b);
        lemma_trunc_rem_smaller(a, b);
        lemma_trunc_division(a, b);
        lemma_euclid_is_gcd(b, r);
        let g = euclid(b, r);
        assert(euclid(a, b) == g);
        let kb = choose|k: int| #[trigger] (g * k) == b;
        let kr = choose|k: int| #[trigger] (g * k) == r;
        assert(g * (kb * q + kr) == a) by (nonlinear_arith)
            requires
                g * kb == b,
                g * kr == r,
                a == b * q + r;
        assert forall|d: int| divides(d, a) && divides(d, b) implies #[trigger] divides(d, g) by {
            let ka = choose|k: int| #[trigger] (d * k) == a;
            let kd = choose|k: int| #[trigger] (d * k) == b;
            assert(d * (ka - kd * q) == r) by (nonlinear_arith)
                requires
                    d * ka == a,
                    d * kd == b,
                    a == b * q + r;
            assert(divides(d, r));
        }
    }
}

} // verus!
