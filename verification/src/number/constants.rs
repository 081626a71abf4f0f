//! The mathematical constants the language names, to 60 significant digits.

use vstd::prelude::*;
use super::{BigDecimal, canonical};
use crate::bigint::BigInteger;

verus! {

/// π to 60 significant digits.
pub open spec fn pi_value() -> (int, int) {
    (314159265358979323846264338327950288419716939937510582097494int, -59)
}

/// τ = 2π to 60 significant digits.
pub open spec fn tau_value() -> (int, int) {
    (628318530717958647692528676655900576839433879875021164194989int, -59)
}

/// e to 60 significant digits.
pub open spec fn e_value() -> (int, int) {
    (271828182845904523536028747135266249775724709369995957496697int, -59)
}

/// The integer written with the eighteen-digit groups `a`, `b`, `c` and the
/// six-digit group `d`.
fn from_groups(a: i64, b: i64, c: i64, d: i64) -> (r: BigInteger)
    requires
        0 <= a < 1_000_000_000_000_000_000,
        0 <= b < 1_000_000_000_000_000_000,
        0 <= c < 1_000_000_000_000_000_000,
        0 <= d < 1_000_000,
    ensures
        r.wf(),
        r.value() == ((a * 1_000_000_000_000_000_000int + b) * 1_000_000_000_000_000_000int + c) * 1_000_000int + d,
{
    let group = BigInteger::from_i64(1_000_000_000_000_000_000);
    let six = BigInteger::from_i64(1_000_000);
    let high = BigInteger::from_i64(a).mul(&group).add(&BigInteger::from_i64(b));
    let middle = high.mul(&group).add(&BigInteger::from_i64(c));
    middle.mul(&six).add(&BigInteger::from_i64(d))
}

impl BigDecimal {
    /// π.
    pub fn pi() -> (r: Self)
        ensures
            r.wf(),
            r@ == pi_value(),
    {
        let s = from_groups(314159265358979323, 846264338327950288, 419716939937510582, 97494);
        proof {
            assert(s.value() == pi_value().0);
            assert(canonical(pi_value().0, -59) == pi_value());
        }
        BigDecimal::new(s, -59)
    }

    /// τ = 2π.
    pub fn tau() -> (r: Self)
        ensures
            r.wf(),
            r@ == tau_value(),
    {
        let s = from_groups(628318530717958647, 692528676655900576, 839433879875021164, 194989);
        proof {
            assert(s.value() == tau_value().0);
            assert(canonical(tau_value().0, -59) == tau_value());
        }
        BigDecimal::new(s, -59)
    }

    /// e.
    pub fn e() -> (r: Self)
        ensures
            r.wf(),
            r@ == e_value(),
    {
        let s = from_groups(271828182845904523, 536028747135266249, 775724709369995957, 496697);
        proof {
            assert(s.value() == e_value().0);
            assert(canonical(e_value().0, -59) == e_value());
        }
        BigDecimal::new(s, -59)
    }
}

} // verus!
