//! The algebra the exact decimal arithmetic keeps: sums and products are
//! exact, commute, and have their identities and inverses; comparison is
//! antisymmetric; a remainder takes the dividend's sign; rounding to places
//! is idempotent; division gives back a factor exactly when the quotient
//! terminates within the precision, and never keeps more digits than that.

use vstd::prelude::*;
use vstd::arithmetic::power::{lemma_pow_positive, lemma_pow0, lemma_pow1, lemma_pow_adds};
use super::{canonical, common_exponent, compare_values, is_normalized, lemma_canonical, lemma_canonical_normalized,
    lemma_canonical_scale, negation, pow10, product, scaled, sum};
use super::rounding::{remainder, rounded_places, quotient, division_unrounded, round_half_even};
use super::digit_count_of;
use super::format::lemma_decimal_digits_nonempty;
use crate::bigint::{abs, trunc_div, trunc_rem, decimal_digits};

verus! {

/// A value's significand at an exponent at or below its own.
proof fn lemma_canonical_scaled(s: int, m: int)
    ensures
        canonical(s, m) == (0int, 0int) || canonical(s, m).1 >= m,
        s == 0 ==> canonical(s, m) == (0int, 0int),
        scaled(canonical(s, m), m) == s,
{
    lemma_canonical(s, m);
    if s == 0 {
        assert(scaled((0int, 0int), m) == 0 * pow10(0 - m));
    }
}

/// Addition is exact: at the operands' common exponent the sum's
/// significand is the sum of theirs.
pub proof fn lemma_sum_exact(a: (int, int), b: (int, int))
    ensures
        scaled(sum(a, b), common_exponent(a, b)) == scaled(a, common_exponent(a, b)) + scaled(b, common_exponent(a, b)),
{
    let m = common_exponent(a, b);
    lemma_canonical_scaled(scaled(a, m) + scaled(b, m), m);
}

/// Addition commutes.
pub proof fn lemma_sum_commutative(a: (int, int), b: (int, int))
    ensures
        sum(a, b) == sum(b, a),
{
}

/// Zero is the identity of addition.
pub proof fn lemma_sum_zero(a: (int, int))
    requires
        is_normalized(a),
    ensures
        sum(a, (0, 0)) == a,
{
    let m = common_exponent(a, (0, 0));
    let k = (a.1 - m) as nat;
    assert(scaled((0int, 0int), m) == 0) by {
        assert(0 * pow10(0 - m) == 0);
    }
    lemma_canonical_scale(a.0, a.1, k);
    assert(a.1 - k == m);
    lemma_canonical_normalized(a);
}

/// A value plus its negation is zero.
pub proof fn lemma_sum_negation(a: (int, int))
    ensures
        sum(a, negation(a)) == (0int, 0int),
{
    let m = common_exponent(a, negation(a));
    assert(m == a.1);
    lemma_pow0(10);
    assert(scaled(a, m) + scaled(negation(a), m) == 0) by {
        assert(pow10(0) == 1);
    }
}

/// Negation undoes itself.
pub proof fn lemma_negation_involutive(a: (int, int))
    ensures
        negation(negation(a)) == a,
{
}

/// Multiplication is exact: the product's significand at the sum of the
/// exponents is the product of the significands.
pub proof fn lemma_product_exact(a: (int, int), b: (int, int))
    ensures
        scaled(product(a, b), a.1 + b.1) == a.0 * b.0,
{
    lemma_canonical_scaled(a.0 * b.0, a.1 + b.1);
}

/// Multiplication commutes.
pub proof fn lemma_product_commutative(a: (int, int), b: (int, int))
    ensures
        product(a, b) == product(b, a),
{
    assert(a.0 * b.0 == b.0 * a.0) by (nonlinear_arith);
}

/// One is the identity of multiplication, and zero absorbs.
pub proof fn lemma_product_identities(a: (int, int))
    requires
        is_normalized(a),
    ensures
        product(a, (1, 0)) == a,
        product(a, (0, 0)) == (0int, 0int),
{
    lemma_canonical_normalized(a);
    assert(a.0 * 1 == a.0);
    assert(a.0 * 0 == 0);
}

/// Comparison is antisymmetric, and a value equals itself.
pub proof fn lemma_compare_antisymmetric(a: (int, int), b: (int, int))
    ensures
        compare_values(a, b) == -compare_values(b, a),
        compare_values(a, a) == 0,
{
}

/// Comparison agrees with subtraction: `a` is below `b` exactly when `a − b`
/// is negative.
pub proof fn lemma_compare_by_difference(a: (int, int), b: (int, int))
    ensures
        (compare_values(a, b) < 0) == (sum(a, negation(b)).0 < 0),
        (compare_values(a, b) == 0) == (sum(a, negation(b)).0 == 0),
{
    let m = common_exponent(a, b);
    assert(common_exponent(a, negation(b)) == m);
    assert(scaled(negation(b), m) == -scaled(b, m)) by (nonlinear_arith)
        requires
            scaled(negation(b), m) == (-b.0) * pow10(b.1 - m),
            scaled(b, m) == b.0 * pow10(b.1 - m);
    lemma_canonical(scaled(a, m) + scaled(negation(b), m), m);
}

/// A remainder takes the dividend's sign (or is zero) and is smaller in
/// magnitude than the divisor, both at their common exponent.
pub proof fn lemma_remainder_sign(a: (int, int), b: (int, int))
    requires
        b.0 != 0,
    ensures
        a.0 >= 0 ==> remainder(a, b).0 >= 0,
        a.0 <= 0 ==> remainder(a, b).0 <= 0,
        abs(scaled(remainder(a, b), common_exponent(a, b))) < abs(scaled(b, common_exponent(a, b))),
{
    let m = common_exponent(a, b);
    let p = pow10(a.1 - m);
    let q = pow10(b.1 - m);
    lemma_pow_positive(10, (a.1 - m) as nat);
    lemma_pow_positive(10, (b.1 - m) as nat);
    assert((a.0 >= 0) == (a.0 * p >= 0)) by (nonlinear_arith)
        requires p > 0;
    assert((a.0 <= 0) == (a.0 * p <= 0)) by (nonlinear_arith)
        requires p > 0;
    assert(b.0 * q != 0) by (nonlinear_arith)
        requires b.0 != 0, q > 0;
    let r = trunc_rem(scaled(a, m), scaled(b, m));
    assert(abs(scaled(b, m)) > 0);
    assert(abs(scaled(a, m)) % abs(scaled(b, m)) >= 0);
    if scaled(a, m) == 0 {
        vstd::arithmetic::div_mod::lemma_small_mod(0, abs(scaled(b, m)) as nat);
    }
    assert(a.0 <= 0 ==> r <= 0);
    lemma_canonical(r, m);
    lemma_canonical_scaled(r, m);
}

/// Rounding to a number of places is idempotent: a rounded value rounds to
/// itself.
pub proof fn lemma_rounding_idempotent(v: (int, int), places: int, half_up: bool)
    requires
        is_normalized(v),
        places >= 0,
    ensures
        rounded_places(rounded_places(v, places, half_up), places, half_up) == rounded_places(v, places, half_up),
{
    if v.1 < -places {
        let scale = pow10(-places - v.1);
        let q = trunc_div(v.0, scale);
        let r = trunc_rem(v.0, scale);
        let s = if half_up {
            super::rounding::round_half_up(q, r, scale)
        } else {
            super::rounding::round_half_even(q, r, scale)
        };
        lemma_canonical(s, -places);
    }
}

/// A positive integer lies between the powers of ten its digit count
/// names: `10^(digits - 1) <= n < 10^digits`.
proof fn lemma_digit_bounds(n: int)
    requires
        n >= 1,
    ensures
        pow10(decimal_digits(n as nat).len() - 1) <= n,
        n < pow10(decimal_digits(n as nat).len() as int),
    decreases n,
{
    lemma_pow0(10);
    lemma_pow1(10);
    if n >= 10 {
        lemma_digit_bounds(n / 10);
        let k = decimal_digits((n / 10) as nat).len() as int;
        assert(decimal_digits(n as nat).len() == k + 1);
        lemma_decimal_digits_nonempty((n / 10) as nat);
        lemma_pow_adds(10, (k - 1) as nat, 1);
        lemma_pow_adds(10, k as nat, 1);
        assert(pow10(k) == pow10(k - 1) * 10) by {
            assert((k - 1) as nat + 1 == k as nat);
        }
        assert(pow10(k + 1) == pow10(k) * 10) by {
            assert(k as nat + 1 == (k + 1) as nat);
        }
    }
}

/// Dividing an exact multiple: `(d × q) / d` is `q` with no remainder.
proof fn lemma_trunc_exact(d: int, q: int)
    requires
        d != 0,
    ensures
        trunc_div(d * q, d) == q,
        trunc_rem(d * q, d) == 0,
{
    assert(abs(d * q) == abs(d) * abs(q)) by (nonlinear_arith);
    vstd::arithmetic::div_mod::lemma_div_multiples_vanish(abs(q), abs(d));
    vstd::arithmetic::div_mod::lemma_mod_multiples_basic(abs(q), abs(d));
    assert(abs(d) * abs(q) == abs(q) * abs(d)) by (nonlinear_arith);
    assert(q > 0 ==> ((d * q >= 0) == (d > 0))) by (nonlinear_arith)
        requires
            d != 0;
    assert(q < 0 ==> ((d * q >= 0) != (d > 0))) by (nonlinear_arith)
        requires
            d != 0;
}

/// Division is exact when the quotient terminates within the precision:
/// dividing `b × c` by `b` gives back `c` exactly whenever `c` has at most
/// `precision` significant digits.
pub proof fn lemma_division_exact(b: (int, int), c: (int, int), precision: int)
    requires
        is_normalized(b),
        is_normalized(c),
        b.0 != 0,
        digit_count_of(c) <= precision,
    ensures
        quotient(product(b, c), b, precision) == c,
{
    if c.0 == 0 {
        assert(b.0 * c.0 == 0);
        return;
    }
    let s = b.0 * c.0;
    let e0 = b.1 + c.1;
    assert(s != 0) by (nonlinear_arith)
        requires
            b.0 != 0,
            c.0 != 0,
            s == b.0 * c.0;
    lemma_canonical(s, e0);
    let a = product(b, c);
    let t = a.1 - e0;
    assert(a.0 * pow10(t) == s);
    let da = digit_count_of(a);
    let db = digit_count_of(b);
    let dc = digit_count_of(c);
    lemma_decimal_digits_nonempty(abs(a.0) as nat);
    lemma_digit_bounds(abs(a.0));
    lemma_digit_bounds(abs(b.0));
    lemma_digit_bounds(abs(c.0));
    lemma_pow_positive(10, t as nat);
    assert(abs(s) == abs(b.0) * abs(c.0)) by (nonlinear_arith)
        requires
            s == b.0 * c.0;
    assert(abs(s) == abs(a.0) * pow10(t)) by (nonlinear_arith)
        requires
            a.0 * pow10(t) == s,
            pow10(t) > 0;
    assert(abs(b.0) * abs(c.0) < pow10(db) * pow10(dc)) by (nonlinear_arith)
        requires
            0 < abs(b.0) < pow10(db),
            0 < abs(c.0) < pow10(dc);
    assert(pow10(da - 1) * pow10(t) <= abs(a.0) * pow10(t)) by (nonlinear_arith)
        requires
            pow10(da - 1) <= abs(a.0),
            pow10(t) > 0;
    lemma_pow_adds(10, db as nat, dc as nat);
    lemma_pow_adds(10, (da - 1) as nat, t as nat);
    vstd::arithmetic::power::lemma_pow_strictly_increases_converse(10, (da - 1 + t) as nat, (db + dc) as nat);
    let shift = db - da + precision + 2;
    assert(shift >= t + 2);
    let k = shift - t;
    lemma_pow_adds(10, t as nat, k as nat);
    assert(pow10(shift) == pow10(t) * pow10(k)) by {
        assert(t as nat + k as nat == shift as nat);
    }
    let q = c.0 * pow10(k);
    assert(a.0 * pow10(shift) == b.0 * q) by (nonlinear_arith)
        requires
            pow10(shift) == pow10(t) * pow10(k),
            a.0 * pow10(t) == s,
            s == b.0 * c.0,
            q == c.0 * pow10(k);
    lemma_trunc_exact(b.0, q);
    lemma_canonical_scale(c.0, c.1, k as nat);
    lemma_canonical_normalized(c);
    assert(a.1 - b.1 - shift == c.1 - k);
    assert(division_unrounded(a, b, precision) == c);
}

/// A positive integer below `10^p` has at most `p` digits.
proof fn lemma_digits_below(n: int, p: int)
    requires
        1 <= n < pow10(p),
        p >= 0,
    ensures
        decimal_digits(n as nat).len() <= p,
{
    lemma_digit_bounds(n);
    lemma_decimal_digits_nonempty(n as nat);
    vstd::arithmetic::power::lemma_pow_strictly_increases_converse(
        10,
        (decimal_digits(n as nat).len() - 1) as nat,
        p as nat,
    );
}

/// Banker's rounding moves a truncated quotient by at most one.
proof fn lemma_round_half_even_step(q: int, r: int, d: int)
    ensures
        abs(round_half_even(q, r, d)) <= abs(q) + 1,
{
}

/// A quotient keeps at most `precision` significant digits.
pub proof fn lemma_quotient_digits(a: (int, int), b: (int, int), precision: int)
    requires
        precision >= 1,
        b.0 != 0,
    ensures
        digit_count_of(quotient(a, b, precision)) <= precision,
{
    if a.0 == 0 {
        assert(decimal_digits(0nat) =~= seq![crate::bigint::digit_char(0)]);
        return;
    }
    let v = division_unrounded(a, b, precision);
    let excess = digit_count_of(v) - precision;
    if excess <= 0 {
        return;
    }
    let scale = pow10(excess);
    lemma_pow_positive(10, excess as nat);
    let q = trunc_div(v.0, scale);
    let s = round_half_even(q, trunc_rem(v.0, scale), scale);
    let dv = digit_count_of(v);
    if v.0 == 0 {
        assert(decimal_digits(0nat) =~= seq![crate::bigint::digit_char(0)]);
        assert(false);
    }
    lemma_digit_bounds(abs(v.0));
    lemma_pow_adds(10, precision as nat, excess as nat);
    assert(pow10(dv) == pow10(precision) * pow10(excess)) by {
        assert(precision as nat + excess as nat == dv as nat);
    }
    assert(abs(q) == abs(v.0) / scale);
    assert(pow10(precision) * scale == scale * pow10(precision)) by (nonlinear_arith);
    vstd::arithmetic::div_mod::lemma_multiply_divide_lt(abs(v.0), scale, pow10(precision));
    assert(abs(q) < pow10(precision));
    lemma_round_half_even_step(q, trunc_rem(v.0, scale), scale);
    assert(abs(s) <= pow10(precision));
    let c = canonical(s, v.1 + excess);
    if s != 0 {
        lemma_canonical(s, v.1 + excess);
        lemma_pow_positive(10, (c.1 - (v.1 + excess)) as nat);
        assert(abs(c.0) <= abs(s)) by (nonlinear_arith)
            requires
                c.0 * pow10(c.1 - (v.1 + excess)) == s,
                pow10(c.1 - (v.1 + excess)) >= 1,
                c.0 != 0;
        if abs(c.0) == pow10(precision) {
            lemma_pow_adds(10, (precision - 1) as nat, 1);
            lemma_pow1(10);
            assert(pow10(precision) == pow10(precision - 1) * 10) by {
                assert((precision - 1) as nat + 1 == precision as nat);
            }
            vstd::arithmetic::div_mod::lemma_mod_multiples_basic(pow10(precision - 1), 10);
            assert(c.0 % 10 == 0) by {
                if c.0 < 0 {
                    vstd::arithmetic::div_mod::lemma_mod_multiples_basic(-pow10(precision - 1), 10);
                    assert(c.0 == -pow10(precision - 1) * 10) by (nonlinear_arith)
                        requires
                            c.0 < 0,
                            -c.0 == pow10(precision - 1) * 10;
                }
            }
        }
        lemma_digits_below(abs(c.0), precision);
    } else {
        assert(decimal_digits(0nat) =~= seq![crate::bigint::digit_char(0)]);
    }
}

/// The scientific exponent is the power of ten of the leading digit:
/// `10^e <= |v| < 10^(e+1)`, the significand read at the value's own
/// exponent.
pub proof fn lemma_scientific_exponent_magnitude(v: (int, int))
    requires
        v.0 != 0,
    ensures
        pow10(super::format::scientific_exponent(v) - v.1) <= abs(v.0),
        abs(v.0) < pow10(super::format::scientific_exponent(v) - v.1 + 1),
{
    lemma_digit_bounds(abs(v.0));
}

} // verus!
