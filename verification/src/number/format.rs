//! Plain, thousands-grouped, and scientific/engineering rendering. All of it
//! is exact digit-string work on the significand's decimal digits.

use vstd::prelude::*;
use super::{BigDecimal, digit_count_of};
use super::rounding::{rounded_places, rounded_places_fits};
use crate::bigint::{abs, decimal_digits};
use crate::text::{int_text, zeros, i64_text, zero_string, chars_of, string_of, push_char};

verus! {

/// The decimal digits of a value's significand (no sign).
pub open spec fn digits_of(v: (int, int)) -> Seq<char> {
    decimal_digits(abs(v.0) as nat)
}

/// `-` for a negative value, else nothing.
pub open spec fn sign_of(v: (int, int)) -> Seq<char> {
    if v.0 < 0 { seq!['-'] } else { Seq::empty() }
}

/// The power of ten of the leading digit (the scientific exponent).
pub open spec fn scientific_exponent(v: (int, int)) -> int {
    digits_of(v).len() + v.1 - 1
}

/// The first digit, then `.` and the rest when there is a rest.
pub open spec fn mantissa_of(d: Seq<char>) -> Seq<char> {
    if d.len() <= 1 { d } else { d.take(1) + seq!['.'] + d.skip(1) }
}

/// The overflow form of plain rendering: `-1.5e+40`, `2.5e-40`.
pub open spec fn scientific_description(v: (int, int)) -> Seq<char> {
    let exp = scientific_exponent(v);
    sign_of(v) + mantissa_of(digits_of(v)) + seq!['e'] + (if exp >= 0 { seq!['+'] } else { Seq::empty() }) + int_text(exp)
}

/// Plain decimal form (`-12.5`, `0.03`), falling back to scientific notation
/// when the decimal point would sit more than `threshold` digits away.
pub open spec fn formatted_text(v: (int, int), threshold: int) -> Seq<char> {
    let d = digits_of(v);
    let point = d.len() + v.1;
    if v.0 == 0 {
        seq!['0']
    } else if point > threshold || point < -threshold {
        scientific_description(v)
    } else if v.1 >= 0 {
        sign_of(v) + d + zeros(v.1)
    } else if point <= 0 {
        sign_of(v) + seq!['0', '.'] + zeros(-point) + d
    } else {
        sign_of(v) + d.take(point) + seq!['.'] + d.skip(point)
    }
}

/// Plain rendering's arithmetic stays within `i64`.
pub open spec fn formatted_fits(v: (int, int), threshold: int) -> bool {
    &&& i64::MIN < threshold
    &&& digit_count_of(v) <= i64::MAX
    &&& i64::MIN <= digit_count_of(v) + v.1 - 1
    &&& digit_count_of(v) + v.1 <= i64::MAX
    &&& v.1 <= usize::MAX
    &&& -(digit_count_of(v) + v.1) <= usize::MAX
}

/// The bare integer digits and bare fraction digits of a value.
pub open spec fn parts_of(v: (int, int)) -> (Seq<char>, Seq<char>) {
    let d = digits_of(v);
    let point = d.len() + v.1;
    if v.1 >= 0 {
        (d + zeros(v.1), Seq::empty())
    } else if point <= 0 {
        (seq!['0'], zeros(-point) + d)
    } else {
        (d.take(point), d.skip(point))
    }
}

/// `s` with a `,` between every group of three characters, counted from the
/// right: "1234567" → "1,234,567".
pub open spec fn grouped(s: Seq<char>) -> Seq<char>
    decreases s.len(),
{
    if s.len() <= 3 {
        s
    } else {
        grouped(s.take(s.len() - 3)) + seq![','] + s.skip(s.len() - 3)
    }
}

/// Sign, grouped integer part, and the fraction padded to exactly `decimals`
/// places, after banker's rounding to `decimals` places.
pub open spec fn grouped_text_of(v: (int, int), decimals: int) -> Seq<char> {
    let r = rounded_places(v, decimals, false);
    let (integer, fraction) = parts_of(r);
    let padded = if fraction.len() < decimals { fraction + zeros(decimals - fraction.len()) } else { fraction };
    sign_of(r) + grouped(integer) + (if decimals > 0 { seq!['.'] + padded } else { Seq::empty() })
}

/// Grouped at the value's own number of decimals; a value whose plain form
/// is scientific passes through ungrouped.
pub open spec fn grouped_natural_of(v: (int, int)) -> Seq<char> {
    let plain = formatted_text(v, 30);
    let (integer, fraction) = parts_of(v);
    if plain.contains('e') || plain.contains('E') {
        plain
    } else if fraction.len() == 0 {
        sign_of(v) + grouped(integer)
    } else {
        sign_of(v) + grouped(integer) + seq!['.'] + fraction
    }
}

/// Scientific notation at the value's own significant digits: "2.46912e5",
/// "5e0", "1.25e-1"; zero is "0e0".
pub open spec fn scientific_text_of(v: (int, int)) -> Seq<char> {
    if v.0 == 0 {
        seq!['0', 'e', '0']
    } else {
        sign_of(v) + mantissa_of(digits_of(v)) + seq!['e'] + int_text(scientific_exponent(v))
    }
}

/// The scientific exponent snapped down to a multiple of 3.
pub open spec fn engineering_exponent(v: (int, int)) -> int {
    scientific_exponent(v) - scientific_exponent(v) % 3
}

/// Engineering notation: 1–3 integer digits, the exponent a multiple of 3:
/// "246.912e3", "50e-3", "5e0"; zero is "0e0".
pub open spec fn engineering_text_of(v: (int, int)) -> Seq<char> {
    let d = digits_of(v);
    let count = scientific_exponent(v) - engineering_exponent(v) + 1;
    let padded = if d.len() < count { d + zeros(count - d.len()) } else { d };
    if v.0 == 0 {
        seq!['0', 'e', '0']
    } else if padded.len() == count {
        sign_of(v) + padded + seq!['e'] + int_text(engineering_exponent(v))
    } else {
        sign_of(v) + padded.take(count) + seq!['.'] + padded.skip(count) + seq!['e'] + int_text(engineering_exponent(v))
    }
}

/// The engineering exponent is the largest multiple of 3 not above the
/// scientific exponent, so the mantissa keeps 1 to 3 integer digits.
pub proof fn lemma_engineering_exponent(v: (int, int))
    ensures
        engineering_exponent(v) % 3 == 0,
        scientific_exponent(v) - 2 <= engineering_exponent(v) <= scientific_exponent(v),
        1 <= scientific_exponent(v) - engineering_exponent(v) + 1 <= 3,
{
}

pub proof fn lemma_decimal_digits_nonempty(n: nat)
    ensures
        decimal_digits(n).len() >= 1,
    decreases n,
{
    if n >= 10 {
        lemma_decimal_digits_nonempty(n / 10);
    }
}

/// Rounding to `places` decimal places leaves at most `places` fraction
/// digits.
pub proof fn lemma_rounded_places_exponent(v: (int, int), places: int, half_up: bool)
    ensures
        rounded_places(v, places, half_up).1 >= -places || rounded_places(v, places, half_up).1 >= 0,
{
    if v.1 < -places {
        let scale = super::pow10(-places - v.1);
        let q = crate::bigint::trunc_div(v.0, scale);
        let r = crate::bigint::trunc_rem(v.0, scale);
        let x = if half_up { super::rounding::round_half_up(q, r, scale) } else { super::rounding::round_half_even(q, r, scale) };
        super::lemma_canonical(x, -places);
    }
}

/// `-` or nothing.
fn sign_string(negative: bool) -> (r: String)
    ensures
        r@ == (if negative { seq!['-'] } else { Seq::<char>::empty() }),
{
    let mut s = String::new();
    if negative {
        push_char(&mut s, '-');
    }
    s
}

impl BigDecimal {
    /// Plain decimal form: `-12.5`, `0.03`. Falls back to scientific
    /// notation when the plain form would be absurdly long.
    pub fn formatted(&self, scientific_threshold: i64) -> (r: String)
        requires
            self.wf(),
            formatted_fits(self@, scientific_threshold as int),
        ensures
            r@ == formatted_text(self@, scientific_threshold as int),
    {
        if self.is_zero() {
            let mut zero = String::new();
            push_char(&mut zero, '0');
            return zero;
        }
        let text = self.significand.magnitude_text();
        let digits = chars_of(text.as_str());
        let negative = self.is_negative();
        proof {
            lemma_decimal_digits_nonempty(abs(self@.0) as nat);
        }
        let point_position = digits.len() as i64 + self.exponent;
        if point_position > scientific_threshold || point_position < -scientific_threshold {
            return self.scientific_description(&digits, negative);
        }
        let mut out = sign_string(negative);
        if self.exponent >= 0 {
            out.append(text.as_str());
            let pad = zero_string(self.exponent as usize);
            out.append(pad.as_str());
            return out;
        }
        if point_position <= 0 {
            push_char(&mut out, '0');
            push_char(&mut out, '.');
            let pad = zero_string((-point_position) as usize);
            out.append(pad.as_str());
            out.append(text.as_str());
            return out;
        }
        let head = string_of(&digits, 0, point_position as usize);
        let tail = string_of(&digits, point_position as usize, digits.len());
        out.append(head.as_str());
        push_char(&mut out, '.');
        out.append(tail.as_str());
        proof {
            assert(digits@.subrange(0, point_position as int) == digits@.take(point_position as int));
            assert(digits@.subrange(point_position as int, digits@.len() as int) == digits@.skip(point_position as int));
        }
        out
    }

    fn scientific_description(&self, digits: &Vec<char>, negative: bool) -> (r: String)
        requires
            self.wf(),
            self@.0 != 0,
            digits@ == digits_of(self@),
            negative == (self@.0 < 0),
            formatted_fits(self@, 0),
        ensures
            r@ == scientific_description(self@),
    {
        proof {
            lemma_decimal_digits_nonempty(abs(self@.0) as nat);
        }
        let exp = digits.len() as i64 + self.exponent - 1;
        let mut out = sign_string(negative);
        push_char(&mut out, digits[0]);
        if digits.len() > 1 {
            push_char(&mut out, '.');
            let tail = string_of(digits, 1, digits.len());
            out.append(tail.as_str());
            proof {
                assert(digits@.subrange(1, digits@.len() as int) == digits@.skip(1));
                assert(digits@.take(1) == seq![digits@[0]]);
            }
        } else {
            proof {
                assert(digits@ == seq![digits@[0]]);
            }
        }
        push_char(&mut out, 'e');
        if exp >= 0 {
            push_char(&mut out, '+');
        }
        let exp_text = i64_text(exp);
        out.append(exp_text.as_str());
        out
    }

    /// The canonical text form (what `Display` renders): plain with a
    /// scientific fallback past 30 digits either side of the point.
    pub fn to_string(&self) -> (r: String)
        requires
            self.wf(),
            formatted_fits(self@, 30),
        ensures
            r@ == formatted_text(self@, 30),
    {
        self.formatted(30)
    }

    /// Splits into sign (true for negative), bare integer digits, and bare
    /// fraction digits.
    fn parts(&self) -> (r: (bool, String, String))
        requires
            self.wf(),
            formatted_fits(self@, 0),
        ensures
            r.0 == (self@.0 < 0),
            (r.1@, r.2@) == parts_of(self@),
            r.2@.len() == (if self@.1 < 0 { -self@.1 } else { 0 }),
    {
        let text = self.significand.magnitude_text();
        let digits = chars_of(text.as_str());
        let negative = self.is_negative();
        let exponent = self.exponent;
        if exponent >= 0 {
            let mut integer = String::new();
            integer.append(text.as_str());
            let pad = zero_string(exponent as usize);
            integer.append(pad.as_str());
            return (negative, integer, String::new());
        }
        let point_position = digits.len() as i64 + exponent;
        if point_position <= 0 {
            let mut integer = String::new();
            push_char(&mut integer, '0');
            let mut fraction = zero_string((-point_position) as usize);
            fraction.append(text.as_str());
            return (negative, integer, fraction);
        }
        let index = point_position as usize;
        proof {
            assert(digits@.subrange(0, index as int) == digits@.take(index as int));
            assert(digits@.subrange(index as int, digits@.len() as int) == digits@.skip(index as int));
        }
        (negative, string_of(&digits, 0, index), string_of(&digits, index, digits.len()))
    }

    /// "1234567" → "1,234,567". Takes the bare digits of an integer part.
    pub fn grouping(integer: &str) -> (r: String)
        ensures
            r@ == grouped(integer@),
    {
        let chars = chars_of(integer);
        let n = chars.len();
        if n <= 3 {
            return string_of(&chars, 0, n);
        }
        let first = if n % 3 == 0 { 3 } else { n % 3 };
        let mut out = string_of(&chars, 0, first);
        let mut i = first;
        proof {
            assert(chars@.subrange(0, first as int) == chars@.take(first as int));
            assert(grouped(chars@.take(first as int)) == chars@.take(first as int));
        }
        while i < n
            invariant
                n == chars@.len(),
                first <= i <= n,
                (n - i) % 3 == 0,
                1 <= first <= 3,
                out@ == grouped(chars@.take(i as int)),
            decreases n - i,
        {
            push_char(&mut out, ',');
            let group = string_of(&chars, i, i + 3);
            out.append(group.as_str());
            proof {
                let t = chars@.take(i + 3);
                assert(t.take(t.len() - 3) == chars@.take(i as int));
                assert(t.skip(t.len() - 3) == chars@.subrange(i as int, i + 3));
            }
            i = i + 3;
        }
        proof {
            assert(chars@.take(n as int) == chars@);
        }
        out
    }

    /// Sign + grouped integer part + fraction padded/rounded to exactly
    /// `decimals` places (banker's, via `rounded_to_places`).
    pub fn grouped_text(&self, decimals: i64) -> (r: String)
        requires
            self.wf(),
            rounded_places_fits(self@, decimals as int, false),
            formatted_fits(rounded_places(self@, decimals as int, false), 0),
            decimals <= usize::MAX,
        ensures
            r@ == grouped_text_of(self@, decimals as int),
    {
        let rounded = self.rounded_to_places(decimals);
        let (negative, integer, mut fraction) = rounded.parts();
        proof {
            lemma_rounded_places_exponent(self@, decimals as int, false);
        }
        let fraction_len = fraction.unicode_len();
        if (fraction_len as i64) < decimals {
            let pad = zero_string((decimals - fraction_len as i64) as usize);
            fraction.append(pad.as_str());
        }
        let grouped_integer = Self::grouping(integer.as_str());
        let mut out = sign_string(negative);
        out.append(grouped_integer.as_str());
        if decimals > 0 {
            push_char(&mut out, '.');
            out.append(fraction.as_str());
        }
        out
    }

    /// Grouped at the value's OWN number of decimals, with no padding and no
    /// rounding: `138561` → "138,561"; `12470.49` → "12,470.49". Values whose
    /// plain form is scientific pass through ungrouped.
    pub fn grouped_text_natural(&self) -> (r: String)
        requires
            self.wf(),
            formatted_fits(self@, 30),
        ensures
            r@ == grouped_natural_of(self@),
    {
        let plain = self.to_string();
        let plain_chars = chars_of(plain.as_str());
        let mut k: usize = 0;
        while k < plain_chars.len()
            invariant
                k <= plain_chars@.len(),
                plain_chars@ == plain@,
                plain@ == formatted_text(self@, 30),
                forall|j: int| 0 <= j < k ==> plain_chars@[j] != 'e' && plain_chars@[j] != 'E',
            decreases plain_chars@.len() - k,
        {
            if plain_chars[k] == 'e' || plain_chars[k] == 'E' {
                proof {
                    assert(plain@[k as int] == plain_chars@[k as int]);
                    if plain_chars@[k as int] == 'e' {
                        assert(plain@.contains('e'));
                    } else {
                        assert(plain@.contains('E'));
                    }
                }
                return plain;
            }
            k += 1;
        }
        let (negative, integer, fraction) = self.parts();
        let grouped_integer = Self::grouping(integer.as_str());
        let mut out = sign_string(negative);
        out.append(grouped_integer.as_str());
        if fraction.unicode_len() > 0 {
            push_char(&mut out, '.');
            out.append(fraction.as_str());
        }
        out
    }

    /// Scientific notation at the value's OWN significant digits (the
    /// normalized significand is the mantissa): `246912` → "2.46912e5",
    /// `5` → "5e0", `0.125` → "1.25e-1". No `+` on positive exponents.
    pub fn scientific_text(&self) -> (r: String)
        requires
            self.wf(),
            formatted_fits(self@, 0),
        ensures
            r@ == scientific_text_of(self@),
    {
        if self.is_zero() {
            let mut zero = String::new();
            push_char(&mut zero, '0');
            push_char(&mut zero, 'e');
            push_char(&mut zero, '0');
            return zero;
        }
        let text = self.significand.magnitude_text();
        let digits = chars_of(text.as_str());
        proof {
            lemma_decimal_digits_nonempty(abs(self@.0) as nat);
        }
        let exp = digits.len() as i64 + self.exponent - 1;
        let mut out = sign_string(self.is_negative());
        push_char(&mut out, digits[0]);
        if digits.len() > 1 {
            push_char(&mut out, '.');
            let tail = string_of(&digits, 1, digits.len());
            out.append(tail.as_str());
            proof {
                assert(digits@.subrange(1, digits@.len() as int) == digits@.skip(1));
                assert(digits@.take(1) == seq![digits@[0]]);
            }
        } else {
            proof {
                assert(digits@ == seq![digits@[0]]);
            }
        }
        push_char(&mut out, 'e');
        let exp_text = i64_text(exp);
        out.append(exp_text.as_str());
        out
    }

    /// Engineering notation: `scientific_text` with the exponent snapped
    /// DOWN to a multiple of 3 and the mantissa shifted to match (1–3 integer
    /// digits): `246912` → "246.912e3", `0.05` → "50e-3", `5` → "5e0".
    #[verifier::rlimit(40)]
    pub fn engineering_text(&self) -> (r: String)
        requires
            self.wf(),
            formatted_fits(self@, 0),
            i64::MIN + 3 <= scientific_exponent(self@),
        ensures
            r@ == engineering_text_of(self@),
    {
        if self.is_zero() {
            let mut zero = String::new();
            push_char(&mut zero, '0');
            push_char(&mut zero, 'e');
            push_char(&mut zero, '0');
            return zero;
        }
        let text = self.significand.magnitude_text();
        let mut digits = chars_of(text.as_str());
        proof {
            lemma_decimal_digits_nonempty(abs(self@.0) as nat);
        }
        let sci_exp = digits.len() as i64 + self.exponent - 1;
        let offset = if sci_exp >= 0 { sci_exp % 3 } else { (3 - (-sci_exp) % 3) % 3 };
        proof {
            let x = sci_exp as int;
            if x < 0 {
                assert(offset == x % 3) by (nonlinear_arith)
                    requires
                        x < 0,
                        offset as int == (3 - (-x) % 3) % 3;
            }
        }
        let eng_exp = sci_exp - offset;
        let integer_count = (sci_exp - eng_exp + 1) as usize;
        let ghost d = digits@;
        if digits.len() < integer_count {
            let mut k = digits.len();
            while k < integer_count
                invariant
                    d.len() <= k <= integer_count,
                    digits@ == d + zeros(k - d.len()),
                decreases integer_count - k,
            {
                digits.push('0');
                k += 1;
                proof {
                    assert(digits@ == d + zeros(k - d.len()));
                }
            }
        }
        let mut out = sign_string(self.is_negative());
        let head = string_of(&digits, 0, integer_count);
        out.append(head.as_str());
        if digits.len() > integer_count {
            push_char(&mut out, '.');
            let tail = string_of(&digits, integer_count, digits.len());
            out.append(tail.as_str());
            proof {
                assert(digits@.subrange(integer_count as int, digits@.len() as int) == digits@.skip(integer_count as int));
            }
        }
        proof {
            assert(digits@.subrange(0, integer_count as int) == digits@.take(integer_count as int));
            if digits@.len() == integer_count {
                assert(digits@.take(integer_count as int) == digits@);
            }
        }
        push_char(&mut out, 'e');
        let exp_text = i64_text(eng_exp);
        out.append(exp_text.as_str());
        out
    }
}

} // verus!
