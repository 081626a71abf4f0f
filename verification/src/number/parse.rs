//! Parsing number literals: `123`, `-1.5`, `1_000`, `2.5e-3`.

use vstd::prelude::*;
use super::{BigDecimal, canonical, canonical_fits};
use crate::bigint::{BigInteger, bigint_literal};
use crate::text::{chars_of, string_of, parse_i64, i64_literal, push_char};

verus! {

/// The index of the first character of `s` that is `a` or `b`.
pub open spec fn first_of(s: Seq<char>, a: char, b: char) -> Option<int>
    decreases s.len(),
{
    if s.len() == 0 {
        None
    } else if s[0] == a || s[0] == b {
        Some(0)
    } else {
        match first_of(s.drop_first(), a, b) {
            Some(i) => Some(i + 1),
            None => None,
        }
    }
}

/// `s` without its `_` separators.
pub open spec fn without_separators(s: Seq<char>) -> Seq<char> {
    s.filter(|c: char| c != '_')
}

/// The literal's mantissa (separators removed, the decimal point not yet)
/// and exponent part: everything before the first `e`/`E`, and the `i64`
/// literal after it (0 when there is no exponent part).
pub open spec fn literal_split(s: Seq<char>) -> (Seq<char>, Option<i64>) {
    match first_of(s, 'e', 'E') {
        Some(i) => (without_separators(s.take(i)), i64_literal(s.skip(i + 1))),
        None => (without_separators(s), Some(0i64)),
    }
}

/// Removes the decimal point from a mantissa, lowering the exponent by the
/// number of fraction digits; `None` when a second `.` follows the first.
pub open spec fn point_stage(m: Seq<char>, exp10: int) -> Option<(Seq<char>, int)> {
    match first_of(m, '.', '.') {
        Some(d) => {
            let fraction = m.skip(d + 1);
            if fraction.contains('.') {
                None
            } else {
                Some((m.take(d) + fraction, exp10 - fraction.len()))
            }
        }
        None => Some((m, exp10)),
    }
}

/// The mantissa (separators and the decimal point removed) and the power of
/// ten a literal scales it by, if the literal gets that far: the exponent
/// part after the first `e`/`E` must be an `i64` literal, the mantissa must
/// be non-empty, and at most one `.` may appear.
pub open spec fn literal_stage(s: Seq<char>) -> Option<(Seq<char>, int)> {
    let (m, exp10) = literal_split(s);
    if exp10.is_none() || m.len() == 0 {
        None
    } else {
        point_stage(m, exp10.unwrap() as int)
    }
}

/// The `(significand, exponent)` a literal denotes, before normalization;
/// `None` for a malformed literal.
pub open spec fn literal_value(s: Seq<char>) -> Option<(int, int)> {
    match literal_stage(s) {
        Some((m, e)) => {
            if m.len() == 0 || m == seq!['-'] || m == seq!['+'] {
                None
            } else {
                match bigint_literal(m) {
                    Some(v) => Some((v, e)),
                    None => None,
                }
            }
        }
        None => None,
    }
}

/// Removing the decimal point keeps the fraction length and the lowered
/// exponent within `i64`.
pub open spec fn point_fits(m: Seq<char>, exp10: int) -> bool {
    match first_of(m, '.', '.') {
        Some(d) => m.len() - d - 1 <= i64::MAX && i64::MIN <= exp10 - (m.len() - d - 1),
        None => true,
    }
}

/// The literal's exponent arithmetic stays within `i64`.
pub open spec fn literal_fits(s: Seq<char>) -> bool {
    let (m, exp10) = literal_split(s);
    &&& (exp10.is_some() && m.len() > 0 ==> point_fits(m, exp10.unwrap() as int))
    &&& (literal_value(s) matches Some(v) ==> canonical_fits(v.0, v.1))
}

/// The first index in `chars` holding `a` or `b`, scanning from the start.
fn find_first(chars: &Vec<char>, a: char, b: char) -> (r: Option<usize>)
    ensures
        match r {
            Some(i) => first_of(chars@, a, b) == Some(i as int) && i < chars@.len(),
            None => first_of(chars@, a, b).is_none(),
        },
{
    let mut i: usize = 0;
    proof {
        assert(chars@.skip(0) == chars@);
    }
    while i < chars.len()
        invariant
            i <= chars@.len(),
            first_of(chars@, a, b) == match first_of(chars@.skip(i as int), a, b) {
                Some(j) => Some(j + i),
                None => None::<int>,
            },
        decreases chars@.len() - i,
    {
        proof {
            assert(chars@.skip(i as int)[0] == chars@[i as int]);
            assert(chars@.skip(i as int).drop_first() == chars@.skip(i + 1));
        }
        if chars[i] == a || chars[i] == b {
            return Some(i);
        }
        i += 1;
    }
    proof {
        assert(chars@.skip(i as int).len() == 0);
    }
    None
}

/// Splits off the exponent part: the mantissa with separators removed and
/// the parsed exponent, or `None` when the exponent part is malformed.
fn split_exponent(chars: &Vec<char>) -> (r: Option<(Vec<char>, i64)>)
    ensures
        match r {
            Some((m, e)) => literal_split(chars@) == (m@, Some(e)),
            None => literal_split(chars@).1.is_none(),
        },
{
    let mut exp10: i64 = 0;
    let mut end = chars.len();
    match find_first(chars, 'e', 'E') {
        Some(e_index) => {
            let exp_part = string_of(chars, e_index + 1, chars.len());
            proof {
                assert(exp_part@ == chars@.skip(e_index + 1));
            }
            match parse_i64(exp_part.as_str()) {
                Some(v) => exp10 = v,
                None => return None,
            }
            end = e_index;
        }
        None => {
            proof {
                assert(chars@.take(chars@.len() as int) == chars@);
            }
        }
    }
    let mut mantissa: Vec<char> = Vec::new();
    let mut i: usize = 0;
    while i < end
        invariant
            end <= chars@.len(),
            i <= end,
            mantissa@ == without_separators(chars@.take(i as int)),
        decreases end - i,
    {
        proof {
            assert(chars@.take(i + 1) == chars@.take(i as int).push(chars@[i as int]));
            chars@.take(i as int).lemma_filter_push(chars@[i as int], |c: char| c != '_');
        }
        if chars[i] != '_' {
            mantissa.push(chars[i]);
        }
        i += 1;
    }
    Some((mantissa, exp10))
}

/// Removes the decimal point (see `point_stage`).
fn remove_point(m: &Vec<char>, exp10: i64) -> (r: Option<(Vec<char>, i64)>)
    requires
        point_fits(m@, exp10 as int),
    ensures
        match r {
            Some((d, e)) => point_stage(m@, exp10 as int) == Some((d@, e as int)),
            None => point_stage(m@, exp10 as int).is_none(),
        },
{
    let found = find_first(m, '.', '.');
    match found {
        Some(dot_index) => {
            assert(dot_index < m.len());
            let mut j: usize = dot_index + 1;
            while j < m.len()
                invariant
                    dot_index < j <= m@.len(),
                    first_of(m@, '.', '.') == Some(dot_index as int),
                    forall|k: int| dot_index < k < j ==> m@[k] != '.',
                decreases m@.len() - j,
            {
                if m[j] == '.' {
                    proof {
                        assert(m@.skip(dot_index + 1)[j - dot_index - 1] == '.');
                        assert(m@.skip(dot_index + 1).contains('.'));
                    }
                    return None;
                }
                j += 1;
            }
            proof {
                let f = m@.skip(dot_index + 1);
                assert(!f.contains('.')) by {
                    if f.contains('.') {
                        let k = choose|k: int| 0 <= k < f.len() && #[trigger] f[k] == '.';
                        assert(m@[k + dot_index + 1] == '.');
                    }
                }
            }
            let fraction_len = m.len() - dot_index - 1;
            let exponent = exp10 - fraction_len as i64;
            let mut digits: Vec<char> = Vec::new();
            let mut k: usize = 0;
            while k < m.len()
                invariant
                    k <= m@.len(),
                    dot_index < m@.len(),
                    digits@ == if k <= dot_index {
                        m@.take(k as int)
                    } else {
                        m@.take(dot_index as int) + m@.subrange(dot_index + 1, k as int)
                    },
                decreases m@.len() - k,
            {
                if k != dot_index {
                    digits.push(m[k]);
                }
                k += 1;
            }
            proof {
                assert(m@.subrange(dot_index + 1, m@.len() as int) == m@.skip(dot_index + 1));
            }
            Some((digits, exponent))
        }
        None => Some((m.clone(), exp10)),
    }
}

/// The string of a character vector.
fn text_of(chars: &Vec<char>) -> (r: String)
    ensures
        r@ == chars@,
{
    let mut text = String::new();
    let mut t: usize = 0;
    while t < chars.len()
        invariant
            t <= chars@.len(),
            text@ == chars@.take(t as int),
        decreases chars@.len() - t,
    {
        proof {
            assert(chars@.take(t + 1) == chars@.take(t as int).push(chars@[t as int]));
        }
        push_char(&mut text, chars[t]);
        t += 1;
    }
    proof {
        assert(chars@.take(chars@.len() as int) == chars@);
    }
    text
}

impl BigDecimal {
    /// Parses a literal: `123`, `-1.5`, `1_000`, `2.5e-3`; `None` when
    /// malformed.
    pub fn parse(string: &str) -> (r: Option<Self>)
        requires
            literal_fits(string@),
        ensures
            r.is_some() == literal_value(string@).is_some(),
            r matches Some(v) ==> v.wf() && v@ == canonical(literal_value(string@).unwrap().0, literal_value(string@).unwrap().1),
    {
        let chars = chars_of(string);
        let (mantissa, exp10) = match split_exponent(&chars) {
            Some(parts) => parts,
            None => return None,
        };
        if mantissa.len() == 0 {
            return None;
        }
        let (digits, exponent) = match remove_point(&mantissa, exp10) {
            Some(parts) => parts,
            None => return None,
        };
        if digits.len() == 0 || (digits.len() == 1 && (digits[0] == '-' || digits[0] == '+')) {
            proof {
                if digits@.len() == 1 {
                    if digits@[0] == '-' {
                        assert(digits@ == seq!['-']);
                    } else {
                        assert(digits@ == seq!['+']);
                    }
                }
            }
            return None;
        }
        proof {
            assert(digits@ != seq!['-']);
            assert(digits@ != seq!['+']);
        }
        let text = text_of(&digits);
        match BigInteger::parse(text.as_str()) {
            Some(significand) => Some(Self::new(significand, exponent)),
            None => None,
        }
    }
}

} // verus!
