//! Character classification and string helpers from `std`, each behind one
//! trusted item, plus the verified conversions between `&str` and
//! character vectors that the scanners work on.

use vstd::prelude::*;
use crate::bigint::{is_ascii_digit, digits_value, decimal_digits};

verus! {

/// `char::is_whitespace` on a non-ASCII character (Unicode `White_Space`).
pub uninterp spec fn unicode_whitespace(c: char) -> bool;

/// `char::is_alphabetic` on a non-ASCII character (Unicode `Alphabetic`).
pub uninterp spec fn unicode_alphabetic(c: char) -> bool;

/// `char::is_numeric` on a non-ASCII character (general categories Nd, Nl, No).
pub uninterp spec fn unicode_numeric(c: char) -> bool;

/// `char::is_uppercase` on a non-ASCII character (Unicode `Uppercase`).
pub uninterp spec fn unicode_uppercase(c: char) -> bool;

/// `str::to_lowercase` (Unicode lowercase mapping).
pub uninterp spec fn lowercase(s: Seq<char>) -> Seq<char>;

/// Is `c` an ASCII character?
pub open spec fn is_ascii_char(c: char) -> bool {
    (c as int) < 128
}

/// Is `c` an ASCII letter?
pub open spec fn is_ascii_letter(c: char) -> bool {
    ('a' <= c && c <= 'z') || ('A' <= c && c <= 'Z')
}

/// ASCII lowercasing of one character.
pub open spec fn ascii_lower(c: char) -> char {
    if 'A' <= c && c <= 'Z' { ((c as int) + 32) as char } else { c }
}

/// Every character of `s` is ASCII.
pub open spec fn all_ascii(s: Seq<char>) -> bool {
    forall|i: int| 0 <= i < s.len() ==> is_ascii_char(#[trigger] s[i])
}

/// Is `c` whitespace? For ASCII: tab, line feed, vertical tab, form feed,
/// carriage return and space.
pub open spec fn char_is_whitespace(c: char) -> bool {
    if is_ascii_char(c) { c == ' ' || ('\t' <= c && c <= '\r') } else { unicode_whitespace(c) }
}

/// Is `c` alphabetic? For ASCII: exactly the letters.
pub open spec fn char_is_alphabetic(c: char) -> bool {
    if is_ascii_char(c) { is_ascii_letter(c) } else { unicode_alphabetic(c) }
}

/// Is `c` numeric? For ASCII: exactly the digits.
pub open spec fn char_is_numeric(c: char) -> bool {
    if is_ascii_char(c) { is_ascii_digit(c) } else { unicode_numeric(c) }
}

/// Is `c` uppercase? For ASCII: exactly `A`–`Z`.
pub open spec fn char_is_uppercase(c: char) -> bool {
    if is_ascii_char(c) { 'A' <= c && c <= 'Z' } else { unicode_uppercase(c) }
}

/// `c.is_whitespace()`: for ASCII characters exactly tab, line feed,
/// vertical tab, form feed, carriage return and space.
#[verifier::external_body]
pub fn is_whitespace(c: char) -> (r: bool)
    ensures
        r == char_is_whitespace(c),
        !is_ascii_char(c) ==> r == unicode_whitespace(c),
{
    c.is_whitespace()
}

/// `c.is_alphabetic()`: for ASCII characters exactly the letters.
#[verifier::external_body]
pub fn is_alphabetic(c: char) -> (r: bool)
    ensures
        r == char_is_alphabetic(c),
        !is_ascii_char(c) ==> r == unicode_alphabetic(c),
{
    c.is_alphabetic()
}

/// `c.is_numeric()`: for ASCII characters exactly the digits.
#[verifier::external_body]
pub fn is_numeric(c: char) -> (r: bool)
    ensures
        r == char_is_numeric(c),
        !is_ascii_char(c) ==> r == unicode_numeric(c),
{
    c.is_numeric()
}

/// `c.is_uppercase()`: for ASCII characters exactly `A`–`Z`.
#[verifier::external_body]
pub fn is_uppercase(c: char) -> (r: bool)
    ensures
        r == char_is_uppercase(c),
        !is_ascii_char(c) ==> r == unicode_uppercase(c),
{
    c.is_uppercase()
}

/// `s.to_lowercase()`. An ASCII string lowercases letter by letter.
#[verifier::external_body]
pub fn to_lowercase(s: &str) -> (r: String)
    ensures
        r@ == lowercase(s@),
        all_ascii(s@) ==> r@ == s@.map_values(|c: char| ascii_lower(c)),
{
    s.to_lowercase()
}

/// A character's code with ASCII letters folded to lowercase.
pub open spec fn ascii_fold_code(c: char) -> int {
    if 'A' <= c && c <= 'Z' { c as int + 32 } else { c as int }
}

/// A string's codes with ASCII letters folded to lowercase: two strings are
/// equal ignoring ASCII case exactly when their foldings are.
pub open spec fn ascii_folded(s: Seq<char>) -> Seq<int> {
    s.map_values(|c: char| ascii_fold_code(c))
}

/// Equal after folding ASCII letters to lowercase, every other character
/// compared as is (`str::eq_ignore_ascii_case`).
pub fn eq_ignore_ascii_case(a: &str, b: &str) -> (r: bool)
    ensures
        r == (ascii_folded(a@) == ascii_folded(b@)),
{
    let x = chars_of(a);
    let y = chars_of(b);
    if x.len() != y.len() {
        proof {
            assert(ascii_folded(a@).len() != ascii_folded(b@).len());
        }
        return false;
    }
    let mut i: usize = 0;
    while i < x.len()
        invariant
            x@ == a@,
            y@ == b@,
            x@.len() == y@.len(),
            i <= x@.len(),
            forall|k: int| 0 <= k < i ==> ascii_fold_code(#[trigger] x@[k]) == ascii_fold_code(y@[k]),
        decreases x@.len() - i,
    {
        let c = x[i];
        let d = y[i];
        let fc = if 'A' <= c && c <= 'Z' { char_code(c) + 32 } else { char_code(c) };
        let fd = if 'A' <= d && d <= 'Z' { char_code(d) + 32 } else { char_code(d) };
        if fc != fd {
            proof {
                assert(ascii_folded(a@)[i as int] != ascii_folded(b@)[i as int]);
            }
            return false;
        }
        i = i + 1;
    }
    proof {
        assert(ascii_folded(a@) =~= ascii_folded(b@));
    }
    true
}

/// The character's code point (`u32::from(c)`).
pub fn char_code(c: char) -> (r: u32)
    ensures
        r as int == c as int,
{
    c as u32
}

/// Is `n` a Unicode scalar value (a code point that is not a surrogate)?
pub open spec fn is_scalar_value(n: int) -> bool {
    (0 <= n < 0xD800) || (0xE000 <= n <= 0x10FFFF)
}

/// The character whose code point is `n`.
pub open spec fn code_char(n: int) -> char {
    n as char
}

/// `char::from_u32`: the character with code point `n`; `None` for a
/// surrogate or a value past U+10FFFF.
#[verifier::external_body]
pub fn char_from_code(n: u32) -> (r: Option<char>)
    ensures
        r is Some <==> is_scalar_value(n as int),
        r matches Some(c) ==> c as int == n as int,
{
    char::from_u32(n)
}

/// `String::push`.
#[verifier::external_body]
pub fn push_char(s: &mut String, c: char)
    ensures
        final(s)@ == old(s)@.push(c),
{
    s.push(c)
}

/// The value of an ASCII hex digit, if `c` is one.
pub open spec fn hex_digit_value(c: char) -> Option<u32> {
    if '0' <= c && c <= '9' {
        Some(((c as int) - ('0' as int)) as u32)
    } else if 'a' <= c && c <= 'f' {
        Some(((c as int) - ('a' as int) + 10) as u32)
    } else if 'A' <= c && c <= 'F' {
        Some(((c as int) - ('A' as int) + 10) as u32)
    } else {
        None
    }
}

pub proof fn lemma_hex_digit_range(c: char)
    ensures
        hex_digit_value(c) matches Some(v) ==> v < 16 && c != '_',
{
}

/// `c.to_digit(16)`: the value of an ASCII hex digit.
pub fn hex_digit(c: char) -> (r: Option<u32>)
    ensures
        r == hex_digit_value(c),
{
    if '0' <= c && c <= '9' {
        Some(c as u32 - '0' as u32)
    } else if 'a' <= c && c <= 'f' {
        Some(c as u32 - 'a' as u32 + 10)
    } else if 'A' <= c && c <= 'F' {
        Some(c as u32 - 'A' as u32 + 10)
    } else {
        None
    }
}

/// `std`'s grammar for an `i64` literal: an optional `+` or `-`, then one or
/// more ASCII digits whose value fits an `i64`.
pub open spec fn i64_literal(s: Seq<char>) -> Option<i64> {
    let signed = s.len() > 0 && (s[0] == '+' || s[0] == '-');
    let body = if signed { s.drop_first() } else { s };
    let magnitude = digits_value(body);
    let v = if s.len() > 0 && s[0] == '-' { -magnitude } else { magnitude };
    if body.len() == 0 || !(forall|i: int| 0 <= i < body.len() ==> is_ascii_digit(#[trigger] body[i])) {
        None
    } else if i64::MIN <= v <= i64::MAX {
        Some(v as i64)
    } else {
        None
    }
}

/// `s.parse::<i64>()`, `None` where it returns an error.
#[verifier::external_body]
pub fn parse_i64(s: &str) -> (r: Option<i64>)
    ensures
        r == i64_literal(s@),
{
    s.parse::<i64>().ok()
}

/// The decimal text of an integer: a `-` for negatives, then the digits.
pub open spec fn int_text(x: int) -> Seq<char> {
    if x < 0 {
        seq!['-'] + decimal_digits((-x) as nat)
    } else {
        decimal_digits(x as nat)
    }
}

/// `i64`'s `Display` (`format!("{v}")`).
#[verifier::external_body]
pub fn i64_text(v: i64) -> (r: String)
    ensures
        r@ == int_text(v as int),
{
    format!("{v}")
}

/// `n` zeros.
pub open spec fn zeros(n: int) -> Seq<char> {
    Seq::new(n as nat, |i: int| '0')
}

/// A string of `n` zeros (`"0".repeat(n)`).
pub fn zero_string(n: usize) -> (r: String)
    ensures
        r@ == zeros(n as int),
{
    let mut out = String::new();
    let mut i: usize = 0;
    while i < n
        invariant
            i <= n,
            out@ == zeros(i as int),
        decreases n - i,
    {
        push_char(&mut out, '0');
        i += 1;
        proof {
            assert(out@ == zeros(i as int));
        }
    }
    out
}

/// The first index at or after `i` that is not whitespace.
pub open spec fn leading_end(s: Seq<char>, i: int) -> int
    decreases s.len() - i,
{
    if 0 <= i < s.len() && char_is_whitespace(s[i]) { leading_end(s, i + 1) } else { i }
}

/// The index just past the last non-whitespace character before `j`, not
/// going below `floor`.
pub open spec fn trailing_start(s: Seq<char>, j: int, floor: int) -> int
    decreases j - floor,
{
    if floor < j && j <= s.len() && char_is_whitespace(s[j - 1]) { trailing_start(s, j - 1, floor) } else { j }
}

/// `s` with leading and trailing whitespace removed.
pub open spec fn trimmed(s: Seq<char>) -> Seq<char> {
    let a = leading_end(s, 0);
    s.subrange(a, trailing_start(s, s.len() as int, a))
}

/// `str::trim`: leading and trailing whitespace (`char::is_whitespace`)
/// removed.
#[verifier::external_body]
pub fn trim(s: &str) -> (r: &str)
    ensures
        r@ == trimmed(s@),
{
    s.trim()
}

/// The characters of `s`.
pub fn chars_of(s: &str) -> (r: Vec<char>)
    ensures
        r@ == s@,
{
    let mut out: Vec<char> = Vec::new();
    for c in it: s.chars()
        invariant
            out@ == it.seq().take(it.index() as int),
            it.seq() == s@,
    {
        out.push(c);
    }
    out
}

/// The string made of `chars[from..to]`.
pub fn string_of(chars: &Vec<char>, from: usize, to: usize) -> (r: String)
    requires
        from <= to <= chars@.len(),
    ensures
        r@ == chars@.subrange(from as int, to as int),
{
    let mut out = String::new();
    let mut i = from;
    while i < to
        invariant
            from <= i <= to <= chars@.len(),
            out@ == chars@.subrange(from as int, i as int),
        decreases to - i,
    {
        push_char(&mut out, chars[i]);
        i += 1;
    }
    out
}

/// The views of a sequence of strings.
pub open spec fn views_of(parts: Seq<String>) -> Seq<Seq<char>> {
    parts.map_values(|s: String| s@)
}

/// The parts with `sep` between each neighbouring pair.
pub open spec fn joined_with(parts: Seq<Seq<char>>, sep: Seq<char>) -> Seq<char>
    decreases parts.len(),
{
    if parts.len() == 0 {
        Seq::empty()
    } else if parts.len() == 1 {
        parts[0]
    } else {
        joined_with(parts.drop_last(), sep) + sep + parts.last()
    }
}

/// `parts.join(sep)`.
pub fn join(parts: &Vec<String>, sep: &str) -> (r: String)
    ensures
        r@ == joined_with(views_of(parts@), sep@),
{
    let mut out = String::new();
    let mut i: usize = 0;
    while i < parts.len()
        invariant
            i <= parts@.len(),
            out@ == joined_with(views_of(parts@.take(i as int)), sep@),
        decreases parts@.len() - i,
    {
        proof {
            assert(views_of(parts@.take(i + 1)).drop_last() =~= views_of(parts@.take(i as int)));
            assert(views_of(parts@.take(i + 1)).last() == parts@[i as int]@);
        }
        if i > 0 {
            out.append(sep);
        }
        out.append(parts[i].as_str());
        i += 1;
    }
    proof {
        assert(parts@.take(i as int) =~= parts@);
    }
    out
}

/// Does `s` hold `::` anywhere?
pub open spec fn has_double_colon(s: Seq<char>) -> bool {
    exists|i: int| 0 <= i && i + 1 < s.len() && s[i] == ':' && #[trigger] s[i + 1] == ':'
}

/// `s.contains("::")`.
pub fn contains_double_colon(s: &str) -> (r: bool)
    ensures
        r == has_double_colon(s@),
{
    let chars = chars_of(s);
    let mut i: usize = 0;
    while i < chars.len() && i + 1 < chars.len()
        invariant
            chars@ == s@,
            forall|j: int| 0 <= j < i && j + 1 < s@.len() ==> !(s@[j] == ':' && #[trigger] s@[j + 1] == ':'),
        decreases chars@.len() - i,
    {
        if chars[i] == ':' && chars[i + 1] == ':' {
            return true;
        }
        i += 1;
    }
    false
}

} // verus!
