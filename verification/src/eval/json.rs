//! JSON text: string escaping and the compact/pretty layout for encoding,
//! and the scanning half of the decoder (whitespace, strings with the full
//! JSON escape set, `\uXXXX` escapes and surrogate pairs).

use vstd::prelude::*;
use crate::error::EngineError;
use crate::text::{chars_of, push_char, views_of, joined_with, join, int_text, i64_text, hex_digit,
    hex_digit_value, char_code, char_from_code, is_scalar_value, code_char};

verus! {

/// The four uppercase hex digits of a code below 0x10000.
pub open spec fn hex4_upper(n: int) -> Seq<char> {
    Seq::new(4, |i: int| upper_hex_digit((n / pow16(3 - i)) % 16))
}

/// 16^k for k in 0..=3.
pub open spec fn pow16(k: int) -> int {
    if k <= 0 { 1 } else if k == 1 { 16 } else if k == 2 { 256 } else if k == 3 { 4096 } else { 65536 }
}

/// An uppercase hex digit.
pub open spec fn upper_hex_digit(d: int) -> char {
    if d < 10 { ((d + 48) as u8) as char } else { ((d + 55) as u8) as char }
}

/// How JSON spells one character inside a string: the JSON escape set, and
/// `\u00XX` for the remaining control characters.
pub open spec fn json_escape_of(c: char) -> Seq<char> {
    if c == '"' {
        seq!['\\', '"']
    } else if c == '\\' {
        seq!['\\', '\\']
    } else if c == '\n' {
        seq!['\\', 'n']
    } else if c == '\t' {
        seq!['\\', 't']
    } else if c == '\r' {
        seq!['\\', 'r']
    } else if (c as int) < 0x20 {
        seq!['\\', 'u'] + hex4_upper(c as int)
    } else {
        seq![c]
    }
}

/// The escaped body of a JSON string.
pub open spec fn json_escaped(t: Seq<char>) -> Seq<char>
    decreases t.len(),
{
    if t.len() == 0 { Seq::empty() } else { json_escaped(t.drop_last()) + json_escape_of(t.last()) }
}

/// `t` as a JSON string literal.
pub open spec fn json_quoted_text(t: Seq<char>) -> Seq<char> {
    seq!['"'] + json_escaped(t) + seq!['"']
}

/// An uppercase hex digit's character.
fn upper_hex_char(d: u32) -> (r: char)
    requires
        d < 16,
    ensures
        r == upper_hex_digit(d as int),
{
    if d < 10 {
        (d as u8 + 48) as char
    } else {
        (d as u8 + 55) as char
    }
}

/// JSON string escaping: the JSON set, not the lexer's (it adds `\r` and
/// `\u00XX` for the remaining control characters).
pub fn json_quoted(text: &str) -> (r: String)
    ensures
        r@ == json_quoted_text(text@),
{
    let chars = chars_of(text);
    let mut body = String::new();
    let mut i: usize = 0;
    while i < chars.len()
        invariant
            chars@ == text@,
            i <= chars@.len(),
            body@ == json_escaped(chars@.take(i as int)),
        decreases chars@.len() - i,
    {
        let c = chars[i];
        let ghost before = body@;
        if c == '"' {
            push_char(&mut body, '\\');
            push_char(&mut body, '"');
        } else if c == '\\' {
            push_char(&mut body, '\\');
            push_char(&mut body, '\\');
        } else if c == '\n' {
            push_char(&mut body, '\\');
            push_char(&mut body, 'n');
        } else if c == '\t' {
            push_char(&mut body, '\\');
            push_char(&mut body, 't');
        } else if c == '\r' {
            push_char(&mut body, '\\');
            push_char(&mut body, 'r');
        } else {
            let code = char_code(c);
            if code < 0x20 {
                push_char(&mut body, '\\');
                push_char(&mut body, 'u');
                push_char(&mut body, upper_hex_char(code / 4096 % 16));
                push_char(&mut body, upper_hex_char(code / 256 % 16));
                push_char(&mut body, upper_hex_char(code / 16 % 16));
                push_char(&mut body, upper_hex_char(code % 16));
                proof {
                    assert(hex4_upper(c as int) =~= seq![upper_hex_digit((code / 4096 % 16) as int),
                        upper_hex_digit((code / 256 % 16) as int), upper_hex_digit((code / 16 % 16) as int),
                        upper_hex_digit((code % 16) as int)]);
                }
            } else {
                push_char(&mut body, c);
            }
        }
        proof {
            assert(chars@.take(i + 1).drop_last() =~= chars@.take(i as int));
            assert(body@ =~= before + json_escape_of(c));
        }
        i += 1;
    }
    proof {
        assert(chars@.take(i as int) =~= chars@);
    }
    let mut out = String::new();
    push_char(&mut out, '"');
    out.append(body.as_str());
    push_char(&mut out, '"');
    proof {
        assert(out@ =~= json_quoted_text(text@));
    }
    out
}

/// Two spaces per nesting level.
pub open spec fn indent(levels: int) -> Seq<char> {
    Seq::new((2 * levels) as nat, |i: int| ' ')
}

/// Parts laid out between brackets: compact packs them with `,`; pretty
/// puts each on its own line, indented one level deeper than the closing
/// bracket.
pub open spec fn joined_text(parts: Seq<Seq<char>>, open: Seq<char>, close: Seq<char>, pretty: bool, depth: int) -> Seq<char> {
    if !pretty {
        open + joined_with(parts, seq![',']) + close
    } else {
        open + seq!['\n'] + joined_with(parts.map_values(|p: Seq<char>| indent(depth + 1) + p), ",\n"@) + seq!['\n']
            + indent(depth) + close
    }
}

/// `n` levels of two-space indentation.
fn indentation(levels: usize) -> (r: String)
    requires
        levels < usize::MAX / 2,
    ensures
        r@ == indent(levels as int),
{
    let mut out = String::new();
    let mut i: usize = 0;
    while i < 2 * levels
        invariant
            levels < usize::MAX / 2,
            i <= 2 * levels,
            out@ == Seq::new(i as nat, |k: int| ' '),
        decreases 2 * levels - i,
    {
        push_char(&mut out, ' ');
        proof {
            assert(out@ =~= Seq::new((i + 1) as nat, |k: int| ' '));
        }
        i += 1;
    }
    out
}

/// Compact packs everything; pretty is the conventional two-space layout.
pub fn joined(parts: &Vec<String>, brackets: (&str, &str), pretty: bool, depth: usize) -> (r: String)
    requires
        depth + 1 < usize::MAX / 2,
    ensures
        r@ == joined_text(views_of(parts@), brackets.0@, brackets.1@, pretty, depth as int),
{
    if !pretty {
        let mut out = String::from_str(brackets.0);
        let body = join(parts, ",");
        out.append(body.as_str());
        out.append(brackets.1);
        proof {
            reveal_strlit(",");
            assert(","@ =~= seq![',']);
            assert(out@ =~= joined_text(views_of(parts@), brackets.0@, brackets.1@, pretty, depth as int));
        }
        return out;
    }
    let pad = indentation(depth + 1);
    let mut padded: Vec<String> = Vec::new();
    let mut i: usize = 0;
    while i < parts.len()
        invariant
            i <= parts@.len(),
            pad@ == indent(depth + 1),
            views_of(padded@) =~= views_of(parts@.take(i as int)).map_values(|p: Seq<char>| indent(depth + 1) + p),
        decreases parts@.len() - i,
    {
        let mut line = pad.clone();
        line.append(parts[i].as_str());
        let ghost before = padded@;
        padded.push(line);
        proof {
            assert(views_of(padded@) =~= views_of(before).push(padded@.last()@));
            assert(views_of(parts@.take(i + 1)).map_values(|p: Seq<char>| indent(depth + 1) + p)
                =~= views_of(parts@.take(i as int)).map_values(|p: Seq<char>| indent(depth + 1) + p).push(
                indent(depth + 1) + parts@[i as int]@));
        }
        i += 1;
    }
    proof {
        assert(parts@.take(i as int) =~= parts@);
    }
    let body = join(&padded, ",\n");
    let mut out = String::from_str(brackets.0);
    push_char(&mut out, '\n');
    out.append(body.as_str());
    push_char(&mut out, '\n');
    let closing = indentation(depth);
    out.append(closing.as_str());
    out.append(brackets.1);
    proof {
        assert(out@ =~= joined_text(views_of(parts@), brackets.0@, brackets.1@, pretty, depth as int));
    }
    out
}

/// The value of a run of hex digits.
pub open spec fn hex_run(s: Seq<char>) -> int
    decreases s.len(),
{
    if s.len() == 0 {
        0
    } else {
        hex_run(s.drop_last()) * 16 + match hex_digit_value(s.last()) {
            Some(d) => d as int,
            None => 0,
        }
    }
}

/// A short text read as hex: one or more hex digits and nothing else (no
/// sign).
pub open spec fn hex_value(s: Seq<char>) -> Option<int> {
    hex_digits_value(s)
}

/// The value of one or more hex digits.
pub open spec fn hex_digits_value(body: Seq<char>) -> Option<int> {
    if body.len() > 0 && forall|k: int| 0 <= k < body.len() ==> (#[trigger] hex_digit_value(body[k])) is Some {
        Some(hex_run(body))
    } else {
        None
    }
}

/// The four characters at `i` read as hex, if there are four.
pub open spec fn hex4_at(chars: Seq<char>, i: int) -> Option<int> {
    if 0 <= i && i + 4 <= chars.len() { hex_value(chars.subrange(i, i + 4)) } else { None }
}

/// A `\u` escape whose hex digits start at `i`: the character and the index
/// past it, or an error message and the index it points at. A high
/// surrogate must be followed by `\u` and a low surrogate.
pub open spec fn unicode_scan(chars: Seq<char>, i: int) -> Result<(char, int), (Seq<char>, int)> {
    match hex4_at(chars, i) {
        None => Err(("\\u needs 4 hex digits"@, i)),
        Some(high) => {
            let k = i + 4;
            if 0xD800 <= high <= 0xDBFF {
                if !(k < chars.len() && chars[k] == '\\' && k + 1 < chars.len() && chars[k + 1] == 'u') {
                    Err(("missing low surrogate after \\u escape"@, k))
                } else {
                    match hex4_at(chars, k + 2) {
                        None => Err(("\\u needs 4 hex digits"@, k + 2)),
                        Some(low) => if !(0xDC00 <= low <= 0xDFFF) {
                            Err(("invalid low surrogate in \\u escape"@, k + 6))
                        } else {
                            Ok((code_char(0x10000 + (high - 0xD800) * 1024 + (low - 0xDC00)), k + 6))
                        },
                    }
                }
            } else if is_scalar_value(high) {
                Ok((code_char(high), k))
            } else {
                Err(("invalid \\u escape"@, k))
            }
        }
    }
}

/// The character a one-letter JSON escape stands for.
pub open spec fn json_simple_escape(e: char) -> Option<char> {
    if e == '"' {
        Some('"')
    } else if e == '\\' {
        Some('\\')
    } else if e == '/' {
        Some('/')
    } else if e == 'n' {
        Some('\n')
    } else if e == 't' {
        Some('\t')
    } else if e == 'r' {
        Some('\r')
    } else if e == 'b' {
        Some('\u{8}')
    } else if e == 'f' {
        Some('\u{C}')
    } else {
        None
    }
}

/// The outcome of scanning a JSON string.
pub enum JsonScan {
    /// The text and the index past the closing quote.
    Text(Seq<char>, int),
    /// An error message and the index it points at.
    Fail(Seq<char>, int),
}

/// The escape whose backslash stands at `i`: the character it stands for
/// and the index past it, or an error message and the index it points at.
pub open spec fn escape_scan(chars: Seq<char>, i: int) -> Result<(char, int), (Seq<char>, int)> {
    let j = i + 1;
    if j >= chars.len() {
        Err(("unterminated string"@, j))
    } else {
        let e = chars[j];
        match json_simple_escape(e) {
            Some(m) => Ok((m, j + 1)),
            None => if e == 'u' {
                unicode_scan(chars, j + 1)
            } else {
                Err(("unknown escape '\\"@ + seq![e] + seq!['\''], j))
            },
        }
    }
}

/// Scans the rest of a JSON string from `i`, having collected `text`.
pub open spec fn json_string_scan(chars: Seq<char>, i: int, text: Seq<char>) -> JsonScan
    decreases chars.len() - i,
{
    if i < 0 || i >= chars.len() {
        JsonScan::Fail("unterminated string"@, i)
    } else if chars[i] == '"' {
        JsonScan::Text(text, i + 1)
    } else if chars[i] == '\\' {
        match escape_scan(chars, i) {
            Ok((c, k)) => if i < k <= chars.len() {
                json_string_scan(chars, k, text.push(c))
            } else {
                JsonScan::Fail(Seq::empty(), k)
            },
            Err((message, position)) => JsonScan::Fail(message, position),
        }
    } else {
        json_string_scan(chars, i + 1, text.push(chars[i]))
    }
}

/// The decoder's error text: the message and the 1-based character it
/// points at.
pub open spec fn json_error_text(message: Seq<char>, position: int) -> Seq<char> {
    "fromJson: "@ + message + " at character "@ + int_text(position + 1)
}

/// Is `e` the decoder's error for this message and position?
pub open spec fn is_json_error(e: EngineError, message: Seq<char>, position: int) -> bool {
    e matches EngineError::DomainError { message: m } && m@ == json_error_text(message, position)
}

/// The first index at or after `i` that is not JSON whitespace.
pub open spec fn json_whitespace_end(chars: Seq<char>, i: int) -> int
    decreases chars.len() - i,
{
    if 0 <= i < chars.len() && (chars[i] == ' ' || chars[i] == '\t' || chars[i] == '\n' || chars[i] == '\r') {
        json_whitespace_end(chars, i + 1)
    } else {
        i
    }
}

/// The scanning state of the JSON decoder: the text's characters, the
/// position, and the nesting depth.
pub struct JsonParser {
    chars: Vec<char>,
    index: usize,
    depth: usize,
}

/// Hex digits accumulate to at most 16^n - 1.
proof fn lemma_hex_run_bound(s: Seq<char>)
    requires
        forall|k: int| 0 <= k < s.len() ==> (#[trigger] hex_digit_value(s[k])) is Some,
    ensures
        0 <= hex_run(s) < pow16(s.len() as int) || s.len() > 4,
    decreases s.len(),
{
    if s.len() > 0 {
        assert forall|k: int| 0 <= k < s.drop_last().len() implies (#[trigger] hex_digit_value(s.drop_last()[k])) is Some by {
            assert(s.drop_last()[k] == s[k]);
        }
        lemma_hex_run_bound(s.drop_last());
        assert(hex_digit_value(s[s.len() - 1]) is Some);
        crate::text::lemma_hex_digit_range(s.last());
        if s.len() <= 4 {
            let h = hex_run(s.drop_last());
            let d = hex_digit_value(s.last()).unwrap() as int;
            let p = pow16(s.len() - 1);
            assert(p * 16 == pow16(s.len() as int));
            assert(0 <= h * 16 + d < p * 16) by (nonlinear_arith)
                requires
                    0 <= h < p,
                    0 <= d < 16;
        }
    }
}

impl JsonParser {
    /// The parser's characters.
    pub closed spec fn text(&self) -> Seq<char> {
        self.chars@
    }

    /// The parser's position.
    pub closed spec fn position(&self) -> int {
        self.index as int
    }

    /// A decoder positioned at the start of `text`.
    pub fn new(text: &str) -> (r: Self)
        ensures
            r.text() == text@,
            r.position() == 0,
    {
        JsonParser { chars: chars_of(text), index: 0, depth: 0 }
    }

    /// The character at the position, if any.
    pub fn current(&self) -> (r: Option<char>)
        ensures
            r == (if 0 <= self.position() < self.text().len() { Some(self.text()[self.position()]) } else { None::<char> }),
    {
        if self.index < self.chars.len() {
            Some(self.chars[self.index])
        } else {
            None
        }
    }

    /// Skips spaces, tabs, line feeds and carriage returns.
    pub fn skip_whitespace(&mut self)
        requires
            old(self).position() <= old(self).text().len(),
        ensures
            final(self).text() == old(self).text(),
            final(self).position() == json_whitespace_end(old(self).text(), old(self).position()),
    {
        let ghost start = self.index as int;
        let len = self.chars.len();
        loop
            invariant
                self.chars@ == old(self).chars@,
                len == self.chars@.len(),
                start <= self.index <= len,
                json_whitespace_end(self.chars@, start) == json_whitespace_end(self.chars@, self.index as int),
            ensures
                self.chars@ == old(self).chars@,
                self.index == json_whitespace_end(self.chars@, start),
            decreases len - self.index,
        {
            if self.index >= len {
                break;
            }
            let c = self.chars[self.index];
            if c == ' ' || c == '\t' || c == '\n' || c == '\r' {
                self.index += 1;
            } else {
                break;
            }
        }
    }

    /// The decoder error for `message` at the current position.
    pub fn error(&self, message: &str) -> (r: EngineError)
        requires
            self.position() < i64::MAX,
        ensures
            is_json_error(r, message@, self.position()),
    {
        let mut text = String::from_str("fromJson: ");
        text.append(message);
        text.append(" at character ");
        let place = i64_text(self.index as i64 + 1);
        text.append(place.as_str());
        EngineError::domain(text)
    }

    /// The four hex digits at the position, advancing past them; anything
    /// but four hex digits (a sign too) is an error.
    pub fn hex4(&mut self) -> (r: Result<u32, EngineError>)
        requires
            old(self).position() <= old(self).text().len() < 0x1000_0000_0000_0000,
        ensures
            final(self).text() == old(self).text(),
            match hex4_at(old(self).text(), old(self).position()) {
                Some(v) => r == Ok::<u32, EngineError>(v as u32) && 0 <= v < 0x10000 && final(self).position()
                    == old(self).position() + 4,
                None => r matches Err(e) && is_json_error(e, "\\u needs 4 hex digits"@, old(self).position())
                    && final(self).position() == old(self).position(),
            },
    {
        let ghost chars = self.chars@;
        let start = self.index;
        if self.chars.len() - start < 4 {
            return Err(self.error("\\u needs 4 hex digits"));
        }
        let end = start + 4;
        let ghost digits = chars.subrange(start as int, start + 4);
        let k = start;
        let ghost body = digits;
        proof {
            assert(body =~= chars.subrange(k as int, start + 4));
        }
        let mut value: u32 = 0;
        let mut j = k;
        while j < end
            invariant
                self.chars@ == chars,
                self.index == start,
                end == start + 4,
                digits == chars.subrange(start as int, start + 4),
                body == digits,
                start + 4 <= chars.len() < 0x1000_0000_0000_0000,
                start <= k <= j <= start + 4,
                body =~= chars.subrange(k as int, start + 4),
                forall|m: int| k <= m < j ==> (#[trigger] hex_digit_value(chars[m])) is Some,
                value == hex_run(chars.subrange(k as int, j as int)),
                value < pow16(j - k),
            decreases start + 4 - j,
        {
            match hex_digit(self.chars[j]) {
                Some(d) => {
                    proof {
                        crate::text::lemma_hex_digit_range(chars[j as int]);
                        assert(chars.subrange(k as int, j + 1).drop_last() =~= chars.subrange(k as int, j as int));
                    }
                    value = value * 16 + d;
                    j += 1;
                }
                None => {
                    proof {
                        assert(body[j - k] == chars[j as int]);
                        assert(!(hex_digit_value(body[j - k]) is Some));
                        assert(hex_digits_value(body) is None);
                        assert(hex_value(digits) is None);
                    }
                    return Err(self.error("\\u needs 4 hex digits"));
                }
            }
        }
        proof {
            assert(forall|m: int| 0 <= m < body.len() ==> (#[trigger] hex_digit_value(body[m])) is Some) by {
                assert forall|m: int| 0 <= m < body.len() implies (#[trigger] hex_digit_value(body[m])) is Some by {
                    assert(body[m] == chars[k + m]);
                }
            }
            assert(chars.subrange(k as int, j as int) =~= body);
        }
        self.index = end;
        Ok(value)
    }
}

impl JsonParser {
    /// Reports a scan outcome for `unicode_escape`.
    pub open spec fn reports_unicode(r: Result<char, EngineError>, outcome: Result<(char, int), (Seq<char>, int)>) -> bool {
        match outcome {
            Ok((c, _)) => r == Ok::<char, EngineError>(c),
            Err((message, position)) => r matches Err(e) && is_json_error(e, message, position),
        }
    }

    /// The four hex digits after `\u`: possibly the high half of a
    /// surrogate pair, in which case `\u` and the low half must follow.
    pub fn unicode_escape(&mut self) -> (r: Result<char, EngineError>)
        requires
            old(self).position() <= old(self).text().len() < 0x1000_0000_0000_0000,
        ensures
            final(self).text() == old(self).text(),
            Self::reports_unicode(r, unicode_scan(old(self).text(), old(self).position())),
            unicode_scan(old(self).text(), old(self).position()) matches Ok((_, k)) ==> final(self).position() == k,
            final(self).position() <= final(self).text().len(),
    {
        let ghost chars = self.chars@;
        let ghost i = self.index as int;
        let high = match self.hex4() {
            Ok(h) => h,
            Err(e) => return Err(e),
        };
        if 0xD800 <= high && high <= 0xDBFF {
            let followed = self.index < self.chars.len() && self.chars[self.index] == '\\'
                && self.chars.len() - self.index > 1 && self.chars[self.index + 1] == 'u';
            if !followed {
                return Err(self.error("missing low surrogate after \\u escape"));
            }
            self.index += 2;
            let low = match self.hex4() {
                Ok(l) => l,
                Err(e) => return Err(e),
            };
            if !(0xDC00 <= low && low <= 0xDFFF) {
                return Err(self.error("invalid low surrogate in \\u escape"));
            }
            let combined = 0x10000 + (high - 0xD800) * 1024 + (low - 0xDC00);
            return match char_from_code(combined) {
                Some(c) => Ok(c),
                None => Err(self.error("invalid \\u escape")),
            };
        }
        match char_from_code(high) {
            Some(c) => Ok(c),
            None => Err(self.error("invalid \\u escape")),
        }
    }

    /// The escape whose backslash stands at the position: the character it
    /// stands for, the position moved past it.
    fn escape(&mut self) -> (r: Result<char, EngineError>)
        requires
            old(self).position() < old(self).text().len() < 0x1000_0000_0000_0000,
            old(self).text()[old(self).position()] == '\\',
        ensures
            final(self).text() == old(self).text(),
            Self::reports_unicode(r, escape_scan(old(self).text(), old(self).position())),
            escape_scan(old(self).text(), old(self).position()) matches Ok((_, k)) ==> final(self).position() == k,
    {
        let len = self.chars.len();
        self.index += 1;
        if self.index >= len {
            return Err(self.error("unterminated string"));
        }
        let e = self.chars[self.index];
        let simple = if e == '"' {
            Some('"')
        } else if e == '\\' {
            Some('\\')
        } else if e == '/' {
            Some('/')
        } else if e == 'n' {
            Some('\n')
        } else if e == 't' {
            Some('\t')
        } else if e == 'r' {
            Some('\r')
        } else if e == 'b' {
            Some('\u{8}')
        } else if e == 'f' {
            Some('\u{C}')
        } else {
            None
        };
        proof {
            assert(simple == json_simple_escape(e));
        }
        match simple {
            Some(m) => {
                self.index += 1;
                Ok(m)
            }
            None => {
                if e != 'u' {
                    let mut message = String::from_str("unknown escape '\\");
                    push_char(&mut message, e);
                    push_char(&mut message, '\'');
                    proof {
                        assert(message@ =~= "unknown escape '\\"@ + seq![e] + seq!['\'']);
                    }
                    return Err(self.error(message.as_str()));
                }
                self.index += 1;
                self.unicode_escape()
            }
        }
    }

    /// `"…"` with the full JSON escape set, including `\uXXXX` and surrogate
    /// pairs. Expects the opening quote at the position.
    pub fn string(&mut self) -> (r: Result<String, EngineError>)
        requires
            old(self).position() < old(self).text().len() < 0x1000_0000_0000_0000,
            old(self).text()[old(self).position()] == '"',
        ensures
            final(self).text() == old(self).text(),
            match json_string_scan(old(self).text(), old(self).position() + 1, Seq::empty()) {
                JsonScan::Text(text, end) => r matches Ok(s) && s@ == text && final(self).position() == end,
                JsonScan::Fail(message, position) => r matches Err(e) && is_json_error(e, message, position),
            },
    {
        let ghost chars = self.chars@;
        let ghost start = self.index as int;
        let len = self.chars.len();
        self.index += 1;
        let mut text = String::new();
        while self.index < len
            invariant
                self.chars@ == chars,
                chars == old(self).chars@,
                len == chars.len(),
                len < 0x1000_0000_0000_0000,
                start == old(self).index as int,
                start < self.index <= len,
                json_string_scan(chars, start + 1, Seq::empty()) == json_string_scan(chars, self.index as int, text@),
            decreases len - self.index,
        {
            let c = self.chars[self.index];
            if c == '"' {
                self.index += 1;
                return Ok(text);
            }
            if c != '\\' {
                push_char(&mut text, c);
                self.index += 1;
                continue;
            }
            let ghost at = self.index as int;
            match self.escape() {
                Ok(ch) => {
                    proof {
                        lemma_escape_advances(chars, at);
                    }
                    push_char(&mut text, ch);
                }
                Err(err) => return Err(err),
            }
        }
        Err(self.error("unterminated string"))
    }
}

/// A successful escape moves past its backslash and stays in the text.
proof fn lemma_escape_advances(chars: Seq<char>, i: int)
    requires
        0 <= i < chars.len(),
    ensures
        escape_scan(chars, i) matches Ok((_, k)) ==> i < k <= chars.len(),
{
}

} // verus!
