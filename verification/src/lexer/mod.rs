//! Converts a source line into tokens. Whitespace separates tokens but is
//! otherwise insignificant. Positions are character offsets (Unicode
//! scalars) so hosts can render a caret under the offending column.

pub mod grammar;
pub mod token;

use vstd::prelude::*;
use vstd::arithmetic::power::*;
use vstd::arithmetic::mul::*;
use crate::bigint::{BigInteger, is_ascii_digit, abs};
use crate::error::EngineError;
use crate::mode::LanguageMode;
use crate::number::{BigDecimal, canonical, canonical_fits, pow10, lemma_canonical};
use crate::number::parse::{literal_value, literal_fits};
use crate::text::{chars_of, string_of, push_char, is_whitespace, is_alphabetic, is_numeric, parse_i64,
    i64_literal, hex_digit, char_is_whitespace, char_is_alphabetic, char_is_numeric};
use grammar::{quoted_step, pinned_step, identifier_step, Step, Lexed, char_at, scan, lex_from, skip_whitespace, comment_start, split_comment_of, radix_value, radix_digit, radix_digit_count, radix_end, radix_name, radix_literal, number_scan, number_literal, string_scan, escaped, quote_end, numeric_end, alphabetic_end, identifier_end, all_alphabetic, cell_tail, two_char_kind, simple_kind, pin_message, is_identifier_char};
pub use token::{Token, TokenKind, LexedKind, kind_matches};

verus! {

/// The line's characters and the scan position.
pub struct Lexer {
    chars: Vec<char>,
    index: usize,
}

/// Prepends already-lexed tokens to a lexing outcome.
pub open spec fn prepend(prefix: Seq<(LexedKind, int, int)>, rest: Lexed) -> Lexed {
    match rest {
        Lexed::Tokens(ts) => Lexed::Tokens(prefix + ts),
        other => other,
    }
}

/// The whole line's lexing outcome.
pub open spec fn lex(source: Seq<char>) -> Lexed {
    lex_from(source, 0)
}

/// Is `e` the lex error with this message and position?
pub open spec fn is_lex_error(e: EngineError, message: Seq<char>, position: int) -> bool {
    e matches EngineError::LexError { message: m, position: p } && m@ == message && p == position
}

/// Does the token carry the grammar's kind and range?
pub open spec fn token_matches(t: Token, l: (LexedKind, int, int)) -> bool {
    kind_matches(t.kind, l.0) && t.range.start == l.1 && t.range.end == l.2
}

/// A line short enough for any `Vec<char>` (4 bytes per character) to hold.
pub open spec fn line_fits(source: Seq<char>) -> bool {
    source.len() < 0x2000_0000_0000_0000
}

/// Does `r` report what the grammar says one scan yields?
pub open spec fn reports_step(r: Result<Option<Token>, EngineError>, step: Step) -> bool {
    match step {
        Step::Done => r matches Ok(None),
        Step::Token(kind, s, e) => r matches Ok(Some(t)) && token_matches(t, (kind, s, e)),
        Step::Fail(message, position) => r matches Err(err) && is_lex_error(err, message, position),
        Step::Overflow => false,
    }
}

/// A lex error.
fn lex_error(message: String, position: usize) -> (r: EngineError)
    ensures
        is_lex_error(r, message@, position as int),
{
    EngineError::LexError { message, position }
}

/// 10^k is at most |s| where k is the exponent `s` normalizes to.
proof fn lemma_canonical_power(s: int)
    requires
        s != 0,
    ensures
        pow10(canonical(s, 0).1) <= abs(s),
        canonical(s, 0).1 >= 0,
{
    lemma_canonical(s, 0);
    let c = canonical(s, 0);
    lemma_pow_positive(10, c.1 as nat);
    assert(abs(c.0) * pow10(c.1) == abs(s)) by (nonlinear_arith)
        requires c.0 * pow10(c.1) == s, pow10(c.1) > 0;
    assert(abs(c.0) * pow10(c.1) >= pow10(c.1)) by (nonlinear_arith)
        requires abs(c.0) >= 1, pow10(c.1) > 0;
}

proof fn lemma_pow_base_monotone(a: int, b: int, n: nat)
    requires
        0 <= a <= b,
    ensures
        0 <= pow(a, n) <= pow(b, n),
    decreases n,
{
    reveal(pow);
    if n > 0 {
        lemma_pow_base_monotone(a, b, (n - 1) as nat);
        assert(0 <= a * pow(a, (n - 1) as nat) <= b * pow(b, (n - 1) as nat)) by (nonlinear_arith)
            requires 0 <= a <= b, 0 <= pow(a, (n - 1) as nat) <= pow(b, (n - 1) as nat);
    }
}

/// A run of digits in the radix stays below radix^count.
proof fn lemma_radix_value_bound(s: Seq<char>, radix: int)
    requires
        radix == 16 || radix == 2,
    ensures
        0 <= radix_value(s, radix) < pow(radix, radix_digit_count(s) as nat),
        0 <= radix_digit_count(s) <= s.len(),
    decreases s.len(),
{
    reveal(pow);
    if s.len() > 0 {
        lemma_radix_value_bound(s.drop_last(), radix);
        let v = radix_value(s.drop_last(), radix);
        let n = radix_digit_count(s.drop_last());
        match radix_digit(s.last(), radix) {
            Some(d) => {
                assert(0 <= d < radix) by {
                    if radix == 16 {
                        crate::text::lemma_hex_digit_range(s.last());
                    }
                }
                assert(s.last() != '_') by {
                    if radix == 16 {
                        crate::text::lemma_hex_digit_range(s.last());
                    }
                }
                assert(v * radix + d < pow(radix, n as nat) * radix) by (nonlinear_arith)
                    requires 0 <= v < pow(radix, n as nat), 0 <= d < radix;
                assert(pow(radix, (n + 1) as nat) == radix * pow(radix, n as nat));
                lemma_mul_is_commutative(radix, pow(radix, n as nat));
                assert(v * radix + d >= 0) by (nonlinear_arith)
                    requires 0 <= v, 0 <= d, radix > 0;
            }
            None => {
                if s.last() != '_' {
                    assert(radix_digit_count(s) == n + 1);
                    lemma_pow_increases(radix as nat, n as nat, (n + 1) as nat);
                }
            }
        }
    }
}

/// A radix literal's value normalizes to an exponent that fits an `i64`.
proof fn lemma_radix_fits(body: Seq<char>, radix: int, len: int)
    requires
        radix == 16 || radix == 2,
        body.len() <= len,
        len < 0x2000_0000_0000_0000,
    ensures
        canonical_fits(radix_value(body, radix), 0),
{
    lemma_radix_value_bound(body, radix);
    let v = radix_value(body, radix);
    let n = radix_digit_count(body);
    if v != 0 {
        lemma_canonical_power(v);
        let k = canonical(v, 0).1;
        lemma_pow_base_monotone(radix, 100, n as nat);
        lemma_pow_multiplies(10, 2, n as nat);
        assert(pow(10, 2) == 100) by { reveal_with_fuel(pow, 3); }
        if k >= 2 * n {
            lemma_pow_increases(10, (2 * n) as nat, k as nat);
            assert((2 * n) as nat == 2 * (n as nat));
        }
    }
}

impl Lexer {
    fn new(source: &str) -> (r: Self)
        ensures
            r.chars@ == source@,
            r.index == 0,
    {
        Lexer { chars: chars_of(source), index: 0 }
    }

    fn current(&self) -> (r: Option<char>)
        ensures
            r == char_at(self.chars@, self.index as int),
    {
        if self.index < self.chars.len() {
            Some(self.chars[self.index])
        } else {
            None
        }
    }

    fn char_at(&self, i: usize) -> (r: Option<char>)
        ensures
            r == char_at(self.chars@, i as int),
    {
        if i < self.chars.len() {
            Some(self.chars[i])
        } else {
            None
        }
    }

    /// Splits a source line into its code and its trailing `#` comment,
    /// respecting string literals (a `#` inside `"…"` is not a comment). The
    /// comment comes back without the `#`, trimmed; `None` when absent.
    pub fn split_comment(source: &str) -> (r: (String, Option<String>))
        ensures
            r.0@ == split_comment_of(source@).0,
            match split_comment_of(source@).1 {
                Some(comment) => r.1 matches Some(c) && c@ == comment,
                None => r.1.is_none(),
            },
    {
        let chars = chars_of(source);
        let mut index: usize = 0;
        let mut in_string = false;
        while index < chars.len()
            invariant
                chars@ == source@,
                comment_start(chars@, 0, false) == comment_start(chars@, index as int, in_string),
            decreases chars@.len() - index,
        {
            let c = chars[index];
            if in_string {
                if c == '\\' {
                    if chars.len() - index <= 2 {
                        proof {
                            assert(comment_start(chars@, index + 2, true) == None::<int>);
                            assert(comment_start(chars@, index as int, in_string) == None::<int>);
                        }
                        index = chars.len();
                        continue;
                    }
                    index += 2;
                    continue;
                }
                if c == '"' {
                    in_string = false;
                }
            } else if c == '"' {
                in_string = true;
            } else if c == '#' {
                let code = string_of(&chars, 0, index);
                let comment = string_of(&chars, index + 1, chars.len());
                let trimmed = crate::text::trim(comment.as_str());
                return (code, Some(String::from_str(trimmed)));
            }
            index += 1;
        }
        (string_of(&chars, 0, chars.len()), None)
    }
}

impl Lexer {
    /// Tokenizes the whole input, appending a final `End` token. The mode
    /// does not change lexing: every glyph lexes the same way in every mode
    /// (the parser decides what a glyph means).
    pub fn tokenize(source: &str, mode: LanguageMode) -> (r: Result<Vec<Token>, EngineError>)
        requires
            line_fits(source@),
            !(lex(source@) is Overflow),
        ensures
            match lex(source@) {
                Lexed::Tokens(ts) => r matches Ok(tokens) && tokens@.len() == ts.len() + 1
                    && (forall|i: int| 0 <= i < ts.len() ==> #[trigger] token_matches(tokens@[i], ts[i]))
                    && tokens@[ts.len() as int].kind == TokenKind::End
                    && tokens@[ts.len() as int].range.start == source@.len()
                    && tokens@[ts.len() as int].range.end == source@.len(),
                Lexed::Error(message, position) => r matches Err(e) && is_lex_error(e, message, position),
                Lexed::Overflow => false,
            },
    {
        let mut lexer = Lexer::new(source);
        let mut tokens: Vec<Token> = Vec::new();
        let ghost mut prefix: Seq<(LexedKind, int, int)> = Seq::empty();
        loop
            invariant
                lexer.chars@ == source@,
                line_fits(source@),
                lexer.index <= lexer.chars@.len(),
                tokens@.len() == prefix.len(),
                forall|i: int| 0 <= i < prefix.len() ==> #[trigger] token_matches(tokens@[i], prefix[i]),
                lex(source@) == prepend(prefix, lex_from(source@, lexer.index as int)),
                !(lex(source@) is Overflow),
            decreases lexer.chars@.len() - lexer.index,
        {
            let ghost before = lexer.index;
            proof {
                assert(prefix + Seq::<(LexedKind, int, int)>::empty() == prefix);
            }
            match lexer.next_token() {
                Ok(Some(token)) => {
                    proof {
                        let step = scan(source@, skip_whitespace(source@, before as int));
                        let l = (step->Token_0, step->Token_1, step->Token_2);
                        assert(prefix + seq![l] + match lex_from(source@, lexer.index as int) { Lexed::Tokens(rest) => rest, _ => Seq::empty() }
                            == prefix + (seq![l] + match lex_from(source@, lexer.index as int) { Lexed::Tokens(rest) => rest, _ => Seq::empty() }));
                        prefix = prefix.push(l);
                    }
                    tokens.push(token);
                }
                Ok(None) => {
                    let end = lexer.index;
                    tokens.push(Token { kind: TokenKind::End, range: std::ops::Range { start: end, end } });
                    return Ok(tokens);
                }
                Err(e) => {
                    return Err(e);
                }
            }
        }
    }

    fn next_token(&mut self) -> (r: Result<Option<Token>, EngineError>)
        requires
            old(self).index <= old(self).chars@.len(),
            line_fits(old(self).chars@),
            !(scan(old(self).chars@, skip_whitespace(old(self).chars@, old(self).index as int)) is Overflow),
        ensures
            final(self).chars@ == old(self).chars@,
            final(self).index <= final(self).chars@.len(),
            reports_step(r, scan(old(self).chars@, skip_whitespace(old(self).chars@, old(self).index as int))),
            r matches Ok(None) ==> final(self).index == final(self).chars@.len(),
            r matches Ok(Some(t)) ==> final(self).index == t.range.end && final(self).index > old(self).index,
    {
        let ghost chars = self.chars@;
        let len = self.chars.len();
        loop
            invariant
                self.chars@ == chars,
                len == chars.len(),
                old(self).index <= self.index <= chars.len(),
                skip_whitespace(chars, old(self).index as int) == skip_whitespace(chars, self.index as int),
            ensures
                self.chars@ == chars,
                len == chars.len(),
                old(self).index <= self.index <= chars.len(),
                skip_whitespace(chars, old(self).index as int) == self.index,
            decreases chars.len() - self.index,
        {
            match self.current() {
                Some(c) => {
                    if is_whitespace(c) {
                        self.index += 1;
                    } else {
                        break;
                    }
                }
                None => {
                    break;
                }
            }
        }
        let c = match self.current() {
            Some(c) => c,
            None => {
                return Ok(None);
            }
        };
        let start = self.index;
        if c == '#' {
            self.index = self.chars.len();
            return Ok(None);
        }
        match self.char_at(self.index + 1) {
            Some(next) => {
                let kind = if c == '=' && next == '=' {
                    Some(TokenKind::EqualEqual)
                } else if c == '!' && next == '=' {
                    Some(TokenKind::NotEqual)
                } else if c == '<' && next == '=' {
                    Some(TokenKind::LessOrEqual)
                } else if c == '>' && next == '=' {
                    Some(TokenKind::GreaterOrEqual)
                } else if c == '<' && next == '<' {
                    Some(TokenKind::ShiftLeft)
                } else if c == '>' && next == '>' {
                    Some(TokenKind::ShiftRight)
                } else if c == '.' && next == '.' {
                    Some(TokenKind::DotDot)
                } else if c == '-' && next == '>' {
                    Some(TokenKind::Arrow)
                } else if c == ':' && next == ':' {
                    Some(TokenKind::ColonColon)
                } else {
                    None
                };
                match kind {
                    Some(kind) => {
                        self.index += 2;
                        return Ok(Some(Token { kind, range: std::ops::Range { start, end: self.index } }));
                    }
                    None => {}
                }
            }
            None => {}
        }
        if c == '.' {
            let numeric_next = match self.char_at(self.index + 1) {
                Some(n) => is_numeric(n),
                None => false,
            };
            if numeric_next {
                return match self.number(start) {
                    Ok(t) => Ok(Some(t)),
                    Err(e) => Err(e),
                };
            }
            self.index += 1;
            return Ok(Some(Token { kind: TokenKind::Dot, range: std::ops::Range { start, end: self.index } }));
        }
        let simple = Self::simple(c);
        match simple {
            Some(kind) => {
                self.index += 1;
                return Ok(Some(Token { kind, range: std::ops::Range { start, end: self.index } }));
            }
            None => {}
        }
        if c == '"' {
            return match self.string_literal(start) {
                Ok(t) => Ok(Some(t)),
                Err(e) => Err(e),
            };
        }
        if c == '\'' {
            return self.quoted_name(start);
        }
        if is_numeric(c) {
            return match self.number(start) {
                Ok(t) => Ok(Some(t)),
                Err(e) => Err(e),
            };
        }
        if c == '$' {
            return self.pinned(start);
        }
        if is_alphabetic(c) || c == '_' {
            return self.identifier(start);
        }
        let mut message = String::from_str("unexpected character '");
        push_char(&mut message, c);
        push_char(&mut message, '\'');
        proof {
            assert(message@ =~= "unexpected character '"@ + seq![c] + seq!['\'']);
        }
        Err(lex_error(message, start))
    }

    /// The single-character kinds.
    fn simple(c: char) -> (r: Option<TokenKind>)
        ensures
            match simple_kind(c) {
                Some(l) => r matches Some(k) && kind_matches(k, l),
                None => r.is_none(),
            },
    {
        match c {
            '+' => Some(TokenKind::Plus),
            '-' | '−' => Some(TokenKind::Minus),
            '*' | '×' | '·' => Some(TokenKind::Star),
            '/' | '÷' => Some(TokenKind::Slash),
            '%' => Some(TokenKind::Percent),
            '^' => Some(TokenKind::Caret),
            '=' => Some(TokenKind::Assign),
            '(' => Some(TokenKind::LeftParen),
            ')' => Some(TokenKind::RightParen),
            ',' => Some(TokenKind::Comma),
            '[' => Some(TokenKind::LeftBracket),
            ']' => Some(TokenKind::RightBracket),
            '{' => Some(TokenKind::LeftBrace),
            '}' => Some(TokenKind::RightBrace),
            ':' => Some(TokenKind::Colon),
            ';' => Some(TokenKind::Semicolon),
            '√' => Some(TokenKind::SqrtSign),
            '<' => Some(TokenKind::LessThan),
            '>' => Some(TokenKind::GreaterThan),
            '&' => Some(TokenKind::Ampersand),
            '|' => Some(TokenKind::Pipe),
            '~' => Some(TokenKind::Tilde),
            '≤' => Some(TokenKind::LessOrEqual),
            '≥' => Some(TokenKind::GreaterOrEqual),
            '≠' => Some(TokenKind::NotEqual),
            '!' => Some(TokenKind::Bang),
            '∑' => Some(TokenKind::Identifier(String::from_str("sigma"))),
            '∏' => Some(TokenKind::Identifier(String::from_str("product"))),
            _ => None,
        }
    }
}

/// Does `r` report a scan that always yields a token or an error?
pub open spec fn reports_token(r: Result<Token, EngineError>, step: Step) -> bool {
    match step {
        Step::Token(kind, s, e) => r matches Ok(t) && token_matches(t, (kind, s, e)),
        Step::Fail(message, position) => r matches Err(err) && is_lex_error(err, message, position),
        _ => false,
    }
}

impl Lexer {
    /// `'Quoted Sheet Name'`, for names the identifier syntax can't carry.
    fn quoted_name(&mut self, start: usize) -> (r: Result<Option<Token>, EngineError>)
        requires
            old(self).index == start,
            start < old(self).chars@.len(),
            old(self).chars@[start as int] == '\'',
        ensures
            final(self).chars@ == old(self).chars@,
            final(self).index <= final(self).chars@.len(),
            reports_step(r, quoted_step(old(self).chars@, start as int)),
            r matches Ok(Some(t)) ==> final(self).index == t.range.end && final(self).index > start,
    {
        let ghost chars = self.chars@;
        let len = self.chars.len();
        self.index += 1;
        let name_start = self.index;
        while self.index < self.chars.len() && self.chars[self.index] != '\''
            invariant
                self.chars@ == chars,
                len == chars.len(),
                name_start <= self.index <= chars.len(),
                quote_end(chars, name_start as int) == quote_end(chars, self.index as int),
            decreases chars.len() - self.index,
        {
            self.index += 1;
        }
        if self.index >= self.chars.len() {
            return Err(lex_error(String::from_str("unterminated sheet name quote"), start));
        }
        let name = string_of(&self.chars, name_start, self.index);
        self.index += 1;
        Ok(Some(Token { kind: TokenKind::QuotedName(name), range: std::ops::Range { start, end: self.index } }))
    }

    /// `$A:1`: a pinned column, then the reference tail; anything else
    /// after `$` is a loud lex error.
    fn pinned(&mut self, start: usize) -> (r: Result<Option<Token>, EngineError>)
        requires
            old(self).index == start,
            start < old(self).chars@.len(),
            old(self).chars@[start as int] == '$',
        ensures
            final(self).chars@ == old(self).chars@,
            final(self).index <= final(self).chars@.len(),
            reports_step(r, pinned_step(old(self).chars@, start as int)),
            r matches Ok(Some(t)) ==> final(self).index == t.range.end && final(self).index > start,
    {
        let ghost chars = self.chars@;
        let len = self.chars.len();
        self.index += 1;
        let name_start = self.index;
        while self.index < self.chars.len() && is_alphabetic(self.chars[self.index])
            invariant
                self.chars@ == chars,
                len == chars.len(),
                name_start <= self.index <= chars.len(),
                alphabetic_end(chars, name_start as int) == alphabetic_end(chars, self.index as int),
            decreases chars.len() - self.index,
        {
            self.index += 1;
        }
        let name = string_of(&self.chars, name_start, self.index);
        if self.index > name_start && self.current() == Some(':') {
            match self.cell_reference_tail(name, start, true) {
                Ok(Some(token)) => return Ok(Some(token)),
                Ok(None) => {}
                Err(e) => return Err(e),
            }
        }
        Err(lex_error(String::from_str("'$' pins a cell reference — write $A:1, A:$1, or $A:$1"), start))
    }

    /// An identifier; a letters-only name followed by `:digits` (or
    /// `:$digits`) is a cell reference instead.
    fn identifier(&mut self, start: usize) -> (r: Result<Option<Token>, EngineError>)
        requires
            old(self).index == start,
            start < old(self).chars@.len(),
            is_identifier_char(old(self).chars@[start as int]),
        ensures
            final(self).chars@ == old(self).chars@,
            final(self).index <= final(self).chars@.len(),
            reports_step(r, identifier_step(old(self).chars@, start as int)),
            r matches Ok(Some(t)) ==> final(self).index == t.range.end && final(self).index > start,
    {
        let ghost chars = self.chars@;
        let len = self.chars.len();
        while self.index < self.chars.len() && (is_alphabetic(self.chars[self.index]) || is_numeric(self.chars[self.index]) || self.chars[self.index] == '_')
            invariant
                self.chars@ == chars,
                len == chars.len(),
                start <= self.index <= chars.len(),
                identifier_end(chars, start as int) == identifier_end(chars, self.index as int),
                start < chars.len(),
                is_identifier_char(chars[start as int]),
                self.index == start ==> is_identifier_char(chars[self.index as int]),
            decreases chars.len() - self.index,
        {
            self.index += 1;
        }
        let end = self.index;
        let mut all_letters = true;
        let mut k = start;
        while k < end
            invariant
                self.chars@ == chars,
                len == chars.len(),
                start <= k <= end <= chars.len(),
                all_letters == (forall|j: int| start <= j < k ==> char_is_alphabetic(#[trigger] chars[j])),
            decreases end - k,
        {
            if !is_alphabetic(self.chars[k]) {
                all_letters = false;
            }
            k += 1;
        }
        proof {
            let name = chars.subrange(start as int, end as int);
            assert(all_alphabetic(name) == all_letters) by {
                if all_letters {
                    assert forall|j: int| 0 <= j < name.len() implies char_is_alphabetic(#[trigger] name[j]) by {
                        assert(name[j] == chars[j + start]);
                    }
                } else {
                    let j = choose|j: int| start <= j < end && !char_is_alphabetic(#[trigger] chars[j]);
                    assert(name[j - start] == chars[j]);
                }
            }
        }
        let name = string_of(&self.chars, start, end);
        if all_letters && self.current() == Some(':') {
            let column = string_of(&self.chars, start, end);
            match self.cell_reference_tail(column, start, false) {
                Ok(Some(token)) => return Ok(Some(token)),
                Ok(None) => {}
                Err(e) => return Err(e),
            }
        }
        Ok(Some(Token { kind: TokenKind::Identifier(name), range: std::ops::Range { start, end } }))
    }

    /// Consumes `:[$]digits` after a column name, or returns `None` leaving
    /// the `:` unconsumed (the name is then a plain identifier). Expects
    /// `current == ':'`.
    fn cell_reference_tail(&mut self, column: String, start: usize, pin_column: bool) -> (r: Result<Option<Token>, EngineError>)
        requires
            start < old(self).index < old(self).chars@.len(),
            old(self).chars@[old(self).index as int] == ':',
        ensures
            final(self).chars@ == old(self).chars@,
            final(self).index <= final(self).chars@.len(),
            match cell_tail(old(self).chars@, column@, start as int, pin_column, old(self).index as int) {
                Some(step) => reports_step(r, step),
                None => r matches Ok(None) && final(self).index == old(self).index,
            },
            r matches Ok(Some(t)) ==> final(self).index == t.range.end && final(self).index > start,
    {
        let ghost chars = self.chars@;
        let len = self.chars.len();
        let mut peek = self.index + 1;
        let mut pin_row = false;
        if self.char_at(peek) == Some('$') {
            pin_row = true;
            peek += 1;
        }
        let numeric = match self.char_at(peek) {
            Some(d) => is_numeric(d),
            None => false,
        };
        if !numeric {
            return Ok(None);
        }
        self.index = peek;
        let row_start = self.index;
        while self.index < self.chars.len() && is_numeric(self.chars[self.index])
            invariant
                self.chars@ == chars,
                len == chars.len(),
                row_start <= self.index <= chars.len(),
                numeric_end(chars, row_start as int) == numeric_end(chars, self.index as int),
            decreases chars.len() - self.index,
        {
            self.index += 1;
        }
        let row_text = string_of(&self.chars, row_start, self.index);
        match parse_i64(row_text.as_str()) {
            Some(row) => Ok(Some(Token {
                kind: TokenKind::CellReference { column, row, pin_column, pin_row },
                range: std::ops::Range { start, end: self.index },
            })),
            None => Err(lex_error(String::from_str("cell row out of range"), row_start)),
        }
    }

    /// Scans `"…"`, applying the `\"` `\\` `\n` `\t` escapes.
    /// Unterminated strings and unknown escapes are lex errors.
    fn string_literal(&mut self, start: usize) -> (r: Result<Token, EngineError>)
        requires
            old(self).index == start,
            start < old(self).chars@.len(),
            old(self).chars@[start as int] == '"',
        ensures
            final(self).chars@ == old(self).chars@,
            final(self).index <= final(self).chars@.len(),
            reports_token(r, string_scan(old(self).chars@, start + 1, Seq::empty(), start as int)),
            r matches Ok(t) ==> final(self).index == t.range.end && final(self).index > start,
    {
        let ghost chars = self.chars@;
        let len = self.chars.len();
        self.index += 1;
        let mut text = String::new();
        while self.index < self.chars.len()
            invariant
                self.chars@ == chars,
                chars == old(self).chars@,
                len == chars.len(),
                start < self.index <= chars.len(),
                string_scan(chars, start + 1, Seq::empty(), start as int) == string_scan(chars, self.index as int, text@, start as int),
            decreases chars.len() - self.index,
        {
            let c = self.chars[self.index];
            if c == '"' {
                self.index += 1;
                return Ok(Token { kind: TokenKind::String(text), range: std::ops::Range { start, end: self.index } });
            }
            if c == '\\' {
                if self.index + 1 >= len {
                    return Err(lex_error(String::from_str("unterminated string"), start));
                }
                let e = self.chars[self.index + 1];
                let mapped = if e == '\\' {
                    Some('\\')
                } else if e == '"' {
                    Some('"')
                } else if e == 'n' {
                    Some('\n')
                } else if e == 't' {
                    Some('\t')
                } else {
                    None
                };
                proof {
                    assert(mapped == escaped(e));
                }
                match mapped {
                    Some(m) => push_char(&mut text, m),
                    None => {
                        let mut message = String::from_str("unknown escape '\\");
                        push_char(&mut message, e);
                        push_char(&mut message, '\'');
                        proof {
                            assert(message@ =~= "unknown escape '\\"@ + seq![e] + seq!['\'']);
                        }
                        return Err(lex_error(message, self.index));
                    }
                }
                self.index += 2;
                continue;
            }
            push_char(&mut text, c);
            self.index += 1;
        }
        Err(lex_error(String::from_str("unterminated string"), start))
    }
}

impl Lexer {
    /// Scans `123`, `1.5`, `1_000`, `2.5e-3`, and the programmer literals
    /// `0xFF` / `0b1010`. The leading sign is not part of the literal.
    fn number(&mut self, start: usize) -> (r: Result<Token, EngineError>)
        requires
            old(self).index == start,
            start < old(self).chars@.len(),
            line_fits(old(self).chars@),
            !(number_literal(old(self).chars@, start as int) is Overflow),
        ensures
            final(self).chars@ == old(self).chars@,
            final(self).index <= final(self).chars@.len(),
            reports_token(r, number_literal(old(self).chars@, start as int)),
            r matches Ok(t) ==> final(self).index == t.range.end && final(self).index > start,
    {
        let ghost chars = self.chars@;
        let len = self.chars.len();
        if self.chars[self.index] == '0' {
            let next = self.char_at(self.index + 1);
            if next == Some('x') || next == Some('X') {
                return self.radix_literal(start, 16);
            }
            if next == Some('b') || next == Some('B') {
                return self.radix_literal(start, 2);
            }
        }
        let mut saw_dot = false;
        loop
            invariant_except_break
                number_scan(chars, start as int, false) == number_scan(chars, self.index as int, saw_dot),
            invariant
                self.chars@ == chars,
                len == chars.len(),
                start <= self.index <= chars.len(),
            ensures
                self.chars@ == chars,
                len == chars.len(),
                start <= self.index <= chars.len(),
                number_scan(chars, start as int, false) == (self.index as int, saw_dot),
            decreases chars.len() - self.index,
        {
            let ghost i = self.index as int;
            let c = match self.current() {
                Some(c) => c,
                None => break,
            };
            if ('0' <= c && c <= '9') || c == '_' {
                self.index += 1;
            } else if c == '.' && !saw_dot {
                saw_dot = true;
                self.index += 1;
            } else if c == 'e' || c == 'E' {
                let mut peek = self.index + 1;
                let sign = self.char_at(peek);
                if sign == Some('+') || sign == Some('-') {
                    peek += 1;
                }
                let digit_follows = match self.char_at(peek) {
                    Some(d) => is_numeric(d),
                    None => false,
                };
                if !digit_follows {
                    break;
                }
                self.index = peek + 1;
                while self.index < self.chars.len() && is_numeric(self.chars[self.index])
                    invariant
                        self.chars@ == chars,
                        len == chars.len(),
                        peek + 1 <= self.index <= chars.len(),
                        numeric_end(chars, peek + 1) == numeric_end(chars, self.index as int),
                    decreases chars.len() - self.index,
                {
                    self.index += 1;
                }
                proof {
                    assert(number_scan(chars, i, saw_dot) == (numeric_end(chars, peek + 1), saw_dot));
                }
                break;
            } else {
                break;
            }
        }
        let ghost end = self.index as int;
        if saw_dot && self.current() == Some('.') {
            let shown = string_of(&self.chars, start, self.index + 1);
            let mut message = String::from_str("malformed number '");
            message.append(shown.as_str());
            push_char(&mut message, '\'');
            proof {
                assert(message@ =~= "malformed number '"@ + chars.subrange(start as int, end + 1) + seq!['\'']);
            }
            return Err(lex_error(message, start));
        }
        let text = string_of(&self.chars, start, self.index);
        proof {
            assert(!(saw_dot && char_at(chars, end) == Some('.')));
        }
        match BigDecimal::parse(text.as_str()) {
            Some(value) => {
                proof {
                    if end == start {
                        assert(text@ =~= Seq::<char>::empty());
                    }
                }
                Ok(Token { kind: TokenKind::Number(value), range: std::ops::Range { start, end: self.index } })
            }
            None => {
                let mut message = String::from_str("malformed number '");
                message.append(text.as_str());
                push_char(&mut message, '\'');
                proof {
                    assert(message@ =~= "malformed number '"@ + chars.subrange(start as int, end) + seq!['\'']);
                }
                Err(lex_error(message, start))
            }
        }
    }

    /// `0xDEAD_BEEF` / `0b1010_1010`: exact integers at any width. A
    /// letter, digit, or `.` left dangling after the digits is a lex error.
    fn radix_literal(&mut self, start: usize, radix: u32) -> (r: Result<Token, EngineError>)
        requires
            old(self).index == start,
            start + 1 < old(self).chars@.len(),
            radix == 16 || radix == 2,
            line_fits(old(self).chars@),
        ensures
            final(self).chars@ == old(self).chars@,
            final(self).index <= final(self).chars@.len(),
            reports_token(r, radix_literal(old(self).chars@, start as int, radix as int)),
            r matches Ok(t) ==> final(self).index == t.range.end && final(self).index > start,
    {
        let ghost chars = self.chars@;
        let len = self.chars.len();
        self.index += 2;
        let body_start = self.index;
        let mut value = BigInteger::zero();
        let mut digits: usize = 0;
        let base = BigInteger::from_i64(radix as i64);
        proof {
            assert(chars.subrange(body_start as int, body_start as int).len() == 0);
        }
        loop
            invariant
                self.chars@ == chars,
                len == chars.len(),
                body_start == start + 2,
                body_start <= self.index <= chars.len(),
                radix == 16 || radix == 2,
                base.wf(),
                base.value() == radix,
                value.wf(),
                value.value() == radix_value(chars.subrange(body_start as int, self.index as int), radix as int),
                digits == radix_digit_count(chars.subrange(body_start as int, self.index as int)),
                digits <= self.index - body_start,
                radix_end(chars, body_start as int, radix as int) == radix_end(chars, self.index as int, radix as int),
            ensures
                self.chars@ == chars,
                len == chars.len(),
                body_start <= self.index <= chars.len(),
                value.wf(),
                value.value() == radix_value(chars.subrange(body_start as int, self.index as int), radix as int),
                digits == radix_digit_count(chars.subrange(body_start as int, self.index as int)),
                radix_end(chars, body_start as int, radix as int) == self.index,
            decreases chars.len() - self.index,
        {
            let c = match self.current() {
                Some(c) => c,
                None => break,
            };
            let ghost before = chars.subrange(body_start as int, self.index as int);
            proof {
                assert(chars.subrange(body_start as int, self.index + 1).drop_last() == before);
                assert(chars.subrange(body_start as int, self.index + 1).last() == c);
            }
            if c == '_' {
                self.index += 1;
                continue;
            }
            let digit: u32 = if radix == 16 {
                match hex_digit(c) {
                    Some(h) => h,
                    None => break,
                }
            } else if c == '0' {
                0
            } else if c == '1' {
                1
            } else {
                break;
            };
            value = value.mul(&base).add(&BigInteger::from_i64(digit as i64));
            digits += 1;
            self.index += 1;
        }
        let text_name = if radix == 16 { "hex" } else { "binary" };
        if digits == 0 {
            let mut message = String::from_str(text_name);
            message.append(" literal needs digits");
            return Err(lex_error(message, start));
        }
        let dangling = match self.current() {
            Some(c) => is_alphabetic(c) || is_numeric(c) || c == '.',
            None => false,
        };
        if dangling {
            let shown = string_of(&self.chars, start, self.index + 1);
            let mut message = String::from_str("malformed ");
            message.append(text_name);
            message.append(" literal '");
            message.append(shown.as_str());
            push_char(&mut message, '\'');
            proof {
                assert(text_name@ == radix_name(radix as int));
                assert(message@ =~= "malformed "@ + radix_name(radix as int) + " literal '"@
                    + chars.subrange(start as int, self.index + 1) + seq!['\'']);
            }
            return Err(lex_error(message, start));
        }
        proof {
            lemma_radix_fits(chars.subrange(body_start as int, self.index as int), radix as int, chars.len() as int);
        }
        let number = BigDecimal::new(value, 0);
        Ok(Token { kind: TokenKind::Number(number), range: std::ops::Range { start, end: self.index } })
    }
}

} // verus!
