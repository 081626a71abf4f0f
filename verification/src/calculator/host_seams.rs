//! Pure host seams: comment-only and trailing comments, point-mode operand
//! detection, programmer-notation sniffing, `ans` continuation, and the
//! identifier fragment autocomplete completes.

use vstd::prelude::*;
use crate::lexer::Lexer;
use crate::lexer::grammar::split_comment_of;
use crate::mode::LanguageMode;
use crate::text::{trim, trimmed, chars_of, string_of, to_lowercase, lowercase, is_alphabetic, is_numeric,
    char_is_alphabetic, char_is_numeric};

verus! {

/// The comment of a line that is only a comment (`# note`); `None` when the
/// line has code.
pub open spec fn standalone_comment_of(line: Seq<char>) -> Option<Seq<char>> {
    if trimmed(split_comment_of(line).0).len() == 0 {
        split_comment_of(line).1
    } else {
        None
    }
}

/// The trailing comment of a line that also has code (`5 + 3 # adds`).
pub open spec fn trailing_comment_of(line: Seq<char>) -> Option<Seq<char>> {
    if trimmed(split_comment_of(line).0).len() == 0 {
        None
    } else {
        split_comment_of(line).1
    }
}

/// The comment text of a line that is only a comment (`# note`), or `None`
/// when the line has code: a comment-only line is a note, not a parse
/// error.
pub fn standalone_comment(line: &str) -> (r: Option<String>)
    ensures
        match standalone_comment_of(line@) {
            Some(c) => r matches Some(s) && s@ == c,
            None => r.is_none(),
        },
{
    let (code, comment) = Lexer::split_comment(line);
    if chars_of(trim(code.as_str())).len() == 0 {
        comment
    } else {
        None
    }
}


/// The trailing comment on a line that also has code (`5 + 3 # adds`), or
/// `None`: hosts show it beside the result.
pub fn trailing_comment(line: &str) -> (r: Option<String>)
    ensures
        match trailing_comment_of(line@) {
            Some(c) => r matches Some(s) && s@ == c,
            None => r.is_none(),
        },
{
    let (code, comment) = Lexer::split_comment(line);
    if chars_of(trim(code.as_str())).len() == 0 {
        None
    } else {
        comment
    }
}

/// The characters after which a formula draft still expects an operand.
pub open spec fn operand_expecting() -> Seq<char> {
    "+-*/%^(,=<>≤≥≠·×÷−√.[{:$"@
}

/// Does the trimmed draft end with an operator, an opening bracket, a comma,
/// `=`, a comparison, range dots, or the `$` of a pinned reference?
pub open spec fn expects_operand_in(draft: Seq<char>) -> bool {
    trimmed(draft).len() > 0 && operand_expecting().contains(trimmed(draft).last())
}

/// True when a formula draft ends expecting an operand: clicking a cell
/// then inserts its reference rather than committing the edit.
pub fn expects_operand(draft: &str) -> (r: bool)
    ensures
        r == expects_operand_in(draft@),
{
    let chars = chars_of(trim(draft));
    if chars.len() == 0 {
        return false;
    }
    let last = chars[chars.len() - 1];
    proof {
        assert(chars@ == trimmed(draft@));
        assert(trimmed(draft@).last() == chars@[chars.len() - 1]);
    }
    let set = chars_of("+-*/%^(,=<>≤≥≠·×÷−√.[{:$");
    let mut i: usize = 0;
    while i < set.len()
        invariant
            i <= set.len(),
            set@ == operand_expecting(),
            chars@ == trimmed(draft@),
            chars@.len() > 0,
            last == chars@[chars@.len() - 1],
            forall|k: int| 0 <= k < i ==> set@[k] != last,
        decreases set.len() - i,
    {
        if set[i] == last {
            proof {
                assert(set@[i as int] == last);
                assert(trimmed(draft@).last() == last);
            }
            return true;
        }
        i += 1;
    }
    false
}

/// Does `s` contain `part` at some position?
pub open spec fn contains_at(s: Seq<char>, part: Seq<char>, i: int) -> bool {
    0 <= i && i + part.len() <= s.len() && s.subrange(i, i + part.len()) == part
}

/// Does `s` contain `part`?
pub open spec fn contains_part(s: Seq<char>, part: Seq<char>) -> bool {
    exists|i: int| contains_at(s, part, i)
}

/// A character that continues a name: a letter, a digit, or `_`.
pub open spec fn word_char(c: char) -> bool {
    char_is_alphabetic(c) || char_is_numeric(c) || c == '_'
}

/// A `0x`/`0b` literal prefix starting at `i`, at a token boundary (`10x`
/// is implicit multiplication and `a0b` a name).
pub open spec fn radix_prefix_at(s: Seq<char>, i: int) -> bool {
    0 <= i && i + 1 < s.len() && s[i] == '0' && (s[i + 1] == 'x' || s[i + 1] == 'b') && (i == 0 || !word_char(
        s[i - 1],
    ))
}

/// The base and bit functions whose use marks a line as programmer talk.
pub open spec fn programmer_names() -> Seq<Seq<char>> {
    seq!["bitand"@, "bitor"@, "bitxor"@, "bitshift"@, "frombase"@, "tobase"@]
}

/// Does the (lowercased) line name a base/bit function or hold a bare
/// `0x`/`0b` literal?
pub open spec fn speaks_programmer(line: Seq<char>) -> bool {
    let lowered = lowercase(line);
    (exists|k: int| 0 <= k < programmer_names().len() && contains_part(lowered, #[trigger] programmer_names()[k]))
        || (exists|i: int| radix_prefix_at(lowered, i))
}

/// Does `chars` hold `part` somewhere?
fn has_part(chars: &Vec<char>, part: &str) -> (r: bool)
    ensures
        r == contains_part(chars@, part@),
{
    let wanted = chars_of(part);
    if wanted.len() > chars.len() {
        proof {
            assert forall|i: int| !contains_at(chars@, part@, i) by {}
        }
        return false;
    }
    let mut i: usize = 0;
    while i <= chars.len() - wanted.len()
        invariant
            wanted@ == part@,
            wanted.len() <= chars.len(),
            i <= chars.len() - wanted.len() + 1,
            forall|k: int| 0 <= k < i ==> !contains_at(chars@, part@, k),
        decreases chars.len() - i,
    {
        let mut j: usize = 0;
        let mut same = true;
        while j < wanted.len()
            invariant
                wanted@ == part@,
                i + wanted.len() <= chars.len(),
                j <= wanted.len(),
                same == (forall|x: int| 0 <= x < j ==> chars@[i + x] == wanted@[x]),
            decreases wanted.len() - j,
        {
            if chars[i + j] != wanted[j] {
                same = false;
            }
            j += 1;
        }
        if same {
            proof {
                assert(chars@.subrange(i as int, i + part@.len()) =~= part@);
                assert(contains_at(chars@, part@, i as int));
            }
            return true;
        }
        proof {
            let x = choose|x: int| 0 <= x < wanted.len() && chars@[i + x] != wanted@[x];
            assert(chars@.subrange(i as int, i + part@.len())[x] != part@[x]);
        }
        i += 1;
    }
    proof {
        assert forall|k: int| !contains_at(chars@, part@, k) by {
            if 0 <= k < i {
            }
        }
    }
    false
}

/// A letter, a digit, or `_`.
fn is_word_char(c: char) -> (r: bool)
    ensures
        r == word_char(c),
{
    is_alphabetic(c) || is_numeric(c) || c == '_'
}

/// Did this line speak programmer (0x/0b literals at a token boundary, or
/// the base/bit functions)? Hosts then echo an integer result in hex too:
/// display only, never semantics.
pub fn uses_programmer_notation(line: &str) -> (r: bool)
    ensures
        r == speaks_programmer(line@),
{
    let lowered = to_lowercase(line);
    let chars = chars_of(lowered.as_str());
    let names = ["bitand", "bitor", "bitxor", "bitshift", "frombase", "tobase"];
    proof {
        assert(names@.map_values(|s: &str| s@) =~= programmer_names());
    }
    let mut k: usize = 0;
    while k < 6
        invariant
            k <= 6,
            chars@ == lowercase(line@),
            names@.map_values(|s: &str| s@) == programmer_names(),
            forall|x: int| 0 <= x < k ==> !contains_part(lowercase(line@), #[trigger] programmer_names()[x]),
        decreases 6 - k,
    {
        proof {
            assert(names@.map_values(|s: &str| s@)[k as int] == names@[k as int]@);
        }
        if has_part(&chars, names[k]) {
            proof {
                assert(contains_part(lowercase(line@), programmer_names()[k as int]));
            }
            return true;
        }
        k += 1;
    }
    let mut i: usize = 0;
    while chars.len() > 0 && i < chars.len() - 1
        invariant
            chars@ == lowercase(line@),
            forall|x: int| 0 <= x < programmer_names().len() ==> !contains_part(lowercase(line@),
                #[trigger] programmer_names()[x]),
            forall|x: int| 0 <= x < i ==> !radix_prefix_at(chars@, x),
        decreases chars.len() - i,
    {
        if chars[i] == '0' && (chars[i + 1] == 'x' || chars[i + 1] == 'b') {
            if i == 0 || !is_word_char(chars[i - 1]) {
                proof {
                    assert(radix_prefix_at(chars@, i as int));
                }
                return true;
            }
        }
        i += 1;
    }
    proof {
        assert forall|x: int| !radix_prefix_at(chars@, x) by {
            if 0 <= x < i {
            }
        }
    }
    false
}

/// The operators that may lead a continuation line: the ones with a
/// Programmer-mode meaning only there (two-character ones first).
pub open spec fn continuation_leads(mode: LanguageMode) -> Seq<Seq<char>> {
    if mode == LanguageMode::Programmer {
        seq!["<<"@, ">>"@, "+"@, "-"@, "*"@, "/"@, "^"@, "%"@, "&"@, "|"@, "×"@, "÷"@, "·"@]
    } else {
        seq!["+"@, "-"@, "*"@, "/"@, "^"@, "×"@, "÷"@, "·"@]
    }
}

/// The input without its leading spaces.
pub open spec fn without_leading_spaces(s: Seq<char>) -> Seq<char>
    decreases s.len(),
{
    if s.len() > 0 && s[0] == ' ' {
        without_leading_spaces(s.drop_first())
    } else {
        s
    }
}

/// `ans` prefixed to a line that starts with a binary operator.
pub open spec fn ans_prefixed_of(input: Seq<char>, mode: LanguageMode) -> Option<Seq<char>> {
    let body = without_leading_spaces(input);
    if body.len() > 0 && exists|k: int| 0 <= k < continuation_leads(mode).len() && contains_at(body,
        #[trigger] continuation_leads(mode)[k], 0) {
        Some("ans"@ + body)
    } else {
        None
    }
}

/// A line starting with a binary operator continues from the previous
/// result: `+5` reads as `ans+5`. `None` when no operator leads. `%` and
/// `& | << >>` are operators only in Programmer mode.
pub fn ans_prefixed(input: &str, mode: LanguageMode) -> (r: Option<String>)
    ensures
        match ans_prefixed_of(input@, mode) {
            Some(t) => r matches Some(s) && s@ == t,
            None => r.is_none(),
        },
{
    let chars = chars_of(input);
    let mut start: usize = 0;
    proof {
        assert(chars@.skip(0) =~= chars@);
    }
    while start < chars.len() && chars[start] == ' '
        invariant
            start <= chars.len(),
            without_leading_spaces(input@) == without_leading_spaces(chars@.skip(start as int)),
            chars@ == input@,
        decreases chars.len() - start,
    {
        proof {
            assert(chars@.skip(start as int).drop_first() =~= chars@.skip(start + 1));
        }
        start += 1;
    }
    let body = string_of(&chars, start, chars.len());
    proof {
        assert(chars@.skip(start as int) =~= body@);
    }
    if chars.len() - start == 0 {
        return None;
    }
    let body_chars = chars_of(body.as_str());
    let leads = if matches!(mode, LanguageMode::Programmer) {
        vec!["<<", ">>", "+", "-", "*", "/", "^", "%", "&", "|", "×", "÷", "·"]
    } else {
        vec!["+", "-", "*", "/", "^", "×", "÷", "·"]
    };
    proof {
        assert(str_views(leads@) =~= continuation_leads(mode));
    }
    if starts_with_any(&body_chars, &leads) {
        let mut out = String::from_str("ans");
        out.append(body.as_str());
        return Some(out);
    }
    None
}

/// The characters of each string.
pub open spec fn str_views(parts: Seq<&str>) -> Seq<Seq<char>> {
    parts.map_values(|s: &str| s@)
}

/// Does `body` start with one of `leads`?
fn starts_with_any(body: &Vec<char>, leads: &Vec<&str>) -> (r: bool)
    ensures
        r == exists|k: int| 0 <= k < leads@.len() && contains_at(body@, #[trigger] str_views(leads@)[k], 0),
{
    let ghost views = str_views(leads@);
    let mut k: usize = 0;
    while k < leads.len()
        invariant
            k <= leads.len(),
            views == str_views(leads@),
            forall|x: int| 0 <= x < k ==> !contains_at(body@, #[trigger] views[x], 0),
        decreases leads.len() - k,
    {
        proof {
            assert(views[k as int] == leads@[k as int]@);
        }
        let lead = chars_of(leads[k]);
        if lead.len() <= body.len() {
            let mut j: usize = 0;
            let mut same = true;
            while j < lead.len()
                invariant
                    lead.len() <= body.len(),
                    j <= lead.len(),
                    same == (forall|x: int| 0 <= x < j ==> body@[x] == lead@[x]),
                decreases lead.len() - j,
            {
                if body[j] != lead[j] {
                    same = false;
                }
                j += 1;
            }
            if same {
                proof {
                    assert(body@.subrange(0, lead@.len() as int) =~= lead@);
                    assert(contains_at(body@, views[k as int], 0));
                }
                return true;
            }
            proof {
                let x = choose|x: int| 0 <= x < lead.len() && body@[x] != lead@[x];
                assert(body@.subrange(0, lead@.len() as int)[x] != lead@[x]);
            }
        }
        k += 1;
    }
    false
}

/// Where the name run ending at `k` starts.
pub open spec fn word_start(s: Seq<char>, k: int) -> int
    decreases k,
{
    if k > 0 && k <= s.len() && word_char(s[k - 1]) {
        word_start(s, k - 1)
    } else {
        k
    }
}

/// Past the digits starting at `k` (a name cannot start with one).
pub open spec fn digits_end(s: Seq<char>, k: int) -> int
    decreases s.len() - k,
{
    if 0 <= k < s.len() && char_is_numeric(s[k]) {
        digits_end(s, k + 1)
    } else {
        k
    }
}

/// The identifier fragment at the end of a line.
pub open spec fn trailing_identifier_of(line: Seq<char>) -> Seq<char> {
    line.subrange(digits_end(line, word_start(line, line.len() as int)), line.len() as int)
}

/// The identifier fragment at the end of an input line: what autocomplete
/// completes and replaces.
pub fn trailing_identifier(line: &str) -> (r: String)
    ensures
        r@ == trailing_identifier_of(line@),
{
    let chars = chars_of(line);
    let mut start = chars.len();
    while start > 0 && is_word_char(chars[start - 1])
        invariant
            start <= chars.len(),
            chars@ == line@,
            word_start(line@, line@.len() as int) == word_start(line@, start as int),
        decreases start,
    {
        start -= 1;
    }
    let ghost begin = start;
    while start < chars.len() && is_numeric(chars[start])
        invariant
            begin <= start <= chars.len(),
            chars@ == line@,
            word_start(line@, line@.len() as int) == begin,
            digits_end(line@, begin as int) == digits_end(line@, start as int),
        decreases chars.len() - start,
    {
        start += 1;
    }
    string_of(&chars, start, chars.len())
}

} // verus!
