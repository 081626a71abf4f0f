//! Namespace name arithmetic and the operator lookup that the evaluator's
//! dispatch and call paths lean on.

use vstd::prelude::*;
use crate::ast::BinaryOperator;
use crate::eval::currency::str_equal;
use crate::text::{chars_of, string_of, contains_double_colon, has_double_colon};

verus! {

/// Where the last `::` of `s` starts, if it has one.
pub open spec fn last_double_colon(s: Seq<char>) -> Option<int>
    decreases s.len(),
{
    if s.len() < 2 {
        None
    } else if s[s.len() - 2] == ':' && s[s.len() - 1] == ':' {
        Some(s.len() - 2)
    } else {
        last_double_colon(s.drop_last())
    }
}

/// The namespace a qualified name lives in: the prefix before its last `::`.
pub open spec fn home_namespace_of(name: Seq<char>) -> Option<Seq<char>> {
    match last_double_colon(name) {
        Some(i) => Some(name.take(i)),
        None => None,
    }
}

/// The last `::` found by scanning back from the end.
fn find_last_double_colon(chars: &Vec<char>) -> (r: Option<usize>)
    ensures
        r matches Some(i) ==> last_double_colon(chars@) == Some(i as int) && i + 2 <= chars@.len(),
        r is None ==> last_double_colon(chars@) is None,
{
    proof {
        assert(chars@.take(chars@.len() as int) =~= chars@);
        lemma_last_double_colon_range(chars@);
    }
    let mut end = chars.len();
    while end >= 2
        invariant
            end <= chars@.len(),
            last_double_colon(chars@) == last_double_colon(chars@.take(end as int)),
        decreases end,
    {
        proof {
            assert(chars@.take(end as int).drop_last() =~= chars@.take(end - 1));
        }
        if chars[end - 2] == ':' && chars[end - 1] == ':' {
            return Some(end - 2);
        }
        end -= 1;
    }
    None
}

/// The namespace a qualified name lives in: `Bits::area` → `Bits`,
/// `A::B::area` → `A::B`, a plain name → `None`. The prefix before the
/// last `::`, so a nested member's home is its innermost namespace.
pub fn home_namespace(name: &str) -> (r: Option<String>)
    ensures
        match home_namespace_of(name@) {
            Some(h) => r matches Some(s) && s@ == h,
            None => r.is_none(),
        },
{
    let chars = chars_of(name);
    match find_last_double_colon(&chars) {
        Some(i) => {
            let home = string_of(&chars, 0, i);
            proof {
                assert(home@ =~= name@.take(i as int));
            }
            Some(home)
        }
        None => None,
    }
}

/// The qualified candidates for `name` inside `namespace`, innermost first:
/// `namespace::name`, then the same one namespace further out, up to the
/// outermost.
pub open spec fn candidates_within(name: Seq<char>, namespace: Seq<char>) -> Seq<Seq<char>>
    decreases namespace.len(),
{
    let here = namespace + "::"@ + name;
    match last_double_colon(namespace) {
        Some(i) => if 0 <= i < namespace.len() {
            seq![here] + candidates_within(name, namespace.take(i))
        } else {
            seq![here]
        },
        None => seq![here],
    }
}

/// Qualified candidates for an unqualified `name` seen inside `namespace`:
/// none without a home namespace or for an already-qualified name.
pub open spec fn sibling_candidates_of(name: Seq<char>, namespace: Option<Seq<char>>) -> Seq<Seq<char>> {
    match namespace {
        None => Seq::empty(),
        Some(ns) => if has_double_colon(name) { Seq::empty() } else { candidates_within(name, ns) },
    }
}

/// `last_double_colon` lies within the string.
proof fn lemma_last_double_colon_range(s: Seq<char>)
    ensures
        last_double_colon(s) matches Some(i) ==> 0 <= i && i + 2 <= s.len(),
    decreases s.len(),
{
    if s.len() >= 2 && !(s[s.len() - 2] == ':' && s[s.len() - 1] == ':') {
        lemma_last_double_colon_range(s.drop_last());
    }
}

/// Qualified candidates for an unqualified `name` seen inside `namespace`,
/// walking up the nesting chain: in `A::B`, `c` is tried as `A::B::c` then
/// `A::c` (then the caller falls through to global). Empty when there's no
/// home namespace or the name is already qualified.
pub fn sibling_candidates(name: &str, namespace: Option<&str>) -> (r: Vec<String>)
    ensures
        r@.map_values(|s: String| s@) == sibling_candidates_of(name@, match namespace {
            Some(n) => Some(n@),
            None => None,
        }),
{
    let ns = match namespace {
        None => return Vec::new(),
        Some(n) => n,
    };
    if contains_double_colon(name) {
        return Vec::new();
    }
    let chars = chars_of(ns);
    let mut end = chars.len();
    let mut candidates: Vec<String> = Vec::new();
    proof {
        assert(chars@.take(end as int) =~= ns@);
        assert(candidates@.map_values(|s: String| s@) =~= Seq::<Seq<char>>::empty());
    }
    loop
        invariant
            end <= chars@.len(),
            chars@ == ns@,
            namespace == Some(ns),
            !has_double_colon(name@),
            candidates@.map_values(|s: String| s@) + candidates_within(name@, chars@.take(end as int))
                =~= candidates_within(name@, ns@),
        decreases end,
    {
        let ghost prefix = chars@.take(end as int);
        let mut candidate = string_of(&chars, 0, end);
        candidate.append("::");
        candidate.append(name);
        proof {
            assert(candidate@ =~= prefix + "::"@ + name@);
        }
        let ghost before = candidates@;
        candidates.push(candidate);
        proof {
            assert(candidates@.map_values(|s: String| s@) =~= before.map_values(|s: String| s@).push(
                prefix + "::"@ + name@));
            lemma_last_double_colon_range(prefix);
        }
        let prefix_chars = chars_of_prefix(&chars, end);
        match find_last_double_colon(&prefix_chars) {
            None => {
                proof {
                    assert(prefix_chars@ == prefix);
                    assert(last_double_colon(prefix) is None);
                    assert(candidates_within(name@, prefix) == seq![prefix + "::"@ + name@]);
                    assert(before.map_values(|s: String| s@) + candidates_within(name@, prefix) =~= candidates_within(name@, ns@));
                    assert(candidates@.map_values(|s: String| s@) =~= candidates_within(name@, ns@));
                }
                return candidates;
            }
            Some(separator) => {
                proof {
                    assert(prefix.take(separator as int) =~= chars@.take(separator as int));
                    assert(candidates_within(name@, prefix) == seq![prefix + "::"@ + name@]
                        + candidates_within(name@, prefix.take(separator as int)));
                }
                end = separator;
            }
        }
    }
}

/// The first `end` characters, as their own vector.
fn chars_of_prefix(chars: &Vec<char>, end: usize) -> (r: Vec<char>)
    requires
        end <= chars@.len(),
    ensures
        r@ == chars@.take(end as int),
{
    let mut out: Vec<char> = Vec::new();
    let mut i: usize = 0;
    while i < end
        invariant
            i <= end <= chars@.len(),
            out@ == chars@.take(i as int),
        decreases end - i,
    {
        out.push(chars[i]);
        proof {
            assert(chars@.take(i + 1) =~= chars@.take(i as int).push(chars@[i as int]));
        }
        i += 1;
    }
    out
}

/// The binary operator a symbol names.
pub open spec fn binary_operator_of(name: Seq<char>) -> Option<BinaryOperator> {
    if name == "+"@ {
        Some(BinaryOperator::Add)
    } else if name == "-"@ {
        Some(BinaryOperator::Subtract)
    } else if name == "*"@ {
        Some(BinaryOperator::Multiply)
    } else if name == "/"@ {
        Some(BinaryOperator::Divide)
    } else if name == "%"@ {
        Some(BinaryOperator::Modulo)
    } else if name == "^"@ {
        Some(BinaryOperator::Power)
    } else {
        None
    }
}

/// A binary operator by its symbol: the operator-overload definition check.
pub fn binary_operator_named(name: &str) -> (r: Option<BinaryOperator>)
    ensures
        r == binary_operator_of(name@),
{
    if str_equal(name, "+") {
        Some(BinaryOperator::Add)
    } else if str_equal(name, "-") {
        Some(BinaryOperator::Subtract)
    } else if str_equal(name, "*") {
        Some(BinaryOperator::Multiply)
    } else if str_equal(name, "/") {
        Some(BinaryOperator::Divide)
    } else if str_equal(name, "%") {
        Some(BinaryOperator::Modulo)
    } else if str_equal(name, "^") {
        Some(BinaryOperator::Power)
    } else {
        None
    }
}

} // verus!
