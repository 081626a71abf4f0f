//! The reference window's data model. Built-in functions document
//! themselves (their entries come from the function registry); special
//! forms, operators and constants are curated here.

use vstd::prelude::*;
use crate::calculator::{FunctionDoc, DocModel, doc_views};
use crate::eval::registry::{FunctionCategory, all_categories, heading_of};
use crate::text::{views_of, lowercase};

verus! {

/// A documented name from its four parts.
pub open spec fn doc_model(name: Seq<char>, signature: Seq<char>, summary: Seq<char>, examples: Seq<Seq<char>>) -> DocModel {
    DocModel { name, signature, summary, examples }
}

/// Builds one documentation entry.
fn doc(name: &str, signature: &str, summary: &str, examples: Vec<&str>) -> (r: FunctionDoc)
    ensures
        r@ == doc_model(name@, signature@, summary@, examples@.map_values(|e: &str| e@)),
{
    let mut owned: Vec<String> = Vec::new();
    let mut i: usize = 0;
    while i < examples.len()
        invariant
            i <= examples@.len(),
            views_of(owned@) =~= examples@.take(i as int).map_values(|e: &str| e@),
        decreases examples@.len() - i,
    {
        owned.push(String::from_str(examples[i]));
        proof {
            assert(examples@.take(i + 1).map_values(|e: &str| e@) =~= examples@.take(i as int).map_values(
                |e: &str| e@).push(examples@[i as int]@));
        }
        i += 1;
    }
    proof {
        assert(examples@.take(i as int) =~= examples@);
    }
    FunctionDoc {
        name: String::from_str(name),
        signature: String::from_str(signature),
        summary: String::from_str(summary),
        examples: owned,
    }
}

/// A titled group of docs, as a mathematical value.
pub struct CategoryModel {
    pub title: Seq<char>,
    pub entries: Seq<DocModel>,
}

/// A titled group of docs, for the reference window.
#[derive(Debug, Clone, PartialEq, Eq)]
pub struct DocCategory {
    pub title: String,
    pub entries: Vec<FunctionDoc>,
}

impl View for DocCategory {
    type V = CategoryModel;

    open spec fn view(&self) -> CategoryModel {
        CategoryModel { title: self.title@, entries: doc_views(self.entries@) }
    }
}

/// The views of a sequence of categories.
pub open spec fn category_views(c: Seq<DocCategory>) -> Seq<CategoryModel> {
    c.map_values(|d: DocCategory| d@)
}

/// The registered functions' docs, each with its category.
pub open spec fn registry_model(registered: Seq<(FunctionCategory, FunctionDoc)>) -> Seq<(FunctionCategory, DocModel)> {
    registered.map_values(|p: (FunctionCategory, FunctionDoc)| (p.0, p.1@))
}

/// The docs registered under `kind`, in registration order.
pub open spec fn docs_in(registered: Seq<(FunctionCategory, DocModel)>, kind: FunctionCategory) -> Seq<DocModel>
    decreases registered.len(),
{
    if registered.len() == 0 {
        Seq::empty()
    } else {
        let rest = docs_in(registered.drop_last(), kind);
        if registered.last().0 == kind { rest.push(registered.last().1) } else { rest }
    }
}


/// Character-by-character order of two texts (a prefix first), as `String`
/// compares them.
pub open spec fn text_le(a: Seq<char>, b: Seq<char>) -> bool
    decreases a.len(),
{
    if a.len() == 0 {
        true
    } else if b.len() == 0 {
        false
    } else if (a[0] as int) < (b[0] as int) {
        true
    } else if (a[0] as int) > (b[0] as int) {
        false
    } else {
        text_le(a.drop_first(), b.drop_first())
    }
}

/// The key the reference window sorts by: the lowercased name.
pub open spec fn name_key(d: DocModel) -> Seq<char> {
    lowercase(d.name)
}

/// Inserts `d` after every entry whose key is at most its own: the step of
/// a stable sort by key.
pub open spec fn insert_by_name(s: Seq<DocModel>, d: DocModel) -> Seq<DocModel>
    decreases s.len(),
{
    if s.len() == 0 {
        seq![d]
    } else if text_le(name_key(s.last()), name_key(d)) {
        s.push(d)
    } else {
        insert_by_name(s.drop_last(), d).push(s.last())
    }
}

/// The docs stably sorted by lowercased name.
pub open spec fn sorted_by_name(s: Seq<DocModel>) -> Seq<DocModel>
    decreases s.len(),
{
    if s.len() == 0 {
        Seq::empty()
    } else {
        insert_by_name(sorted_by_name(s.drop_last()), s.last())
    }
}

/// Inserting where the backward scan stops puts `d` at that position.
proof fn lemma_insert_at(s: Seq<DocModel>, d: DocModel, p: int)
    requires
        0 <= p <= s.len(),
        p == 0 || text_le(name_key(s[p - 1]), name_key(d)),
        forall|j: int| p <= j < s.len() ==> !text_le(#[trigger] name_key(s[j]), name_key(d)),
    ensures
        insert_by_name(s, d) == s.insert(p, d),
    decreases s.len(),
{
    if s.len() == 0 {
        assert(s.insert(p, d) =~= seq![d]);
    } else if p == s.len() {
        assert(s.insert(p, d) =~= s.push(d));
    } else {
        lemma_insert_at(s.drop_last(), d, p);
        assert(s.insert(p, d) =~= s.drop_last().insert(p, d).push(s.last()));
    }
}

/// `text_le` read from position `i` on, once the texts agree before it.
proof fn lemma_text_le_skip(a: Seq<char>, b: Seq<char>, i: int)
    requires
        0 <= i <= a.len(),
        i <= b.len(),
        a.take(i) == b.take(i),
    ensures
        text_le(a, b) == text_le(a.skip(i), b.skip(i)),
    decreases i,
{
    if i > 0 {
        assert(a[0] == a.take(i)[0]);
        assert(b[0] == b.take(i)[0]);
        assert(a.drop_first().take(i - 1) =~= a.take(i).drop_first());
        assert(b.drop_first().take(i - 1) =~= b.take(i).drop_first());
        lemma_text_le_skip(a.drop_first(), b.drop_first(), i - 1);
        assert(a.drop_first().skip(i - 1) =~= a.skip(i));
        assert(b.drop_first().skip(i - 1) =~= b.skip(i));
    } else {
        assert(a.skip(0) =~= a);
        assert(b.skip(0) =~= b);
    }
}

/// Is `a` at most `b`, character by character?
fn chars_le(a: &Vec<char>, b: &Vec<char>) -> (r: bool)
    ensures
        r == text_le(a@, b@),
{
    let mut i: usize = 0;
    while i < a.len() && i < b.len()
        invariant
            i <= a@.len(),
            i <= b@.len(),
            a@.take(i as int) == b@.take(i as int),
        decreases a@.len() - i,
    {
        let x = crate::text::char_code(a[i]);
        let y = crate::text::char_code(b[i]);
        if x != y {
            proof {
                lemma_text_le_skip(a@, b@, i as int);
                assert(a@.skip(i as int)[0] == a@[i as int]);
                assert(b@.skip(i as int)[0] == b@[i as int]);
            }
            return x < y;
        }
        proof {
            assert(a@.take(i + 1) =~= a@.take(i as int).push(a@[i as int]));
            assert(b@.take(i + 1) =~= b@.take(i as int).push(b@[i as int]));
        }
        i += 1;
    }
    proof {
        lemma_text_le_skip(a@, b@, i as int);
    }
    i == a.len()
}

/// Sorts docs stably by lowercased name, as the registry lists them.
fn sort_by_name(entries: &Vec<FunctionDoc>) -> (r: Vec<FunctionDoc>)
    ensures
        doc_views(r@) == sorted_by_name(doc_views(entries@)),
{
    let mut out: Vec<FunctionDoc> = Vec::new();
    let mut keys: Vec<Vec<char>> = Vec::new();
    let mut i: usize = 0;
    while i < entries.len()
        invariant
            i <= entries@.len(),
            keys@.len() == out@.len(),
            forall|j: int| 0 <= j < keys@.len() ==> (#[trigger] keys@[j])@ == name_key(out@[j]@),
            doc_views(out@) == sorted_by_name(doc_views(entries@.take(i as int))),
        decreases entries@.len() - i,
    {
        let d = entries[i].copy();
        let lowered = crate::text::to_lowercase(d.name.as_str());
        let key = crate::text::chars_of(lowered.as_str());
        let mut p = out.len();
        while p > 0
            invariant
                p <= out@.len(),
                keys@.len() == out@.len(),
                forall|j: int| 0 <= j < keys@.len() ==> (#[trigger] keys@[j])@ == name_key(out@[j]@),
                key@ == name_key(d@),
                forall|j: int| p <= j < out@.len() ==> !text_le(#[trigger] name_key(out@[j]@), name_key(d@)),
            ensures
                p <= out@.len(),
                forall|j: int| p <= j < out@.len() ==> !text_le(#[trigger] name_key(out@[j]@), name_key(d@)),
                p == 0 || text_le(name_key(out@[p - 1]@), name_key(d@)),
            decreases p,
        {
            if chars_le(&keys[p - 1], &key) {
                break;
            }
            p -= 1;
        }
        proof {
            let s = doc_views(out@);
            assert forall|j: int| p <= j < s.len() implies !text_le(#[trigger] name_key(s[j]), name_key(d@)) by {
                assert(s[j] == out@[j]@);
            }
            if p > 0 {
                assert(s[p - 1] == out@[p - 1]@);
            }
            lemma_insert_at(s, d@, p as int);
            assert(doc_views(entries@.take(i + 1)).drop_last() =~= doc_views(entries@.take(i as int)));
            assert(doc_views(entries@.take(i + 1)).last() == entries@[i as int]@);
        }
        let ghost before = out@;
        let ghost keys_before = keys@;
        out.insert(p, d);
        keys.insert(p, key);
        proof {
            assert(doc_views(out@) =~= doc_views(before).insert(p as int, out@[p as int]@));
            assert forall|j: int| 0 <= j < keys@.len() implies (#[trigger] keys@[j])@ == name_key(out@[j]@) by {
                if j < p {
                    assert(keys@[j] == keys_before[j]);
                    assert(out@[j] == before[j]);
                } else if j > p {
                    assert(keys@[j] == keys_before[j - 1]);
                    assert(out@[j] == before[j - 1]);
                }
            }
        }
        i += 1;
    }
    proof {
        assert(entries@.take(i as int) =~= entries@);
    }
    out
}

/// Sorting keeps the number of entries.
proof fn lemma_sorted_len(s: Seq<DocModel>)
    ensures
        sorted_by_name(s).len() == s.len(),
    decreases s.len(),
{
    if s.len() > 0 {
        lemma_sorted_len(s.drop_last());
        lemma_insert_len(sorted_by_name(s.drop_last()), s.last());
    }
}

/// Inserting adds one entry.
proof fn lemma_insert_len(s: Seq<DocModel>, d: DocModel)
    ensures
        insert_by_name(s, d).len() == s.len() + 1,
    decreases s.len(),
{
    if s.len() > 0 && !text_le(name_key(s.last()), name_key(d)) {
        lemma_insert_len(s.drop_last(), d);
    }
}

/// The registry's pages for the first `k` categories: one page per category
/// that has entries, titled by its heading.
pub open spec fn registry_pages(registered: Seq<(FunctionCategory, DocModel)>, k: int) -> Seq<CategoryModel>
    decreases k,
{
    if k <= 0 {
        Seq::empty()
    } else {
        let kind = all_categories()[k - 1];
        let entries = sorted_by_name(docs_in(registered, kind));
        let before = registry_pages(registered, k - 1);
        if entries.len() > 0 {
            before.push(CategoryModel { title: heading_of(kind), entries })
        } else {
            before
        }
    }
}

/// Every page of the reference window: Special Forms first, then each
/// registry category that has entries, then Operators & Syntax and
/// Constants.
pub open spec fn documentation_pages(registered: Seq<(FunctionCategory, DocModel)>) -> Seq<CategoryModel> {
    seq![CategoryModel { title: "Special Forms"@, entries: special_form_docs() }] + registry_pages(registered, 10)
        + seq![
        CategoryModel { title: "Operators & Syntax"@, entries: operator_docs() },
        CategoryModel { title: "Constants"@, entries: constant_docs() },
    ]
}

/// Every category shown in the reference window, given the registered
/// built-ins' docs: Special Forms first, then each registry category that
/// has entries, then the curated Operators & Syntax and Constants pages.
pub fn builtin_documentation(registered: &Vec<(FunctionCategory, FunctionDoc)>) -> (r: Vec<DocCategory>)
    ensures
        category_views(r@) == documentation_pages(registry_model(registered@)),
{
    let ghost reg = registry_model(registered@);
    let mut categories: Vec<DocCategory> = Vec::new();
    categories.push(DocCategory { title: String::from_str("Special Forms"), entries: special_forms() });
    let kinds = FunctionCategory::all();
    let mut k: usize = 0;
    while k < 10
        invariant
            k <= 10,
            reg == registry_model(registered@),
            kinds@ == all_categories(),
            category_views(categories@) =~= seq![CategoryModel { title: "Special Forms"@, entries: special_form_docs() }]
                + registry_pages(reg, k as int),
        decreases 10 - k,
    {
        let kind = kinds[k];
        let mut entries: Vec<FunctionDoc> = Vec::new();
        let mut i: usize = 0;
        while i < registered.len()
            invariant
                i <= registered@.len(),
                reg == registry_model(registered@),
                doc_views(entries@) =~= docs_in(reg.take(i as int), kind),
            decreases registered@.len() - i,
        {
            proof {
                assert(reg.take(i + 1).drop_last() =~= reg.take(i as int));
                assert(reg.take(i + 1).last() == (registered@[i as int].0, registered@[i as int].1@));
            }
            if registered[i].0 == kind {
                let ghost before = entries@;
                entries.push(registered[i].1.copy());
                proof {
                    assert(doc_views(entries@) =~= doc_views(before).push(entries@.last()@));
                }
            }
            i += 1;
        }
        proof {
            assert(reg.take(i as int) =~= reg);
        }
        let ghost unsorted = doc_views(entries@);
        let entries = sort_by_name(&entries);
        proof {
            lemma_sorted_len(unsorted);
        }
        if entries.len() > 0 {
            let ghost before = categories@;
            categories.push(DocCategory { title: String::from_str(kind.heading()), entries });
            proof {
                assert(category_views(categories@) =~= category_views(before).push(categories@.last()@));
            }
        }
        k += 1;
    }
    let ghost before = categories@;
    categories.push(DocCategory { title: String::from_str("Operators & Syntax"), entries: operators() });
    categories.push(DocCategory { title: String::from_str("Constants"), entries: constants() });
    proof {
        assert(category_views(categories@) =~= category_views(before).push(categories@[categories@.len() - 2]@).push(
            categories@.last()@));
    }
    categories
}

/// The curated special forms: `if` and the two binding reductions.
pub open spec fn special_form_docs() -> Seq<DocModel> {
    seq![
        doc_model("if"@, "if(condition, then, else)"@,
            "Returns `then` when the condition is nonzero, otherwise `else`. Only the taken branch is evaluated, so the other may divide by zero — or recurse: fact(n) = if(n <= 1, 1, n * fact(n - 1))."@,
            seq!["if(1 < 2, 10, 20)"@, "if(0, 1/0, 7)"@]),
        doc_model("sigma"@, "∑_i=1^10(term)   ·   ∑(x, y, …)"@,
            "Summation. The subscript form re-evaluates the term with the index bound to each integer (type sigma_i=1^10(…) if ∑ is out of reach; compound bounds need parens: ∑_i=(n-1)^10(…)). A plain ∑(…) call simply sums its arguments."@,
            seq!["∑_i=1^10(i^2)"@, "∑(1, 2, 3)"@]),
        doc_model("productForm"@, "∏_i=1^5(term)   ·   ∏(x, y, …)"@,
            "Product — ∑'s multiplicative sibling (type product_i=1^5(…)). ∏_i=1^n(i) is an exact factorial; ∏_i=1^n(1 + r) is compound growth."@,
            seq!["∏_i=1^5(i)"@, "∏(2, 3, 4)"@]),
    ]
}

/// The curated special forms: `if` and the two binding reductions.
pub fn special_forms() -> (r: Vec<FunctionDoc>)
    ensures
        doc_views(r@) == special_form_docs(),
{
    let r = vec![
        doc("if", "if(condition, then, else)",
            "Returns `then` when the condition is nonzero, otherwise `else`. Only the taken branch is evaluated, so the other may divide by zero — or recurse: fact(n) = if(n <= 1, 1, n * fact(n - 1)).",
            vec!["if(1 < 2, 10, 20)", "if(0, 1/0, 7)"]),
        doc("sigma", "∑_i=1^10(term)   ·   ∑(x, y, …)",
            "Summation. The subscript form re-evaluates the term with the index bound to each integer (type sigma_i=1^10(…) if ∑ is out of reach; compound bounds need parens: ∑_i=(n-1)^10(…)). A plain ∑(…) call simply sums its arguments.",
            vec!["∑_i=1^10(i^2)", "∑(1, 2, 3)"]),
        doc("productForm", "∏_i=1^5(term)   ·   ∏(x, y, …)",
            "Product — ∑'s multiplicative sibling (type product_i=1^5(…)). ∏_i=1^n(i) is an exact factorial; ∏_i=1^n(1 + r) is compound growth.",
            vec!["∏_i=1^5(i)", "∏(2, 3, 4)"]),
    ];
    proof {
        assert(doc_views(r@) =~~= special_form_docs());
    }
    r
}

/// The curated Operators & Syntax page.
pub open spec fn operator_docs() -> Seq<DocModel> {
    seq![
        doc_model("arithmetic"@, "+  −  ×(*)  ÷(/)  ^  %"@,
            "Exact decimal arithmetic — 0.1 + 0.2 is exactly 0.3. ^ is power (right-associative); postfix % is percent (3% → 0.03), and mod(x, y) is modulo. Typographic × ÷ − · paste fine. Implicit multiplication works: 2(3 + 4), 2x, 2π. In Programmer mode ^ and % — plus & | << >> ~ — read as bitwise/modulo instead; see man modes."@,
            seq!["0.1 + 0.2"@, "2^10"@, "3%"@, "2π"@]),
        doc_model("comparisons"@, "<  >  <=  >=  ==  !=   (≤ ≥ ≠)"@,
            "Comparisons return 1 (true) or 0 (false) — feed them to if(). They can't chain; use and(a < b, b < c)."@,
            seq!["2 < 3"@, "0.1 + 0.2 == 0.3"@]),
        doc_model("assignment"@, "x = expr   ·   f(a, b) = expr"@,
            "Variables and custom functions. Functions compose and may recurse (via if); parameters shadow globals; built-in names are protected. Both are saved in workbooks."@,
            seq!["x = 12 * 80.5"@, "double(n) = n * 2"@]),
        doc_model("cells"@, "A:1   ·   A:1..B:9"@,
            "Grid references — column letter, colon, 1-based row — usable in cells AND the calculation log. Ranges (rectangles allowed) expand inside functions; empty and text cells are skipped."@,
            seq!["sum(A:1..B:3)"@, "count(A:1..A:9)"@]),
        doc_model("sqrtSign"@, "√x"@,
            "Prefix square root — binds like unary minus, so √2^2 = √(2²) = 2."@,
            seq!["√16"@, "√(2 + 2)"@]),
        doc_model("degrees"@, "x°"@,
            "Postfix degrees→radians: x° is x × π/180 (π at the engine's 50-digit precision), so sin(90°) = 1. Works in every mode, chains like % (A:1°, (a + b)°). The trig functions themselves always take radians — ° is how you hand them degrees."@,
            seq!["sin(90°)"@, "cos(180°)"@, "90° == pi / 2"@]),
        doc_model("strings"@, "\"text\"   ·   +"@,
            "Double-quoted string values (escapes: \\\" \\\\ \\n \\t). + concatenates as soon as either side is a string; == compares. In a cell, a formula that returns a string displays as text."@,
            seq!["\"Q\" + 1"@, "greeting = \"hello\""@]),
        doc_model("arrays"@, "[a, b, …]   ·   arr[0]"@,
            "Array values — elements are any expressions and nest freely. Indexing is 0-based. Numeric functions accept arrays like ranges: sum(arr), max(arr). Arrays live in the log and in formulas; a cell can't display one."@,
            seq!["[1, 2, 3][0]"@, "sum([1, 2, 3])"@, "len([[1, 2], [3]])"@]),
        doc_model("maps"@, "{key: value, …}   ·   m.key   ·   m[\"key\"]"@,
            "Maps hold named values, nest with arrays, and read via .key or [\"key\"] (keys are case-sensitive). Build records: person = {name: \"Ada\", age: 36}."@,
            seq!["{name: \"Ada\", age: 36}.age"@, "{a: 1, b: 2}[\"b\"]"@]),
        doc_model("data types"@, "data Person { name: String, age: Number, active: Boolean }"@,
            "Declares a typed record (fields: Number, String, Boolean). Construct with named fields or from a map — never positionally. Instances read like maps (p.name), collect into arrays, and work with map/filter/reduce; toJson() keeps Boolean fields honest. In a cell, a plain declaration makes a sheet-scoped 𝑫 type."@,
            seq!["data Pt { x: Number, y: Number }"@, "p = Pt(x: 3, y: 4)"@, "sqrt(p.x^2 + p.y^2)"@]),
        doc_model("lambdas"@, "x -> expr   ·   (a, b) -> expr"@,
            "Anonymous functions, for map/filter/reduce — or assign one: f = x -> x * 2, then f(3). A bare function name is a value too: map(sqrt, arr). Lambdas close over function parameters by value."@,
            seq!["map(x -> x ^ 2, [1, 2, 3])"@, "double = x -> x * 2"@]),
        doc_model("modes"@, ":mode normal · programmer · scientific [eng]"@,
            "Input/display DIALECTS for the calculation log. Normal (default): ^ is power, postfix % is percent, and bit ops are functions (bitAnd, bitOr, bitXor, bitShift, bitNot). Programmer: ^ is XOR, & AND, | OR, << >> shifts, % modulo, ~ NOT (Python precedence; power becomes pow). Scientific: the grammar is Normal's, but a plain numeric result ECHOES in scientific notation (123456 * 2 → 2.46912e5) — or engineering notation via :mode scientific eng (246.912e3, exponent a multiple of 3); Money and grouped numbers keep their own display. A dialect only changes which glyphs you type and read — the stored formula is always canonical, so it never means two things. Currency ($10) and thousands grouping (138,561) are CORE grammar, in every mode. SWITCH: Settings → Mode (⌘,) or the input-bar mode icon, or type :mode programmer (or scientific / normal) — the :mode command works in both the app log and the CLI. Grid cells are always Normal."@,
            seq!["5 ^ 3"@, "pow(2, 10)"@, "bitAnd(12, 10)"@]),
    ]
}

/// The curated Operators & Syntax page.
pub fn operators() -> (r: Vec<FunctionDoc>)
    ensures
        doc_views(r@) == operator_docs(),
{
    let r = vec![
        doc("arithmetic", "+  −  ×(*)  ÷(/)  ^  %",
            "Exact decimal arithmetic — 0.1 + 0.2 is exactly 0.3. ^ is power (right-associative); postfix % is percent (3% → 0.03), and mod(x, y) is modulo. Typographic × ÷ − · paste fine. Implicit multiplication works: 2(3 + 4), 2x, 2π. In Programmer mode ^ and % — plus & | << >> ~ — read as bitwise/modulo instead; see man modes.",
            vec!["0.1 + 0.2", "2^10", "3%", "2π"]),
        doc("comparisons", "<  >  <=  >=  ==  !=   (≤ ≥ ≠)",
            "Comparisons return 1 (true) or 0 (false) — feed them to if(). They can't chain; use and(a < b, b < c).",
            vec!["2 < 3", "0.1 + 0.2 == 0.3"]),
        doc("assignment", "x = expr   ·   f(a, b) = expr",
            "Variables and custom functions. Functions compose and may recurse (via if); parameters shadow globals; built-in names are protected. Both are saved in workbooks.",
            vec!["x = 12 * 80.5", "double(n) = n * 2"]),
        doc("cells", "A:1   ·   A:1..B:9",
            "Grid references — column letter, colon, 1-based row — usable in cells AND the calculation log. Ranges (rectangles allowed) expand inside functions; empty and text cells are skipped.",
            vec!["sum(A:1..B:3)", "count(A:1..A:9)"]),
        doc("sqrtSign", "√x",
            "Prefix square root — binds like unary minus, so √2^2 = √(2²) = 2.",
            vec!["√16", "√(2 + 2)"]),
        doc("degrees", "x°",
            "Postfix degrees→radians: x° is x × π/180 (π at the engine's 50-digit precision), so sin(90°) = 1. Works in every mode, chains like % (A:1°, (a + b)°). The trig functions themselves always take radians — ° is how you hand them degrees.",
            vec!["sin(90°)", "cos(180°)", "90° == pi / 2"]),
        doc("strings", "\"text\"   ·   +",
            "Double-quoted string values (escapes: \\\" \\\\ \\n \\t). + concatenates as soon as either side is a string; == compares. In a cell, a formula that returns a string displays as text.",
            vec!["\"Q\" + 1", "greeting = \"hello\""]),
        doc("arrays", "[a, b, …]   ·   arr[0]",
            "Array values — elements are any expressions and nest freely. Indexing is 0-based. Numeric functions accept arrays like ranges: sum(arr), max(arr). Arrays live in the log and in formulas; a cell can't display one.",
            vec!["[1, 2, 3][0]", "sum([1, 2, 3])", "len([[1, 2], [3]])"]),
        doc("maps", "{key: value, …}   ·   m.key   ·   m[\"key\"]",
            "Maps hold named values, nest with arrays, and read via .key or [\"key\"] (keys are case-sensitive). Build records: person = {name: \"Ada\", age: 36}.",
            vec!["{name: \"Ada\", age: 36}.age", "{a: 1, b: 2}[\"b\"]"]),
        doc("data types", "data Person { name: String, age: Number, active: Boolean }",
            "Declares a typed record (fields: Number, String, Boolean). Construct with named fields or from a map — never positionally. Instances read like maps (p.name), collect into arrays, and work with map/filter/reduce; toJson() keeps Boolean fields honest. In a cell, a plain declaration makes a sheet-scoped 𝑫 type.",
            vec!["data Pt { x: Number, y: Number }", "p = Pt(x: 3, y: 4)", "sqrt(p.x^2 + p.y^2)"]),
        doc("lambdas", "x -> expr   ·   (a, b) -> expr",
            "Anonymous functions, for map/filter/reduce — or assign one: f = x -> x * 2, then f(3). A bare function name is a value too: map(sqrt, arr). Lambdas close over function parameters by value.",
            vec!["map(x -> x ^ 2, [1, 2, 3])", "double = x -> x * 2"]),
        doc("modes", ":mode normal · programmer · scientific [eng]",
            "Input/display DIALECTS for the calculation log. Normal (default): ^ is power, postfix % is percent, and bit ops are functions (bitAnd, bitOr, bitXor, bitShift, bitNot). Programmer: ^ is XOR, & AND, | OR, << >> shifts, % modulo, ~ NOT (Python precedence; power becomes pow). Scientific: the grammar is Normal's, but a plain numeric result ECHOES in scientific notation (123456 * 2 → 2.46912e5) — or engineering notation via :mode scientific eng (246.912e3, exponent a multiple of 3); Money and grouped numbers keep their own display. A dialect only changes which glyphs you type and read — the stored formula is always canonical, so it never means two things. Currency ($10) and thousands grouping (138,561) are CORE grammar, in every mode. SWITCH: Settings → Mode (⌘,) or the input-bar mode icon, or type :mode programmer (or scientific / normal) — the :mode command works in both the app log and the CLI. Grid cells are always Normal.",
            vec!["5 ^ 3", "pow(2, 10)", "bitAnd(12, 10)"]),
    ];
    proof {
        assert(doc_views(r@) =~~= operator_docs());
    }
    r
}

/// The curated Constants page.
pub open spec fn constant_docs() -> Seq<DocModel> {
    seq![
        doc_model("pi"@, "pi · π"@,
            "The circle constant, to 60 digits."@,
            seq!["2π"@, "sin(pi / 2)"@]),
        doc_model("tau"@, "tau · τ"@,
            "2π."@,
            seq!["τ ÷ π"@]),
        doc_model("e"@, "e"@,
            "Euler's number, to 60 digits."@,
            seq!["ln(e)"@]),
        doc_model("ans"@, "ans"@,
            "The result of the previous calculation in the log."@,
            seq!["1 + 1"@, "ans * 2"@]),
        doc_model("true"@, "true · false"@,
            "1 and 0 — the engine's truth values, matching what comparisons return."@,
            seq!["if(true, 10, 20)"@, "true == 1"@]),
        doc_model("Json"@, "Json.Pretty · Json.Compact"@,
            "Formatting options for toJson() — named constants instead of a magic flag. Pretty is the default; Json.Compact packs to one line. They're plain string values (\"pretty\" / \"compact\") carried in a constant map."@,
            seq!["toJson({a: 1}, Json.Compact)"@, "Json.Pretty"@]),
        doc_model("Rounding"@, "Rounding.Bankers · Rounding.HalfUp"@,
            "Rounding modes for Decimal() — Bankers (round half to even, the default and the engine's standard) or HalfUp (round half away from zero). Named constants like Json; plain string values in a constant map."@,
            seq!["Decimal(1.005, 5, 2, Rounding.HalfUp)"@, "Rounding.Bankers"@]),
    ]
}

/// The curated Constants page.
pub fn constants() -> (r: Vec<FunctionDoc>)
    ensures
        doc_views(r@) == constant_docs(),
{
    let r = vec![
        doc("pi", "pi · π",
            "The circle constant, to 60 digits.",
            vec!["2π", "sin(pi / 2)"]),
        doc("tau", "tau · τ",
            "2π.",
            vec!["τ ÷ π"]),
        doc("e", "e",
            "Euler's number, to 60 digits.",
            vec!["ln(e)"]),
        doc("ans", "ans",
            "The result of the previous calculation in the log.",
            vec!["1 + 1", "ans * 2"]),
        doc("true", "true · false",
            "1 and 0 — the engine's truth values, matching what comparisons return.",
            vec!["if(true, 10, 20)", "true == 1"]),
        doc("Json", "Json.Pretty · Json.Compact",
            "Formatting options for toJson() — named constants instead of a magic flag. Pretty is the default; Json.Compact packs to one line. They're plain string values (\"pretty\" / \"compact\") carried in a constant map.",
            vec!["toJson({a: 1}, Json.Compact)", "Json.Pretty"]),
        doc("Rounding", "Rounding.Bankers · Rounding.HalfUp",
            "Rounding modes for Decimal() — Bankers (round half to even, the default and the engine's standard) or HalfUp (round half away from zero). Named constants like Json; plain string values in a constant map.",
            vec!["Decimal(1.005, 5, 2, Rounding.HalfUp)", "Rounding.Bankers"]),
    ];
    proof {
        assert(doc_views(r@) =~~= constant_docs());
    }
    r
}

} // verus!
