//! What an expression evaluates to. Numbers are the historical core;
//! strings, arrays and maps arrived with structure support. Values are
//! immutable (there is no element assignment, only whole-variable
//! rebinding) and they nest freely (arrays of maps of arrays…).
//!
//! The canonical description re-parses to an equal value, which is how
//! structured variables persist in workbooks.

use vstd::prelude::*;
use crate::ast::Expression;
use crate::ast::{MapLiteralEntry};
use crate::ast::tree::{Tree, tree_of, trees_of, entry_trees_of, lemma_trees_index, lemma_entry_trees_index};
use crate::lexer::{TokenKind, LexedKind, lex, line_fits};
use crate::lexer::grammar::Lexed;
use crate::parser::Parser;
use crate::parser::grammar::{Parse, parsed};
use crate::text::lowercase;
use crate::ast::source::{renderable, source_of, quoted_text, key_text, quoted, key_literal};
use crate::error::EngineError;
use crate::eval::fixed_decimal::{FixedDecimal, description_of, fixed_text_of};
use crate::eval::fixed_int::{FixedInt, fixed_type_name, fixed_description};
use crate::mode::LanguageMode;
use crate::number::{BigDecimal, canonical};
use crate::number::format::{formatted_text, formatted_fits};
use crate::text::{int_text, views_of, joined_with, join, push_char};

verus! {

/// What the value layer reads of a host object (a workbook, a worksheet, a
/// log entry): its type name and its description. The host keeps the
/// object itself and answers navigation; here it is a read-only snapshot.
#[derive(Debug, Clone, PartialEq, Eq)]
pub struct HostHandle {
    pub type_label: String,
    pub description: String,
}

impl HostHandle {
    pub fn new(type_label: String, description: String) -> (r: Self)
        ensures
            r.type_label@ == type_label@,
            r.description@ == description@,
    {
        HostHandle { type_label, description }
    }
}

/// A value.
#[derive(Debug)]
pub enum Value {
    Number(BigDecimal),
    String(String),
    Array(Vec<Value>),
    /// Insertion-ordered key/value pairs. Keys are unique (the parser
    /// rejects duplicates) and case-sensitive, like variables.
    Dictionary(Vec<MapEntry>),
    /// A function as a value: a bare name (`map(double, arr)`) or a lambda
    /// (`map(x -> x * 2, arr)`).
    Function(FunctionValue),
    /// An instance of a user-declared `data` type: map-shaped, but tagged
    /// with its type and canonicalized to declaration order.
    Record(RecordValue),
    /// A bounded, checked integer (`Int32(v)`, `UInt8(v)`).
    FixedInt(FixedInt),
    /// A bounded, checked fixed-precision decimal (`Decimal(v, p, s)`).
    FixedDecimal(FixedDecimal),
    /// A host-implemented handle.
    Host(HostHandle),
}

/// One key/value pair of a map or a record.
#[derive(Debug)]
pub struct MapEntry {
    pub key: String,
    pub value: Value,
}

impl MapEntry {
    pub fn new(key: String, value: Value) -> (r: Self)
        ensures
            r.key@ == key@,
            r.value == value,
    {
        MapEntry { key, value }
    }
}

/// The payload of a record: the declaring type's name, the field values in
/// declaration order, and the fields declared Boolean (held as 1/0,
/// rendered as true/false).
#[derive(Debug)]
pub struct RecordValue {
    pub type_label: String,
    pub entries: Vec<MapEntry>,
    pub boolean_fields: Vec<String>,
}

/// A callable value. Bare names stay symbolic (re-resolved at call time);
/// lambdas carry their tree plus captured locals.
#[derive(Debug)]
pub struct FunctionValue {
    pub kind: FunctionValueKind,
    /// Locals visible where a lambda was created (closure by value). Always
    /// empty for named references.
    pub captures: Vec<(String, Value)>,
}

/// What a function value calls.
#[derive(Debug)]
pub enum FunctionValueKind {
    /// A registry builtin, by name.
    Builtin(String),
    /// A user-defined function, by name.
    User(String),
    /// `x -> x * 2`: parameters and body.
    Lambda { parameters: Vec<String>, body: Expression },
}

impl FunctionValue {
    pub fn builtin(name: String) -> (r: Self)
        ensures
            r.kind matches FunctionValueKind::Builtin(n) && n@ == name@,
            r.captures@.len() == 0,
    {
        FunctionValue { kind: FunctionValueKind::Builtin(name), captures: Vec::new() }
    }

    pub fn user(name: String) -> (r: Self)
        ensures
            r.kind matches FunctionValueKind::User(n) && n@ == name@,
            r.captures@.len() == 0,
    {
        FunctionValue { kind: FunctionValueKind::User(name), captures: Vec::new() }
    }

    pub fn lambda(parameters: Vec<String>, body: Expression) -> (r: Self)
        ensures
            r.kind matches FunctionValueKind::Lambda { parameters: p, body: b } && p@ == parameters@ && b == body,
            r.captures@.len() == 0,
    {
        FunctionValue { kind: FunctionValueKind::Lambda { parameters, body }, captures: Vec::new() }
    }

    pub fn lambda_with_captures(parameters: Vec<String>, body: Expression, captures: Vec<(String, Value)>) -> (r: Self)
        ensures
            r.kind matches FunctionValueKind::Lambda { parameters: p, body: b } && p@ == parameters@ && b == body,
            r.captures@ == captures@,
    {
        FunctionValue { kind: FunctionValueKind::Lambda { parameters, body }, captures }
    }
}

/// `a number`, `an array`, `a Person`, …: how a value is named in messages.
pub open spec fn kind_name_of(v: Value) -> Seq<char> {
    match v {
        Value::Number(_) => "a number"@,
        Value::String(_) => "a string"@,
        Value::Array(_) => "an array"@,
        Value::Dictionary(_) => "a map"@,
        Value::Function(_) => "a function"@,
        Value::Record(r) => "a "@ + r.type_label@,
        Value::FixedInt(f) => "a "@ + fixed_type_name(f.bits as int, f.signed),
        Value::FixedDecimal(d) => "a "@ + ("Decimal("@ + int_text(d.precision as int) + ", "@ + int_text(
            d.scale as int,
        ) + seq![')']),
        Value::Host(h) => "a "@ + h.type_label@,
    }
}

/// The number a value reads as outside typed arithmetic, if any.
pub open spec fn number_of(v: Value) -> Option<(int, int)> {
    match v {
        Value::Number(n) => Some(n@),
        Value::FixedInt(f) => Some(canonical(f.value.value(), 0)),
        Value::FixedDecimal(d) => Some(d.value@),
        _ => None,
    }
}

/// The numbers and the fixed values in a value are well formed, at any
/// depth.
pub open spec fn value_wf(v: Value) -> bool
    decreases v,
{
    match v {
        Value::Number(n) => n.wf(),
        Value::Array(items) => items_wf(items@),
        Value::Dictionary(entries) => entries_wf(entries@),
        Value::Record(r) => entries_wf(r.entries@),
        Value::Function(f) => captures_wf(f.captures@),
        Value::FixedInt(f) => f.wf(),
        Value::FixedDecimal(d) => d.wf(),
        _ => true,
    }
}

/// Every value of `s` is well formed.
pub open spec fn items_wf(s: Seq<Value>) -> bool
    decreases s,
{
    if s.len() == 0 { true } else { items_wf(s.drop_last()) && value_wf(s.last()) }
}

/// Every entry value of `s` is well formed.
pub open spec fn entries_wf(s: Seq<MapEntry>) -> bool
    decreases s,
{
    if s.len() == 0 { true } else { entries_wf(s.drop_last()) && value_wf(s.last().value) }
}

/// Every captured value of `s` is well formed.
pub open spec fn captures_wf(s: Seq<(String, Value)>) -> bool
    decreases s,
{
    if s.len() == 0 { true } else { captures_wf(s.drop_last()) && value_wf(s.last().1) }
}

/// Every prefix of a well-formed list is well formed, and so is each item.
pub proof fn lemma_items_wf(s: Seq<Value>, i: int)
    requires
        items_wf(s),
        0 <= i < s.len(),
    ensures
        value_wf(s[i]),
        items_wf(s.take(i)),
    decreases s.len(),
{
    if i < s.len() - 1 {
        lemma_items_wf(s.drop_last(), i);
        assert(s.drop_last().take(i) =~= s.take(i));
    } else {
        assert(s.drop_last() =~= s.take(i));
    }
}

/// Every entry of a well-formed entry list is well formed.
pub proof fn lemma_entries_wf(s: Seq<MapEntry>, i: int)
    requires
        entries_wf(s),
        0 <= i < s.len(),
    ensures
        value_wf(s[i].value),
        entries_wf(s.take(i)),
    decreases s.len(),
{
    if i < s.len() - 1 {
        lemma_entries_wf(s.drop_last(), i);
        assert(s.drop_last().take(i) =~= s.take(i));
    } else {
        assert(s.drop_last() =~= s.take(i));
    }
}

/// The numbers in a value, arrays flattened recursively, or the message
/// for the first value that does not coerce.
pub open spec fn flattened_of(v: Value, function: Seq<char>) -> Result<Seq<(int, int)>, Seq<char>>
    decreases v,
{
    match v {
        Value::Array(items) => items_flattened(items@, function),
        _ => match number_of(v) {
            Some(n) => Ok(seq![n]),
            None => Err(function + "() works on numbers — got "@ + kind_name_of(v)),
        },
    }
}

/// The numbers of a list of values, in order.
pub open spec fn items_flattened(s: Seq<Value>, function: Seq<char>) -> Result<Seq<(int, int)>, Seq<char>>
    decreases s,
{
    if s.len() == 0 {
        Ok(Seq::empty())
    } else {
        match items_flattened(s.drop_last(), function) {
            Err(m) => Err(m),
            Ok(front) => match flattened_of(s.last(), function) {
                Err(m) => Err(m),
                Ok(back) => Ok(front + back),
            },
        }
    }
}

/// The views of a list of numbers.
pub open spec fn decimal_views(s: Seq<BigDecimal>) -> Seq<(int, int)> {
    s.map_values(|d: BigDecimal| d@)
}

/// Every number of the list is well formed.
pub open spec fn decimals_wf(s: Seq<BigDecimal>) -> bool {
    forall|i: int| 0 <= i < s.len() ==> (#[trigger] s[i]).wf()
}

/// The index of the first entry with `key`, if any.
pub open spec fn first_with_key(s: Seq<MapEntry>, key: Seq<char>) -> Option<int>
    decreases s.len(),
{
    if s.len() == 0 {
        None
    } else if s[0].key@ == key {
        Some(0)
    } else {
        match first_with_key(s.drop_first(), key) {
            Some(i) => Some(i + 1),
            None => None,
        }
    }
}

/// The entries a map or a record looks keys up in.
pub open spec fn lookup_entries(v: Value) -> Option<Seq<MapEntry>> {
    match v {
        Value::Dictionary(entries) => Some(entries@),
        Value::Record(r) => Some(r.entries@),
        _ => None,
    }
}

/// Does a host handle occur anywhere in the value?
pub open spec fn has_host(v: Value) -> bool
    decreases v,
{
    match v {
        Value::Host(_) => true,
        Value::Array(items) => any_item_host(items@),
        Value::Dictionary(entries) => any_entry_host(entries@),
        _ => false,
    }
}

/// Does a host handle occur in some item?
pub open spec fn any_item_host(s: Seq<Value>) -> bool
    decreases s,
{
    if s.len() == 0 { false } else { any_item_host(s.drop_last()) || has_host(s.last()) }
}

/// Does a host handle occur in some entry value?
pub open spec fn any_entry_host(s: Seq<MapEntry>) -> bool
    decreases s,
{
    if s.len() == 0 { false } else { any_entry_host(s.drop_last()) || has_host(s.last().value) }
}

/// The index of the first entry with `key` in the entries.
pub(crate) fn find_key(entries: &Vec<MapEntry>, key: &str) -> (r: Option<usize>)
    ensures
        match first_with_key(entries@, key@) {
            Some(i) => r matches Some(j) && j == i && i < entries@.len(),
            None => r is None,
        },
{
    let mut i: usize = 0;
    while i < entries.len()
        invariant
            i <= entries@.len(),
            forall|j: int| 0 <= j < i ==> entries@[j].key@ != key@,
        decreases entries@.len() - i,
    {
        if crate::eval::currency::str_equal(entries[i].key.as_str(), key) {
            proof {
                lemma_first_with_key(entries@, key@, i as int);
            }
            return Some(i);
        }
        i += 1;
    }
    proof {
        lemma_first_with_key(entries@, key@, entries@.len() as int);
    }
    None
}

/// The first entry with `key` is the first index whose key matches.
proof fn lemma_first_with_key(s: Seq<MapEntry>, key: Seq<char>, i: int)
    requires
        0 <= i <= s.len(),
        forall|j: int| 0 <= j < i ==> s[j].key@ != key,
        i < s.len() ==> s[i].key@ == key,
    ensures
        match first_with_key(s, key) {
            Some(k) => k == i && i < s.len(),
            None => i == s.len(),
        },
    decreases s.len(),
{
    if s.len() > 0 && i > 0 {
        assert forall|j: int| 0 <= j < i - 1 implies s.drop_first()[j].key@ != key by {
            assert(s.drop_first()[j] == s[j + 1]);
        }
        lemma_first_with_key(s.drop_first(), key, i - 1);
    }
}

impl Value {
    /// Comparison results and `true`/`false` are numbers (1/0), the
    /// engine's truthiness convention.
    pub fn bool(holds: bool) -> (r: Value)
        ensures
            r matches Value::Number(n) && n.wf() && n@ == (if holds { (1int, 0int) } else { (0int, 0int) }),
    {
        Value::Number(if holds { BigDecimal::one() } else { BigDecimal::zero() })
    }

    /// `a number`, `an array`, …, for error messages.
    pub fn kind_name(&self) -> (r: String)
        ensures
            r@ == kind_name_of(*self),
    {
        match self {
            Value::Number(_) => String::from_str("a number"),
            Value::String(_) => String::from_str("a string"),
            Value::Array(_) => String::from_str("an array"),
            Value::Dictionary(_) => String::from_str("a map"),
            Value::Function(_) => String::from_str("a function"),
            Value::Record(record) => {
                let mut out = String::from_str("a ");
                out.append(record.type_label.as_str());
                out
            },
            Value::FixedInt(f) => {
                let mut out = String::from_str("a ");
                let name = f.type_text();
                out.append(name.as_str());
                out
            },
            Value::FixedDecimal(d) => {
                let mut out = String::from_str("a ");
                let name = d.type_text();
                out.append(name.as_str());
                out
            },
            Value::Host(object) => {
                let mut out = String::from_str("a ");
                out.append(object.type_label.as_str());
                out
            },
        }
    }

    /// True for a record, the trigger for operator-overload lookup.
    pub fn is_record(&self) -> (r: bool)
        ensures
            r == (*self is Record),
    {
        matches!(self, Value::Record(_))
    }

    /// The numeric payload, or a type error naming the context: "expected
    /// a number for ^, got an array". A fixed-width value reads as its
    /// numeric value outside typed arithmetic.
    pub fn as_number(&self, context: &str) -> (r: Result<BigDecimal, EngineError>)
        requires
            value_wf(*self),
        ensures
            match number_of(*self) {
                Some(v) => r matches Ok(n) && n.wf() && n@ == v,
                None => r matches Err(EngineError::DomainError { message }) && message@ == "expected a number for "@
                    + context@ + ", got "@ + kind_name_of(*self),
            },
    {
        match self {
            Value::Number(value) => Ok(value.copy()),
            Value::FixedInt(f) => Ok(f.decimal()),
            Value::FixedDecimal(d) => Ok(d.value.copy()),
            _ => {
                let mut message = String::from_str("expected a number for ");
                message.append(context);
                message.append(", got ");
                let kind = self.kind_name();
                message.append(kind.as_str());
                Err(EngineError::domain(message))
            },
        }
    }

    /// The numbers carried by this value, arrays flattened recursively: how
    /// numeric functions consume structured arguments (`sum(arr)` behaves
    /// like `sum(A:1..A:9)`). Strings and maps don't coerce.
    pub fn flattened_numbers(&self, function: &str) -> (r: Result<Vec<BigDecimal>, EngineError>)
        requires
            value_wf(*self),
        ensures
            match flattened_of(*self, function@) {
                Ok(s) => r matches Ok(v) && decimals_wf(v@) && decimal_views(v@) == s,
                Err(m) => r matches Err(EngineError::DomainError { message }) && message@ == m,
            },
        decreases self, 0int,
    {
        match self {
            Value::Array(items) => Self::items_flattened(items, function),
            _ => match self.as_number(function) {
                Ok(n) => {
                    let out = vec![n];
                    proof {
                        assert(decimal_views(out@) =~= seq![out@[0]@]);
                    }
                    Ok(out)
                },
                Err(_) => {
                    let mut message = String::from_str(function);
                    message.append("() works on numbers — got ");
                    let kind = self.kind_name();
                    message.append(kind.as_str());
                    Err(EngineError::domain(message))
                },
            },
        }
    }

    /// The numbers of a list of values, in order.
    fn items_flattened(items: &Vec<Value>, function: &str) -> (r: Result<Vec<BigDecimal>, EngineError>)
        requires
            items_wf(items@),
        ensures
            match items_flattened(items@, function@) {
                Ok(s) => r matches Ok(v) && decimals_wf(v@) && decimal_views(v@) == s,
                Err(m) => r matches Err(EngineError::DomainError { message }) && message@ == m,
            },
        decreases items, 0int,
    {
        let mut numbers: Vec<BigDecimal> = Vec::new();
        let mut i: usize = 0;
        while i < items.len()
            invariant
                i <= items@.len(),
                items_wf(items@),
                items_flattened(items@.take(i as int), function@) matches Ok(s) && decimals_wf(numbers@)
                    && decimal_views(numbers@) == s,
            decreases items@.len() - i,
        {
            proof {
                lemma_items_wf(items@, i as int);
                assert(items@.take(i + 1).drop_last() =~= items@.take(i as int));
                assert(items@.take(i + 1).last() == items@[i as int]);
            }
            let mut more = match items[i].flattened_numbers(function) {
                Ok(v) => v,
                Err(e) => {
                    proof {
                        lemma_flattened_error(items@, function@, i as int);
                    }
                    return Err(e);
                },
            };
            let ghost front = numbers@;
            let ghost back = more@;
            numbers.append(&mut more);
            proof {
                assert(numbers@ =~= front + back);
                assert(decimal_views(numbers@) =~= decimal_views(front) + decimal_views(back));
            }
            i += 1;
        }
        proof {
            assert(items@.take(i as int) =~= items@);
        }
        Ok(numbers)
    }

    /// Map and record field lookup (case-sensitive, like variables).
    pub fn map_value(&self, key: &str) -> (r: Option<&Value>)
        ensures
            match lookup_entries(*self) {
                Some(entries) => match first_with_key(entries, key@) {
                    Some(i) => r matches Some(v) && *v == entries[i].value,
                    None => r is None,
                },
                None => r is None,
            },
    {
        let entries = match self {
            Value::Dictionary(entries) => entries,
            Value::Record(record) => &record.entries,
            _ => return None,
        };
        let found = find_key(entries, key);
        proof {
            assert(lookup_entries(*self) == Some(entries@));
        }
        match found {
            Some(i) => {
                proof {
                    assert(first_with_key(entries@, key@) is Some);
                }
                Some(&entries[i].value)
            },
            None => None,
        }
    }

    /// True if a host handle occurs anywhere in the value. Such handles
    /// render with descriptions that do not re-parse, so a result carrying
    /// one is display-only.
    pub fn contains_host(&self) -> (r: bool)
        ensures
            r == has_host(*self),
        decreases self, 0int,
    {
        match self {
            Value::Host(_) => true,
            Value::Array(items) => Self::items_contain_host(items),
            Value::Dictionary(entries) => Self::entries_contain_host(entries),
            _ => false,
        }
    }

    /// Does some item contain a host handle?
    fn items_contain_host(items: &Vec<Value>) -> (r: bool)
        ensures
            r == any_item_host(items@),
        decreases items, 0int,
    {
        let mut i: usize = 0;
        while i < items.len()
            invariant
                i <= items@.len(),
                !any_item_host(items@.take(i as int)),
            decreases items@.len() - i,
        {
            proof {
                assert(items@.take(i + 1).drop_last() =~= items@.take(i as int));
            }
            if items[i].contains_host() {
                proof {
                    lemma_any_item_host(items@, i as int);
                }
                return true;
            }
            i += 1;
        }
        proof {
            assert(items@.take(i as int) =~= items@);
        }
        false
    }

    /// Does some entry value contain a host handle?
    fn entries_contain_host(entries: &Vec<MapEntry>) -> (r: bool)
        ensures
            r == any_entry_host(entries@),
        decreases entries, 0int,
    {
        let mut i: usize = 0;
        while i < entries.len()
            invariant
                i <= entries@.len(),
                !any_entry_host(entries@.take(i as int)),
            decreases entries@.len() - i,
        {
            proof {
                assert(entries@.take(i + 1).drop_last() =~= entries@.take(i as int));
            }
            if entries[i].value.contains_host() {
                proof {
                    lemma_any_entry_host(entries@, i as int);
                }
                return true;
            }
            i += 1;
        }
        proof {
            assert(entries@.take(i as int) =~= entries@);
        }
        false
    }
}

/// A failing item makes the whole list fail with the first failure, when
/// the items before it all flattened.
proof fn lemma_flattened_error(s: Seq<Value>, function: Seq<char>, i: int)
    requires
        0 <= i < s.len(),
        items_flattened(s.take(i), function) is Ok,
        flattened_of(s[i], function) is Err,
    ensures
        items_flattened(s, function) == flattened_of(s[i], function),
    decreases s.len(),
{
    if i < s.len() - 1 {
        assert(s.drop_last().take(i) =~= s.take(i));
        assert(s.drop_last()[i] == s[i]);
        lemma_flattened_error(s.drop_last(), function, i);
    } else {
        assert(s.drop_last() =~= s.take(i));
    }
}

/// A host in some item is a host in the list.
proof fn lemma_any_item_host(s: Seq<Value>, i: int)
    requires
        0 <= i < s.len(),
        has_host(s[i]),
    ensures
        any_item_host(s),
    decreases s.len(),
{
    if i < s.len() - 1 {
        lemma_any_item_host(s.drop_last(), i);
    }
}

/// A host in some entry is a host in the entries.
proof fn lemma_any_entry_host(s: Seq<MapEntry>, i: int)
    requires
        0 <= i < s.len(),
        has_host(s[i].value),
    ensures
        any_entry_host(s),
    decreases s.len(),
{
    if i < s.len() - 1 {
        lemma_any_entry_host(s.drop_last(), i);
    }
}

/// The text of a function value: the name of a named reference; a lambda
/// as `(x, y) -> body`, the body in re-parseable source.
pub open spec fn function_text(f: FunctionValue) -> Seq<char> {
    match f.kind {
        FunctionValueKind::Builtin(name) => name@,
        FunctionValueKind::User(name) => name@,
        FunctionValueKind::Lambda { parameters, body } => seq!['('] + joined_with(views_of(parameters@), ", "@)
            + ") -> "@ + source_of(body, LanguageMode::Normal),
    }
}

/// Every number can be rendered and every lambda body too, at any depth.
pub open spec fn value_renderable(v: Value) -> bool
    decreases v,
{
    match v {
        Value::Number(n) => formatted_fits(n@, 30),
        Value::Array(items) => items_renderable(items@),
        Value::Dictionary(entries) => entries_renderable(entries@),
        Value::Record(r) => entries_renderable(r.entries@),
        Value::Function(f) => captures_renderable(f.captures@) && match f.kind {
            FunctionValueKind::Lambda { body, .. } => renderable(body),
            _ => true,
        },
        _ => true,
    }
}

/// Every captured value of `s` can be rendered.
pub open spec fn captures_renderable(s: Seq<(String, Value)>) -> bool
    decreases s,
{
    if s.len() == 0 { true } else { captures_renderable(s.drop_last()) && value_renderable(s.last().1) }
}

/// Every item of `s` can be rendered.
pub open spec fn items_renderable(s: Seq<Value>) -> bool
    decreases s,
{
    if s.len() == 0 { true } else { items_renderable(s.drop_last()) && value_renderable(s.last()) }
}

/// Every entry value of `s` can be rendered.
pub open spec fn entries_renderable(s: Seq<MapEntry>) -> bool
    decreases s,
{
    if s.len() == 0 { true } else { entries_renderable(s.drop_last()) && value_renderable(s.last().value) }
}

/// The canonical, re-parseable rendering: `[1, 2]`,
/// `{name: "Ada", age: 36}`, `Person(name: "Ada", active: true)`.
pub open spec fn description_text(v: Value) -> Seq<char>
    decreases v,
{
    match v {
        Value::Number(n) => formatted_text(n@, 30),
        Value::String(t) => quoted_text(t@),
        Value::Array(items) => seq!['['] + joined_with(item_descriptions(items@), ", "@) + seq![']'],
        Value::Dictionary(entries) => seq!['{'] + joined_with(entry_descriptions(entries@), ", "@) + seq!['}'],
        Value::Function(f) => function_text(f),
        Value::Record(r) => r.type_label@ + seq!['('] + joined_with(
            field_descriptions(views_of(r.boolean_fields@), r.entries@),
            ", "@,
        ) + seq![')'],
        Value::FixedInt(f) => fixed_description(f.value.value(), f.bits as int, f.signed),
        Value::FixedDecimal(d) => description_of(d),
        Value::Host(h) => h.description@,
    }
}

/// The descriptions of a list of values.
pub open spec fn item_descriptions(s: Seq<Value>) -> Seq<Seq<char>>
    decreases s,
{
    if s.len() == 0 {
        Seq::empty()
    } else {
        item_descriptions(s.drop_last()).push(description_text(s.last()))
    }
}

/// `key: value` for each entry, the key bare when it is an identifier.
pub open spec fn entry_descriptions(s: Seq<MapEntry>) -> Seq<Seq<char>>
    decreases s,
{
    if s.len() == 0 {
        Seq::empty()
    } else {
        entry_descriptions(s.drop_last()).push(key_text(s.last().key@) + ": "@ + description_text(s.last().value))
    }
}

/// `name: value` for each record field: field names print bare, and a
/// Boolean field's number prints `true`/`false`.
pub open spec fn field_descriptions(booleans: Seq<Seq<char>>, s: Seq<MapEntry>) -> Seq<Seq<char>>
    decreases s,
{
    if s.len() == 0 {
        Seq::empty()
    } else {
        let e = s.last();
        let text = if booleans.contains(e.key@) && e.value is Number {
            if e.value->Number_0@.0 == 0 { "false"@ } else { "true"@ }
        } else {
            description_text(e.value)
        };
        field_descriptions(booleans, s.drop_last()).push(e.key@ + ": "@ + text)
    }
}

/// The clean, human-facing rendering: the description, except that a
/// fixed-width integer shows its plain integer and a fixed-precision
/// decimal its scale-padded value, at any depth of arrays and maps.
pub open spec fn display_text_of(v: Value) -> Seq<char>
    decreases v,
{
    match v {
        Value::Array(items) => seq!['['] + joined_with(item_displays(items@), ", "@) + seq![']'],
        Value::Dictionary(entries) => seq!['{'] + joined_with(entry_displays(entries@), ", "@) + seq!['}'],
        Value::FixedInt(f) => int_text(f.value.value()),
        Value::FixedDecimal(d) => fixed_text_of(d.value@, d.scale as int),
        _ => description_text(v),
    }
}

/// The clean renderings of a list of values.
pub open spec fn item_displays(s: Seq<Value>) -> Seq<Seq<char>>
    decreases s,
{
    if s.len() == 0 {
        Seq::empty()
    } else {
        item_displays(s.drop_last()).push(display_text_of(s.last()))
    }
}

/// `key: value` for each entry, the value in its clean rendering.
pub open spec fn entry_displays(s: Seq<MapEntry>) -> Seq<Seq<char>>
    decreases s,
{
    if s.len() == 0 {
        Seq::empty()
    } else {
        entry_displays(s.drop_last()).push(key_text(s.last().key@) + ": "@ + display_text_of(s.last().value))
    }
}

/// Every prefix of a renderable list is renderable, and so is each item.
pub proof fn lemma_items_renderable(s: Seq<Value>, i: int)
    requires
        items_renderable(s),
        0 <= i < s.len(),
    ensures
        value_renderable(s[i]),
        items_renderable(s.take(i)),
    decreases s.len(),
{
    if i < s.len() - 1 {
        lemma_items_renderable(s.drop_last(), i);
        assert(s.drop_last().take(i) =~= s.take(i));
    } else {
        assert(s.drop_last() =~= s.take(i));
    }
}

/// Every entry of a renderable entry list is renderable.
pub proof fn lemma_entries_renderable(s: Seq<MapEntry>, i: int)
    requires
        entries_renderable(s),
        0 <= i < s.len(),
    ensures
        value_renderable(s[i].value),
        entries_renderable(s.take(i)),
    decreases s.len(),
{
    if i < s.len() - 1 {
        lemma_entries_renderable(s.drop_last(), i);
        assert(s.drop_last().take(i) =~= s.take(i));
    } else {
        assert(s.drop_last() =~= s.take(i));
    }
}

/// Is `name` one of the names?
fn contains_name(names: &Vec<String>, name: &str) -> (r: bool)
    ensures
        r == views_of(names@).contains(name@),
{
    let mut i: usize = 0;
    while i < names.len()
        invariant
            i <= names@.len(),
            forall|j: int| 0 <= j < i ==> names@[j]@ != name@,
        decreases names@.len() - i,
    {
        if crate::eval::currency::str_equal(names[i].as_str(), name) {
            proof {
                assert(views_of(names@)[i as int] == name@);
            }
            return true;
        }
        i += 1;
    }
    proof {
        if views_of(names@).contains(name@) {
            let k = choose|k: int| 0 <= k < views_of(names@).len() && views_of(names@)[k] == name@;
            assert(names@[k]@ == name@);
        }
    }
    false
}

impl FunctionValue {
    /// Named references print as the name (which re-parses to the same
    /// reference); lambdas print re-parseable source.
    pub fn to_string(&self) -> (r: String)
        requires
            self.kind matches FunctionValueKind::Lambda { body, .. } ==> renderable(body),
        ensures
            r@ == function_text(*self),
    {
        match &self.kind {
            FunctionValueKind::Builtin(name) => name.clone(),
            FunctionValueKind::User(name) => name.clone(),
            FunctionValueKind::Lambda { parameters, body } => {
                let mut out = String::new();
                push_char(&mut out, '(');
                let names = join(parameters, ", ");
                out.append(names.as_str());
                out.append(") -> ");
                let source = body.source_text();
                out.append(source.as_str());
                proof {
                    assert(out@ =~= function_text(*self));
                }
                out
            },
        }
    }
}

impl Value {
    /// The canonical, re-parseable rendering (what `Display` shows):
    /// `[1, 2]`, `{name: "Ada", age: 36}`.
    pub fn to_string(&self) -> (r: String)
        requires
            value_wf(*self),
            value_renderable(*self),
        ensures
            r@ == description_text(*self),
        decreases self, 0int,
    {
        match self {
            Value::Number(value) => value.to_string(),
            Value::String(text) => quoted(text.as_str()),
            Value::Array(items) => {
                let parts = Self::item_texts(items);
                let body = join(&parts, ", ");
                let mut out = String::new();
                push_char(&mut out, '[');
                out.append(body.as_str());
                push_char(&mut out, ']');
                proof {
                    assert(out@ =~= description_text(*self));
                }
                out
            },
            Value::Dictionary(entries) => {
                let parts = Self::entry_texts(entries);
                let body = join(&parts, ", ");
                let mut out = String::new();
                push_char(&mut out, '{');
                out.append(body.as_str());
                push_char(&mut out, '}');
                proof {
                    assert(out@ =~= description_text(*self));
                }
                out
            },
            Value::Function(function) => function.to_string(),
            Value::Record(record) => {
                let parts = Self::field_texts(&record.boolean_fields, &record.entries);
                let body = join(&parts, ", ");
                let mut out = record.type_label.clone();
                push_char(&mut out, '(');
                out.append(body.as_str());
                push_char(&mut out, ')');
                proof {
                    assert(out@ =~= description_text(*self));
                }
                out
            },
            Value::FixedInt(fixed) => fixed.description(),
            Value::FixedDecimal(d) => d.description(),
            Value::Host(object) => object.description.clone(),
        }
    }

    /// The descriptions of a list of values.
    fn item_texts(items: &Vec<Value>) -> (r: Vec<String>)
        requires
            items_wf(items@),
            items_renderable(items@),
        ensures
            views_of(r@) == item_descriptions(items@),
        decreases items, 0int,
    {
        let mut out: Vec<String> = Vec::new();
        let mut i: usize = 0;
        while i < items.len()
            invariant
                i <= items@.len(),
                items_wf(items@),
                items_renderable(items@),
                views_of(out@) =~= item_descriptions(items@.take(i as int)),
            decreases items@.len() - i,
        {
            proof {
                lemma_items_wf(items@, i as int);
                lemma_items_renderable(items@, i as int);
                assert(items@.take(i + 1).drop_last() =~= items@.take(i as int));
            }
            let text = items[i].to_string();
            let ghost before = out@;
            out.push(text);
            proof {
                assert(views_of(out@) =~= views_of(before).push(out@.last()@));
            }
            i += 1;
        }
        proof {
            assert(items@.take(i as int) =~= items@);
        }
        out
    }

    /// `key: value` for each entry.
    fn entry_texts(entries: &Vec<MapEntry>) -> (r: Vec<String>)
        requires
            entries_wf(entries@),
            entries_renderable(entries@),
        ensures
            views_of(r@) == entry_descriptions(entries@),
        decreases entries, 0int,
    {
        let mut out: Vec<String> = Vec::new();
        let mut i: usize = 0;
        while i < entries.len()
            invariant
                i <= entries@.len(),
                entries_wf(entries@),
                entries_renderable(entries@),
                views_of(out@) =~= entry_descriptions(entries@.take(i as int)),
            decreases entries@.len() - i,
        {
            proof {
                lemma_entries_wf(entries@, i as int);
                lemma_entries_renderable(entries@, i as int);
                assert(entries@.take(i + 1).drop_last() =~= entries@.take(i as int));
            }
            let mut text = key_literal(entries[i].key.as_str());
            text.append(": ");
            let value = entries[i].value.to_string();
            text.append(value.as_str());
            let ghost before = out@;
            out.push(text);
            proof {
                assert(views_of(out@) =~= views_of(before).push(out@.last()@));
            }
            i += 1;
        }
        proof {
            assert(entries@.take(i as int) =~= entries@);
        }
        out
    }

    /// `name: value` for each record field.
    fn field_texts(booleans: &Vec<String>, entries: &Vec<MapEntry>) -> (r: Vec<String>)
        requires
            entries_wf(entries@),
            entries_renderable(entries@),
        ensures
            views_of(r@) == field_descriptions(views_of(booleans@), entries@),
        decreases entries, 0int,
    {
        let mut out: Vec<String> = Vec::new();
        let mut i: usize = 0;
        while i < entries.len()
            invariant
                i <= entries@.len(),
                entries_wf(entries@),
                entries_renderable(entries@),
                views_of(out@) =~= field_descriptions(views_of(booleans@), entries@.take(i as int)),
            decreases entries@.len() - i,
        {
            proof {
                lemma_entries_wf(entries@, i as int);
                lemma_entries_renderable(entries@, i as int);
                assert(entries@.take(i + 1).drop_last() =~= entries@.take(i as int));
            }
            let entry = &entries[i];
            let mut text = entry.key.clone();
            text.append(": ");
            let flag = match &entry.value {
                Value::Number(n) => if contains_name(booleans, entry.key.as_str()) {
                    Some(n.is_zero())
                } else {
                    None
                },
                _ => None,
            };
            match flag {
                Some(zero) => text.append(if zero { "false" } else { "true" }),
                None => {
                    let value = entry.value.to_string();
                    text.append(value.as_str());
                },
            }
            let ghost before = out@;
            out.push(text);
            proof {
                assert(views_of(out@) =~= views_of(before).push(out@.last()@));
            }
            i += 1;
        }
        proof {
            assert(entries@.take(i as int) =~= entries@);
        }
        out
    }

    /// A clean, human-facing rendering: the description, except that a
    /// fixed-width integer shows its plain integer (`343353`) and a
    /// fixed-precision decimal its scale-padded value (`10.50`) instead of
    /// the constructor call, at any depth of arrays and maps.
    pub fn display_description(&self) -> (r: String)
        requires
            value_wf(*self),
            value_renderable(*self),
        ensures
            r@ == display_text_of(*self),
        decreases self, 0int,
    {
        match self {
            Value::Array(items) => {
                let parts = Self::item_displays(items);
                let body = join(&parts, ", ");
                let mut out = String::new();
                push_char(&mut out, '[');
                out.append(body.as_str());
                push_char(&mut out, ']');
                proof {
                    assert(out@ =~= display_text_of(*self));
                }
                out
            },
            Value::Dictionary(entries) => {
                let parts = Self::entry_displays(entries);
                let body = join(&parts, ", ");
                let mut out = String::new();
                push_char(&mut out, '{');
                out.append(body.as_str());
                push_char(&mut out, '}');
                proof {
                    assert(out@ =~= display_text_of(*self));
                }
                out
            },
            Value::FixedInt(f) => {
                let digits = f.value.magnitude_text();
                if f.value.is_negative() {
                    let mut out = String::new();
                    push_char(&mut out, '-');
                    out.append(digits.as_str());
                    proof {
                        assert(out@ =~= display_text_of(*self));
                    }
                    out
                } else {
                    digits
                }
            },
            Value::FixedDecimal(d) => d.text(),
            _ => self.to_string(),
        }
    }

    /// The clean renderings of a list of values.
    fn item_displays(items: &Vec<Value>) -> (r: Vec<String>)
        requires
            items_wf(items@),
            items_renderable(items@),
        ensures
            views_of(r@) == item_displays(items@),
        decreases items, 0int,
    {
        let mut out: Vec<String> = Vec::new();
        let mut i: usize = 0;
        while i < items.len()
            invariant
                i <= items@.len(),
                items_wf(items@),
                items_renderable(items@),
                views_of(out@) =~= item_displays(items@.take(i as int)),
            decreases items@.len() - i,
        {
            proof {
                lemma_items_wf(items@, i as int);
                lemma_items_renderable(items@, i as int);
                assert(items@.take(i + 1).drop_last() =~= items@.take(i as int));
            }
            let text = items[i].display_description();
            let ghost before = out@;
            out.push(text);
            proof {
                assert(views_of(out@) =~= views_of(before).push(out@.last()@));
            }
            i += 1;
        }
        proof {
            assert(items@.take(i as int) =~= items@);
        }
        out
    }

    /// `key: value` for each entry, the value in its clean rendering.
    fn entry_displays(entries: &Vec<MapEntry>) -> (r: Vec<String>)
        requires
            entries_wf(entries@),
            entries_renderable(entries@),
        ensures
            views_of(r@) == entry_displays(entries@),
        decreases entries, 0int,
    {
        let mut out: Vec<String> = Vec::new();
        let mut i: usize = 0;
        while i < entries.len()
            invariant
                i <= entries@.len(),
                entries_wf(entries@),
                entries_renderable(entries@),
                views_of(out@) =~= entry_displays(entries@.take(i as int)),
            decreases entries@.len() - i,
        {
            proof {
                lemma_entries_wf(entries@, i as int);
                lemma_entries_renderable(entries@, i as int);
                assert(entries@.take(i + 1).drop_last() =~= entries@.take(i as int));
            }
            let mut text = key_literal(entries[i].key.as_str());
            text.append(": ");
            let value = entries[i].value.display_description();
            text.append(value.as_str());
            let ghost before = out@;
            out.push(text);
            proof {
                assert(views_of(out@) =~= views_of(before).push(out@.last()@));
            }
            i += 1;
        }
        proof {
            assert(entries@.take(i as int) =~= entries@);
        }
        out
    }

    /// Bare text for concatenation and cell display: a string without its
    /// quotes; anything else its clean rendering.
    pub fn display_text(&self) -> (r: String)
        requires
            value_wf(*self),
            value_renderable(*self),
        ensures
            r@ == (if *self is String { self->String_0@ } else { display_text_of(*self) }),
    {
        if let Value::String(text) = self {
            return text.clone();
        }
        self.display_description()
    }
}

/// Do the two function kinds call the same thing (lambdas: the same
/// parameters and the same body tree)?
pub open spec fn kind_eq(a: FunctionValueKind, b: FunctionValueKind) -> bool {
    match (a, b) {
        (FunctionValueKind::Builtin(x), FunctionValueKind::Builtin(y)) => x@ == y@,
        (FunctionValueKind::User(x), FunctionValueKind::User(y)) => x@ == y@,
        (
            FunctionValueKind::Lambda { parameters: p, body: x },
            FunctionValueKind::Lambda { parameters: q, body: y },
        ) => views_of(p@) == views_of(q@) && tree_of(x) == tree_of(y),
        _ => false,
    }
}

/// Do the two name lists hold the same names, as sets?
pub open spec fn same_name_set(a: Seq<Seq<char>>, b: Seq<Seq<char>>) -> bool {
    (forall|i: int| 0 <= i < a.len() ==> b.contains(#[trigger] a[i]))
    && (forall|i: int| 0 <= i < b.len() ==> a.contains(#[trigger] b[i]))
}

/// Deep equality, read in a direction: `x == y`, or with `flip`, `y == x`
/// (map equality looks the left side's keys up in the right side, so the
/// direction matters for maps with repeated keys). Maps compare
/// order-insensitively; fixed-width and fixed-precision values compare by
/// numeric value, also with plain numbers; hosts by type name and
/// description; anything else only within its own kind.
pub open spec fn eq_dir(x: Value, y: Value, flip: bool) -> bool
    decreases x, 0int,
{
    match (x, y) {
        (Value::Number(a), Value::Number(b)) => a@ == b@,
        (Value::String(a), Value::String(b)) => a@ == b@,
        (Value::Array(a), Value::Array(b)) => items_eq_dir(a@, b@, flip),
        (Value::Dictionary(a), Value::Dictionary(b)) => a@.len() == b@.len() && if flip {
            found_back(a@, b@)
        } else {
            found_forth(a@, b@)
        },
        (Value::Function(a), Value::Function(b)) => kind_eq(a.kind, b.kind) && captures_eq_dir(
            a.captures@,
            b.captures@,
            flip,
        ),
        (Value::Record(a), Value::Record(b)) => a.type_label@ == b.type_label@ && record_entries_eq_dir(
            a.entries@,
            b.entries@,
            flip,
        ) && same_name_set(views_of(a.boolean_fields@), views_of(b.boolean_fields@)),
        (Value::Host(a), Value::Host(b)) => a.type_label@ == b.type_label@ && a.description@ == b.description@,
        (Value::FixedInt(a), Value::FixedInt(b)) => a.value.value() == b.value.value(),
        (Value::FixedInt(a), Value::Number(b)) => canonical(a.value.value(), 0) == b@,
        (Value::Number(a), Value::FixedInt(b)) => a@ == canonical(b.value.value(), 0),
        (Value::FixedDecimal(a), Value::FixedDecimal(b)) => a.value@ == b.value@,
        (Value::FixedDecimal(a), Value::Number(b)) => a.value@ == b@,
        (Value::Number(a), Value::FixedDecimal(b)) => a@ == b.value@,
        _ => false,
    }
}

/// Two lists are equal item by item.
pub open spec fn items_eq_dir(a: Seq<Value>, b: Seq<Value>, flip: bool) -> bool
    decreases a, 0int,
{
    a.len() == b.len() && (a.len() == 0 || (items_eq_dir(a.drop_last(), b.drop_last(), flip) && eq_dir(
        a.last(),
        b.last(),
        flip,
    )))
}

/// Two record entry lists are equal entry by entry, key and value.
pub open spec fn record_entries_eq_dir(a: Seq<MapEntry>, b: Seq<MapEntry>, flip: bool) -> bool
    decreases a, 0int,
{
    a.len() == b.len() && (a.len() == 0 || (record_entries_eq_dir(a.drop_last(), b.drop_last(), flip)
        && a.last().key@ == b.last().key@ && eq_dir(a.last().value, b.last().value, flip)))
}

/// Two capture lists are equal capture by capture, name and value.
pub open spec fn captures_eq_dir(a: Seq<(String, Value)>, b: Seq<(String, Value)>, flip: bool) -> bool
    decreases a, 0int,
{
    a.len() == b.len() && (a.len() == 0 || (captures_eq_dir(a.drop_last(), b.drop_last(), flip)
        && a.last().0@ == b.last().0@ && eq_dir(a.last().1, b.last().1, flip)))
}

/// `a == b` for maps, `a` the left side: each of `a`'s keys is found in
/// `b`, and the value found equals `a`'s (read `found == a's`).
pub open spec fn found_forth(a: Seq<MapEntry>, b: Seq<MapEntry>) -> bool
    decreases a, 0int,
{
    a.len() == 0 || (found_forth(a.drop_last(), b) && match first_with_key(b, a.last().key@) {
        Some(j) => eq_dir(a.last().value, b[j].value, true),
        None => false,
    })
}

/// `b == a` for maps, `a` the right side: each of `b`'s keys is found in
/// `a`, and the value found equals `b`'s (read `found == b's`).
pub open spec fn found_back(a: Seq<MapEntry>, b: Seq<MapEntry>) -> bool
    decreases a, b.len(),
{
    b.len() == 0 || (found_back(a, b.drop_last()) && match first_with_key(a, b.last().key@) {
        Some(j) => 0 <= j < a.len() && eq_dir(a[j].value, b.last().value, false),
        None => false,
    })
}

/// Deep equality of values (the language's `==`).
pub open spec fn value_eq(a: Value, b: Value) -> bool {
    eq_dir(a, b, false)
}

/// The first key lookup lands inside the list.
pub proof fn lemma_first_with_key_bound(s: Seq<MapEntry>, key: Seq<char>)
    ensures
        first_with_key(s, key) matches Some(j) ==> 0 <= j < s.len() && s[j].key@ == key,
    decreases s.len(),
{
    if s.len() > 0 && s[0].key@ != key {
        lemma_first_with_key_bound(s.drop_first(), key);
    }
}

/// Every prefix of a well-formed, renderable capture list is so too, and
/// so is each capture.
pub proof fn lemma_captures_ok(s: Seq<(String, Value)>, i: int)
    requires
        captures_wf(s),
        captures_renderable(s),
        0 <= i < s.len(),
    ensures
        value_wf(s[i].1),
        value_renderable(s[i].1),
    decreases s.len(),
{
    if i < s.len() - 1 {
        lemma_captures_ok(s.drop_last(), i);
    }
}

/// Equal lists have equal prefixes.
proof fn lemma_items_eq_prefix(a: Seq<Value>, b: Seq<Value>, flip: bool, k: int)
    requires
        items_eq_dir(a, b, flip),
        0 <= k <= a.len(),
    ensures
        items_eq_dir(a.take(k), b.take(k), flip),
    decreases a.len(),
{
    if k == a.len() {
        assert(a.take(k) =~= a);
        assert(b.take(k) =~= b);
    } else {
        lemma_items_eq_prefix(a.drop_last(), b.drop_last(), flip, k);
        assert(a.drop_last().take(k) =~= a.take(k));
        assert(b.drop_last().take(k) =~= b.take(k));
    }
}

/// Equal record entry lists have equal prefixes.
proof fn lemma_record_entries_eq_prefix(a: Seq<MapEntry>, b: Seq<MapEntry>, flip: bool, k: int)
    requires
        record_entries_eq_dir(a, b, flip),
        0 <= k <= a.len(),
    ensures
        record_entries_eq_dir(a.take(k), b.take(k), flip),
    decreases a.len(),
{
    if k == a.len() {
        assert(a.take(k) =~= a);
        assert(b.take(k) =~= b);
    } else {
        lemma_record_entries_eq_prefix(a.drop_last(), b.drop_last(), flip, k);
        assert(a.drop_last().take(k) =~= a.take(k));
        assert(b.drop_last().take(k) =~= b.take(k));
    }
}

/// Equal capture lists have equal prefixes.
proof fn lemma_captures_eq_prefix(a: Seq<(String, Value)>, b: Seq<(String, Value)>, flip: bool, k: int)
    requires
        captures_eq_dir(a, b, flip),
        0 <= k <= a.len(),
    ensures
        captures_eq_dir(a.take(k), b.take(k), flip),
    decreases a.len(),
{
    if k == a.len() {
        assert(a.take(k) =~= a);
        assert(b.take(k) =~= b);
    } else {
        lemma_captures_eq_prefix(a.drop_last(), b.drop_last(), flip, k);
        assert(a.drop_last().take(k) =~= a.take(k));
        assert(b.drop_last().take(k) =~= b.take(k));
    }
}

/// Found keys stay found in a prefix of the left side.
proof fn lemma_found_forth_prefix(a: Seq<MapEntry>, b: Seq<MapEntry>, k: int)
    requires
        found_forth(a, b),
        0 <= k <= a.len(),
    ensures
        found_forth(a.take(k), b),
    decreases a.len(),
{
    if k == a.len() {
        assert(a.take(k) =~= a);
    } else {
        lemma_found_forth_prefix(a.drop_last(), b, k);
        assert(a.drop_last().take(k) =~= a.take(k));
    }
}

/// Found keys stay found in a prefix of the right side.
proof fn lemma_found_back_prefix(a: Seq<MapEntry>, b: Seq<MapEntry>, k: int)
    requires
        found_back(a, b),
        0 <= k <= b.len(),
    ensures
        found_back(a, b.take(k)),
    decreases b.len(),
{
    if k == b.len() {
        assert(b.take(k) =~= b);
    } else {
        lemma_found_back_prefix(a, b.drop_last(), k);
        assert(b.drop_last().take(k) =~= b.take(k));
    }
}

/// Do the two lists hold the same names, as sets?
fn same_set(a: &Vec<String>, b: &Vec<String>) -> (r: bool)
    ensures
        r == same_name_set(views_of(a@), views_of(b@)),
{
    let mut i: usize = 0;
    while i < a.len()
        invariant
            i <= a@.len(),
            forall|k: int| 0 <= k < i ==> views_of(b@).contains(#[trigger] views_of(a@)[k]),
        decreases a@.len() - i,
    {
        if !contains_name(b, a[i].as_str()) {
            proof {
                assert(views_of(a@)[i as int] == a@[i as int]@);
            }
            return false;
        }
        proof {
            assert(views_of(a@)[i as int] == a@[i as int]@);
        }
        i += 1;
    }
    let mut j: usize = 0;
    while j < b.len()
        invariant
            j <= b@.len(),
            forall|k: int| 0 <= k < a@.len() ==> views_of(b@).contains(#[trigger] views_of(a@)[k]),
            forall|k: int| 0 <= k < j ==> views_of(a@).contains(#[trigger] views_of(b@)[k]),
        decreases b@.len() - j,
    {
        if !contains_name(a, b[j].as_str()) {
            proof {
                assert(views_of(b@)[j as int] == b@[j as int]@);
            }
            return false;
        }
        proof {
            assert(views_of(b@)[j as int] == b@[j as int]@);
        }
        j += 1;
    }
    true
}

/// Do the two function kinds call the same thing?
fn kinds_equal(a: &FunctionValueKind, b: &FunctionValueKind) -> (r: bool)
    requires
        *a matches FunctionValueKind::Lambda { body, .. } ==> renderable(body),
        *b matches FunctionValueKind::Lambda { body, .. } ==> renderable(body),
    ensures
        r == kind_eq(*a, *b),
{
    match (a, b) {
        (FunctionValueKind::Builtin(x), FunctionValueKind::Builtin(y)) => crate::eval::currency::str_equal(
            x.as_str(),
            y.as_str(),
        ),
        (FunctionValueKind::User(x), FunctionValueKind::User(y)) => crate::eval::currency::str_equal(
            x.as_str(),
            y.as_str(),
        ),
        (
            FunctionValueKind::Lambda { parameters: p, body: x },
            FunctionValueKind::Lambda { parameters: q, body: y },
        ) => join_names_equal(p, q) && x.same(y),
        _ => false,
    }
}

/// Do two name lists hold the same names, in order?
fn join_names_equal(a: &Vec<String>, b: &Vec<String>) -> (r: bool)
    ensures
        r == (views_of(a@) == views_of(b@)),
{
    if a.len() != b.len() {
        proof {
            assert(views_of(a@).len() != views_of(b@).len());
        }
        return false;
    }
    let mut i: usize = 0;
    while i < a.len()
        invariant
            a@.len() == b@.len(),
            i <= a@.len(),
            forall|k: int| 0 <= k < i ==> a@[k]@ == b@[k]@,
        decreases a@.len() - i,
    {
        if !crate::eval::currency::str_equal(a[i].as_str(), b[i].as_str()) {
            proof {
                assert(views_of(a@)[i as int] != views_of(b@)[i as int]);
            }
            return false;
        }
        i += 1;
    }
    proof {
        assert(views_of(a@) =~= views_of(b@));
    }
    true
}

/// Are the two integers equal?
fn integers_equal(a: &crate::bigint::BigInteger, b: &crate::bigint::BigInteger) -> (r: bool)
    requires
        a.wf(),
        b.wf(),
    ensures
        r == (a.value() == b.value()),
{
    !a.less_than(b) && !b.less_than(a)
}

impl Value {
    /// Deep equality (the language's `==`). Maps compare order-insensitively:
    /// `{a: 1, b: 2}` equals `{b: 2, a: 1}`, because entry order is
    /// presentation, not data. Fixed values compare by numeric value (`Int8(5)
    /// == 5`, `Int8(5) == Int16(5)`); a record never equals a plain map.
    pub fn equals(&self, other: &Value) -> (r: bool)
        requires
            value_wf(*self),
            value_wf(*other),
            value_renderable(*self),
            value_renderable(*other),
        ensures
            r == value_eq(*self, *other),
    {
        Self::equals_dir(self, other, false)
    }

    /// Equality read in a direction (see `eq_dir`).
    fn equals_dir(x: &Value, y: &Value, flip: bool) -> (r: bool)
        requires
            value_wf(*x),
            value_wf(*y),
            value_renderable(*x),
            value_renderable(*y),
        ensures
            r == eq_dir(*x, *y, flip),
        decreases x, 0int,
    {
        match (x, y) {
            (Value::Number(a), Value::Number(b)) => a.equals(b),
            (Value::String(a), Value::String(b)) => crate::eval::currency::str_equal(a.as_str(), b.as_str()),
            (Value::Array(a), Value::Array(b)) => Self::items_equal(a, b, flip),
            (Value::Dictionary(a), Value::Dictionary(b)) => a.len() == b.len() && if flip {
                Self::found_back_in(a, b)
            } else {
                Self::found_forth_in(a, b)
            },
            (Value::Function(a), Value::Function(b)) => kinds_equal(&a.kind, &b.kind) && Self::captures_equal(
                &a.captures,
                &b.captures,
                flip,
            ),
            (Value::Record(a), Value::Record(b)) => crate::eval::currency::str_equal(
                a.type_label.as_str(),
                b.type_label.as_str(),
            ) && Self::record_entries_equal(&a.entries, &b.entries, flip) && same_set(
                &a.boolean_fields,
                &b.boolean_fields,
            ),
            (Value::Host(a), Value::Host(b)) => crate::eval::currency::str_equal(
                a.type_label.as_str(),
                b.type_label.as_str(),
            ) && crate::eval::currency::str_equal(a.description.as_str(), b.description.as_str()),
            (Value::FixedInt(a), Value::FixedInt(b)) => integers_equal(&a.value, &b.value),
            (Value::FixedInt(a), Value::Number(b)) => a.decimal().equals(b),
            (Value::Number(a), Value::FixedInt(b)) => a.equals(&b.decimal()),
            (Value::FixedDecimal(a), Value::FixedDecimal(b)) => a.value.equals(&b.value),
            (Value::FixedDecimal(a), Value::Number(b)) => a.value.equals(b),
            (Value::Number(a), Value::FixedDecimal(b)) => a.equals(&b.value),
            _ => false,
        }
    }

    /// Item-by-item equality of two lists.
    fn items_equal(a: &Vec<Value>, b: &Vec<Value>, flip: bool) -> (r: bool)
        requires
            items_wf(a@),
            items_wf(b@),
            items_renderable(a@),
            items_renderable(b@),
        ensures
            r == items_eq_dir(a@, b@, flip),
        decreases a, 0int,
    {
        if a.len() != b.len() {
            return false;
        }
        let mut i: usize = 0;
        while i < a.len()
            invariant
                a@.len() == b@.len(),
                i <= a@.len(),
                items_wf(a@),
                items_wf(b@),
                items_renderable(a@),
                items_renderable(b@),
                items_eq_dir(a@.take(i as int), b@.take(i as int), flip),
            decreases a@.len() - i,
        {
            proof {
                lemma_items_wf(a@, i as int);
                lemma_items_wf(b@, i as int);
                lemma_items_renderable(a@, i as int);
                lemma_items_renderable(b@, i as int);
                assert(a@.take(i + 1).drop_last() =~= a@.take(i as int));
                assert(b@.take(i + 1).drop_last() =~= b@.take(i as int));
            }
            if !Self::equals_dir(&a[i], &b[i], flip) {
                proof {
                    if items_eq_dir(a@, b@, flip) {
                        lemma_items_eq_prefix(a@, b@, flip, i + 1);
                    }
                }
                return false;
            }
            i += 1;
        }
        proof {
            assert(a@.take(i as int) =~= a@);
            assert(b@.take(i as int) =~= b@);
        }
        true
    }

    /// Entry-by-entry equality of two record entry lists.
    fn record_entries_equal(a: &Vec<MapEntry>, b: &Vec<MapEntry>, flip: bool) -> (r: bool)
        requires
            entries_wf(a@),
            entries_wf(b@),
            entries_renderable(a@),
            entries_renderable(b@),
        ensures
            r == record_entries_eq_dir(a@, b@, flip),
        decreases a, 0int,
    {
        if a.len() != b.len() {
            return false;
        }
        let mut i: usize = 0;
        while i < a.len()
            invariant
                a@.len() == b@.len(),
                i <= a@.len(),
                entries_wf(a@),
                entries_wf(b@),
                entries_renderable(a@),
                entries_renderable(b@),
                record_entries_eq_dir(a@.take(i as int), b@.take(i as int), flip),
            decreases a@.len() - i,
        {
            proof {
                lemma_entries_wf(a@, i as int);
                lemma_entries_wf(b@, i as int);
                lemma_entries_renderable(a@, i as int);
                lemma_entries_renderable(b@, i as int);
                assert(a@.take(i + 1).drop_last() =~= a@.take(i as int));
                assert(b@.take(i + 1).drop_last() =~= b@.take(i as int));
            }
            let same = crate::eval::currency::str_equal(a[i].key.as_str(), b[i].key.as_str())
                && Self::equals_dir(&a[i].value, &b[i].value, flip);
            if !same {
                proof {
                    if record_entries_eq_dir(a@, b@, flip) {
                        lemma_record_entries_eq_prefix(a@, b@, flip, i + 1);
                    }
                }
                return false;
            }
            i += 1;
        }
        proof {
            assert(a@.take(i as int) =~= a@);
            assert(b@.take(i as int) =~= b@);
        }
        true
    }

    /// Capture-by-capture equality of two capture lists.
    fn captures_equal(a: &Vec<(String, Value)>, b: &Vec<(String, Value)>, flip: bool) -> (r: bool)
        requires
            captures_wf(a@),
            captures_wf(b@),
            captures_renderable(a@),
            captures_renderable(b@),
        ensures
            r == captures_eq_dir(a@, b@, flip),
        decreases a, 0int,
    {
        if a.len() != b.len() {
            return false;
        }
        let mut i: usize = 0;
        while i < a.len()
            invariant
                a@.len() == b@.len(),
                i <= a@.len(),
                captures_wf(a@),
                captures_wf(b@),
                captures_renderable(a@),
                captures_renderable(b@),
                captures_eq_dir(a@.take(i as int), b@.take(i as int), flip),
            decreases a@.len() - i,
        {
            proof {
                lemma_captures_ok(a@, i as int);
                lemma_captures_ok(b@, i as int);
                assert(a@.take(i + 1).drop_last() =~= a@.take(i as int));
                assert(b@.take(i + 1).drop_last() =~= b@.take(i as int));
            }
            let same = crate::eval::currency::str_equal(a[i].0.as_str(), b[i].0.as_str())
                && Self::equals_dir(&a[i].1, &b[i].1, flip);
            if !same {
                proof {
                    if captures_eq_dir(a@, b@, flip) {
                        lemma_captures_eq_prefix(a@, b@, flip, i + 1);
                    }
                }
                return false;
            }
            i += 1;
        }
        proof {
            assert(a@.take(i as int) =~= a@);
            assert(b@.take(i as int) =~= b@);
        }
        true
    }

    /// Each of `a`'s keys is found in `b` with a value equal to `a`'s.
    fn found_forth_in(a: &Vec<MapEntry>, b: &Vec<MapEntry>) -> (r: bool)
        requires
            entries_wf(a@),
            entries_wf(b@),
            entries_renderable(a@),
            entries_renderable(b@),
        ensures
            r == found_forth(a@, b@),
        decreases a, 0int,
    {
        let mut i: usize = 0;
        while i < a.len()
            invariant
                i <= a@.len(),
                entries_wf(a@),
                entries_wf(b@),
                entries_renderable(a@),
                entries_renderable(b@),
                found_forth(a@.take(i as int), b@),
            decreases a@.len() - i,
        {
            proof {
                lemma_entries_wf(a@, i as int);
                lemma_entries_renderable(a@, i as int);
                assert(a@.take(i + 1).drop_last() =~= a@.take(i as int));
                assert(a@.take(i + 1).last() == a@[i as int]);
            }
            let same = match find_key(b, a[i].key.as_str()) {
                Some(j) => {
                    proof {
                        lemma_entries_wf(b@, j as int);
                        lemma_entries_renderable(b@, j as int);
                    }
                    Self::equals_dir(&a[i].value, &b[j].value, true)
                },
                None => false,
            };
            if !same {
                proof {
                    if found_forth(a@, b@) {
                        lemma_found_forth_prefix(a@, b@, i + 1);
                    }
                }
                return false;
            }
            i += 1;
        }
        proof {
            assert(a@.take(i as int) =~= a@);
        }
        true
    }

    /// Each of `b`'s keys is found in `a` with a value equal to `b`'s.
    fn found_back_in(a: &Vec<MapEntry>, b: &Vec<MapEntry>) -> (r: bool)
        requires
            entries_wf(a@),
            entries_wf(b@),
            entries_renderable(a@),
            entries_renderable(b@),
        ensures
            r == found_back(a@, b@),
        decreases a, 0int,
    {
        let mut i: usize = 0;
        while i < b.len()
            invariant
                i <= b@.len(),
                entries_wf(a@),
                entries_wf(b@),
                entries_renderable(a@),
                entries_renderable(b@),
                found_back(a@, b@.take(i as int)),
            decreases b@.len() - i,
        {
            proof {
                lemma_entries_wf(b@, i as int);
                lemma_entries_renderable(b@, i as int);
                assert(b@.take(i + 1).drop_last() =~= b@.take(i as int));
                assert(b@.take(i + 1).last() == b@[i as int]);
            }
            let same = match find_key(a, b[i].key.as_str()) {
                Some(j) => {
                    proof {
                        lemma_entries_wf(a@, j as int);
                        lemma_entries_renderable(a@, j as int);
                    }
                    Self::equals_dir(&a[j].value, &b[i].value, false)
                },
                None => false,
            };
            if !same {
                proof {
                    if found_back(a@, b@) {
                        lemma_found_back_prefix(a@, b@, i + 1);
                    }
                }
                return false;
            }
            i += 1;
        }
        proof {
            assert(b@.take(i as int) =~= b@);
        }
        true
    }
}

/// Is `name` a registered builtin? Builtins are found in any letter case.
pub open spec fn is_builtin_name(name: Seq<char>, builtins: Seq<Seq<char>>) -> bool {
    exists|i: int| 0 <= i < builtins.len() && lowercase(#[trigger] builtins[i]) == lowercase(name)
}

/// Does the tree consist only of literals (numbers, strings, arrays, maps,
/// negated numbers, lambdas and builtin references)?
pub open spec fn tree_foldable(t: Tree, builtins: Seq<Seq<char>>) -> bool
    decreases t,
{
    match t {
        Tree::Number(_) => true,
        Tree::StringLiteral(_) => true,
        Tree::UnaryMinus(inner) => *inner is Number,
        Tree::ArrayLiteral(items) => trees_foldable(items, builtins),
        Tree::MapLiteral(entries) => entry_trees_foldable(entries, builtins),
        Tree::Lambda(_, _) => true,
        Tree::Variable(name) => is_builtin_name(name, builtins),
        _ => false,
    }
}

/// Every tree of `s` is foldable.
pub open spec fn trees_foldable(s: Seq<Tree>, builtins: Seq<Seq<char>>) -> bool
    decreases s,
{
    if s.len() == 0 { true } else { trees_foldable(s.drop_last(), builtins) && tree_foldable(s.last(), builtins) }
}

/// Every entry tree of `s` is foldable.
pub open spec fn entry_trees_foldable(s: Seq<(Seq<char>, Tree)>, builtins: Seq<Seq<char>>) -> bool
    decreases s,
{
    if s.len() == 0 {
        true
    } else {
        entry_trees_foldable(s.drop_last(), builtins) && tree_foldable(s.last().1, builtins)
    }
}

/// Is `v` the value a foldable tree stands for? A persisted lambda comes
/// back capture-free; a builtin name comes back as a reference to it.
pub open spec fn folds_to(t: Tree, v: Value) -> bool
    decreases t,
{
    match t {
        Tree::Number(x) => v matches Value::Number(n) && n@ == x,
        Tree::StringLiteral(x) => v matches Value::String(u) && u@ == x,
        Tree::UnaryMinus(inner) => match *inner {
            Tree::Number(x) => v matches Value::Number(n) && n@ == crate::number::negation(x),
            _ => false,
        },
        Tree::ArrayLiteral(items) => v matches Value::Array(vs) && items_fold_to(items, vs@),
        Tree::MapLiteral(entries) => v matches Value::Dictionary(es) && entries_fold_to(entries, es@),
        Tree::Lambda(parameters, body) => v matches Value::Function(f) && f.captures@.len() == 0 && (
        f.kind matches FunctionValueKind::Lambda { parameters: p, body: b } && views_of(p@) == parameters && tree_of(b)
            == *body),
        Tree::Variable(name) => v matches Value::Function(f) && f.captures@.len() == 0 && (
        f.kind matches FunctionValueKind::Builtin(n) && n@ == name),
        _ => false,
    }
}

/// Each tree folds to the value at its position.
pub open spec fn items_fold_to(ts: Seq<Tree>, vs: Seq<Value>) -> bool
    decreases ts,
{
    ts.len() == vs.len() && (ts.len() == 0 || (items_fold_to(ts.drop_last(), vs.drop_last()) && folds_to(
        ts.last(),
        vs.last(),
    )))
}

/// Each entry tree folds to the entry at its position, key kept.
pub open spec fn entries_fold_to(ts: Seq<(Seq<char>, Tree)>, es: Seq<MapEntry>) -> bool
    decreases ts,
{
    ts.len() == es.len() && (ts.len() == 0 || (entries_fold_to(ts.drop_last(), es.drop_last())
        && es.last().key@ == ts.last().0 && folds_to(ts.last().1, es.last().value)))
}

/// Every foldable prefix stays foldable, and so does each tree.
proof fn lemma_trees_foldable(s: Seq<Tree>, builtins: Seq<Seq<char>>, i: int)
    requires
        0 <= i < s.len(),
    ensures
        trees_foldable(s, builtins) ==> tree_foldable(s[i], builtins),
        trees_foldable(s.take(i + 1), builtins) == (trees_foldable(s.take(i), builtins) && tree_foldable(
            s[i],
            builtins,
        )),
    decreases s.len(),
{
    assert(s.take(i + 1).drop_last() =~= s.take(i));
    if i < s.len() - 1 {
        lemma_trees_foldable(s.drop_last(), builtins, i);
    }
}

/// Every foldable entry prefix stays foldable, and so does each entry.
proof fn lemma_entry_trees_foldable(s: Seq<(Seq<char>, Tree)>, builtins: Seq<Seq<char>>, i: int)
    requires
        0 <= i < s.len(),
    ensures
        entry_trees_foldable(s, builtins) ==> tree_foldable(s[i].1, builtins),
        entry_trees_foldable(s.take(i + 1), builtins) == (entry_trees_foldable(s.take(i), builtins) && tree_foldable(
            s[i].1,
            builtins,
        )),
    decreases s.len(),
{
    assert(s.take(i + 1).drop_last() =~= s.take(i));
    if i < s.len() - 1 {
        lemma_entry_trees_foldable(s.drop_last(), builtins, i);
    }
}

/// A list with a non-foldable prefix is not foldable.
proof fn lemma_trees_prefix(s: Seq<Tree>, builtins: Seq<Seq<char>>, k: int)
    requires
        0 <= k <= s.len(),
        trees_foldable(s, builtins),
    ensures
        trees_foldable(s.take(k), builtins),
    decreases s.len(),
{
    if k == s.len() {
        assert(s.take(k) =~= s);
    } else {
        lemma_trees_prefix(s.drop_last(), builtins, k);
        assert(s.drop_last().take(k) =~= s.take(k));
    }
}

/// An entry list with a non-foldable prefix is not foldable.
proof fn lemma_entry_trees_prefix(s: Seq<(Seq<char>, Tree)>, builtins: Seq<Seq<char>>, k: int)
    requires
        0 <= k <= s.len(),
        entry_trees_foldable(s, builtins),
    ensures
        entry_trees_foldable(s.take(k), builtins),
    decreases s.len(),
{
    if k == s.len() {
        assert(s.take(k) =~= s);
    } else {
        lemma_entry_trees_prefix(s.drop_last(), builtins, k);
        assert(s.drop_last().take(k) =~= s.take(k));
    }
}

/// The trees of a prefix are the prefix of the trees.
proof fn lemma_trees_take(s: Seq<Expression>, k: int)
    requires
        0 <= k <= s.len(),
    ensures
        trees_of(s.take(k)) == trees_of(s).take(k),
{
    lemma_trees_index(s);
    lemma_trees_index(s.take(k));
    assert(trees_of(s.take(k)) =~= trees_of(s).take(k));
}

/// The entry trees of a prefix are the prefix of the entry trees.
proof fn lemma_entry_trees_take(s: Seq<MapLiteralEntry>, k: int)
    requires
        0 <= k <= s.len(),
    ensures
        entry_trees_of(s.take(k)) == entry_trees_of(s).take(k),
{
    lemma_entry_trees_index(s);
    lemma_entry_trees_index(s.take(k));
    assert(entry_trees_of(s.take(k)) =~= entry_trees_of(s).take(k));
}

/// Is `name` one of the builtins, in any letter case?
fn is_builtin(name: &str, builtins: &Vec<String>) -> (r: bool)
    ensures
        r == is_builtin_name(name@, views_of(builtins@)),
{
    let lowered = crate::text::to_lowercase(name);
    let mut i: usize = 0;
    while i < builtins.len()
        invariant
            i <= builtins@.len(),
            lowered@ == lowercase(name@),
            forall|j: int| 0 <= j < i ==> lowercase(#[trigger] views_of(builtins@)[j]) != lowercase(name@),
        decreases builtins@.len() - i,
    {
        let candidate = crate::text::to_lowercase(builtins[i].as_str());
        if crate::eval::currency::str_equal(candidate.as_str(), lowered.as_str()) {
            proof {
                assert(views_of(builtins@)[i as int] == builtins@[i as int]@);
            }
            return true;
        }
        proof {
            assert(views_of(builtins@)[i as int] == builtins@[i as int]@);
        }
        i += 1;
    }
    false
}

impl Value {
    /// Parses a persisted variable value back into a value: the plain
    /// number form first, then literal folding of `[…]`, `{…}` and `"…"`
    /// forms, negated numbers, lambdas (capture-free) and builtin names.
    /// `None` for anything that is not a pure literal: persisted values
    /// never contain references or calls. `builtins` are the names of the
    /// registered builtin functions.
    pub fn parsing(text: &str, builtins: &Vec<String>) -> (r: Option<Value>)
        requires
            crate::number::parse::literal_fits(text@),
            line_fits(text@),
            !(lex(text@) is Overflow),
        ensures
            match crate::number::parse::literal_value(text@) {
                Some(x) => r matches Some(Value::Number(n)) && n.wf() && n@ == canonical(x.0, x.1),
                None => match lex(text@) {
                    Lexed::Tokens(ts) => match parsed(
                        ts.push((LexedKind::Other(TokenKind::End), text@.len() as int, text@.len() as int)),
                        LanguageMode::Normal,
                    ) {
                        Parse::Done(t, _) => if tree_foldable(t, views_of(builtins@)) {
                            r matches Some(v) && folds_to(t, v)
                        } else {
                            r is None
                        },
                        Parse::Fail(_, _) => r is None,
                    },
                    _ => r is None,
                },
            },
    {
        if let Some(number) = BigDecimal::parse(text) {
            return Some(Value::Number(number));
        }
        match Parser::parse(text, LanguageMode::Normal) {
            Ok(expression) => Self::literal(expression, builtins),
            Err(_) => None,
        }
    }

    /// Folds an expression that consists only of literals; `None` if
    /// anything needs evaluation.
    pub(crate) fn literal(expression: Expression, builtins: &Vec<String>) -> (r: Option<Value>)
        ensures
            if tree_foldable(tree_of(expression), views_of(builtins@)) {
                r matches Some(v) && folds_to(tree_of(expression), v)
            } else {
                r is None
            },
        decreases expression,
    {
        let ghost whole = expression;
        match expression {
            Expression::Number(value) => {
                proof {
                    assert(tree_of(whole) == Tree::Number(value@));
                }
                Some(Value::Number(value))
            },
            Expression::StringLiteral(text) => {
                proof {
                    assert(tree_of(whole) == Tree::StringLiteral(text@));
                }
                Some(Value::String(text))
            },
            Expression::UnaryMinus(inner) => {
                let operand = *inner;
                let ghost held = operand;
                proof {
                    assert(tree_of(whole) == Tree::UnaryMinus(Box::new(tree_of(held))));
                }
                match operand {
                    Expression::Number(value) => {
                        proof {
                            assert(tree_of(held) == Tree::Number(value@));
                        }
                        Some(Value::Number(value.neg()))
                    },
                    _ => None,
                }
            },
            Expression::ArrayLiteral(items) => {
                let ghost original = items@;
                let ghost held = items;
                let mut rest = items;
                proof {
                    assert(rest@.len() == rest.len());
                }
                let mut values: Vec<Value> = Vec::new();
                let mut k: usize = 0;
                while rest.len() > 0
                    invariant
                        k <= original.len(),
                        rest@ == original.skip(k as int),
                        whole == expression,
                        whole == Expression::ArrayLiteral(held),
                        original.len() <= usize::MAX,
                        held@ == original,
                        trees_foldable(trees_of(original.take(k as int)), views_of(builtins@)),
                        items_fold_to(trees_of(original.take(k as int)), values@),
                    decreases rest@.len(),
                {
                    let item = rest.remove(0);
                    proof {
                        assert(item == original[k as int]);
                        assert(decreases_to!(whole => held));
                        assert(decreases_to!(held => held@));
                        assert(decreases_to!(held@ => held@[k as int]));
                        assert(decreases_to!(whole => item));
                        lemma_trees_index(original);
                        lemma_trees_foldable(trees_of(original), views_of(builtins@), k as int);
                        lemma_trees_take(original, k + 1);
                        lemma_trees_take(original, k as int);
                        assert(rest@ =~= original.skip(k + 1));
                    }
                    let ghost item_tree = tree_of(item);
                    let value = match Self::literal(item, builtins) {
                        Some(v) => v,
                        None => {
                            proof {
                                assert(tree_of(whole) == Tree::ArrayLiteral(trees_of(original)));
                                assert(trees_of(original)[k as int] == item_tree);
                                if trees_foldable(trees_of(original), views_of(builtins@)) {
                                    lemma_trees_prefix(trees_of(original), views_of(builtins@), k + 1);
                                }
                            }
                            return None;
                        },
                    };
                    let ghost before = values@;
                    values.push(value);
                    proof {
                        assert(values@.drop_last() =~= before);
                        assert(trees_of(original).take(k + 1).drop_last() =~= trees_of(original).take(k as int));
                    }
                    k += 1;
                }
                proof {
                    assert(original.take(k as int) =~= original);
                    assert(tree_of(whole) == Tree::ArrayLiteral(trees_of(original)));
                }
                Some(Value::Array(values))
            },
            Expression::MapLiteral(entries) => {
                let ghost original = entries@;
                let ghost held = entries;
                let mut rest = entries;
                proof {
                    assert(rest@.len() == rest.len());
                }
                let mut folded: Vec<MapEntry> = Vec::new();
                let mut k: usize = 0;
                while rest.len() > 0
                    invariant
                        k <= original.len(),
                        rest@ == original.skip(k as int),
                        whole == expression,
                        whole == Expression::MapLiteral(held),
                        original.len() <= usize::MAX,
                        held@ == original,
                        entry_trees_foldable(entry_trees_of(original.take(k as int)), views_of(builtins@)),
                        entries_fold_to(entry_trees_of(original.take(k as int)), folded@),
                    decreases rest@.len(),
                {
                    let entry = rest.remove(0);
                    proof {
                        assert(entry == original[k as int]);
                        assert(decreases_to!(whole => held));
                        assert(decreases_to!(held => held@));
                        assert(decreases_to!(held@ => held@[k as int]));
                        assert(decreases_to!(held@[k as int] => held@[k as int].value));
                        assert(decreases_to!(whole => entry.value));
                        lemma_entry_trees_index(original);
                        lemma_entry_trees_foldable(entry_trees_of(original), views_of(builtins@), k as int);
                        lemma_entry_trees_take(original, k + 1);
                        lemma_entry_trees_take(original, k as int);
                        assert(rest@ =~= original.skip(k + 1));
                    }
                    let MapLiteralEntry { key, value } = entry;
                    let ghost value_tree = tree_of(value);
                    let folded_value = match Self::literal(value, builtins) {
                        Some(v) => v,
                        None => {
                            proof {
                                assert(tree_of(whole) == Tree::MapLiteral(entry_trees_of(original)));
                                assert(entry_trees_of(original)[k as int].1 == value_tree);
                                if entry_trees_foldable(entry_trees_of(original), views_of(builtins@)) {
                                    lemma_entry_trees_prefix(entry_trees_of(original), views_of(builtins@), k + 1);
                                }
                            }
                            return None;
                        },
                    };
                    let ghost before = folded@;
                    folded.push(MapEntry::new(key, folded_value));
                    proof {
                        assert(folded@.drop_last() =~= before);
                        assert(entry_trees_of(original).take(k + 1).drop_last() =~= entry_trees_of(original).take(
                            k as int,
                        ));
                    }
                    k += 1;
                }
                proof {
                    assert(original.take(k as int) =~= original);
                    assert(tree_of(whole) == Tree::MapLiteral(entry_trees_of(original)));
                }
                Some(Value::Dictionary(folded))
            },
            Expression::Lambda { parameters, body } => {
                proof {
                    assert(tree_of(whole) == Tree::Lambda(views_of(parameters@), Box::new(tree_of(*body))));
                }
                Some(Value::Function(FunctionValue::lambda(parameters, *body)))
            },
            Expression::Variable(name) => {
                proof {
                    assert(tree_of(whole) == Tree::Variable(name@));
                }
                if is_builtin(name.as_str(), builtins) {
                    Some(Value::Function(FunctionValue::builtin(name)))
                } else {
                    None
                }
            },
            _ => None,
        }
    }
}

/// What indexing a value yields: an element of an array or map (the value
/// itself), one character of a string, or a domain error's message.
pub enum SubscriptOutcome {
    Element(Value),
    Character(char),
    Refused(Seq<char>),
}

/// An index read as an integer, or the message naming what went wrong.
pub open spec fn index_integer(index: Value, context: Seq<char>, what: Seq<char>) -> Result<int, Seq<char>> {
    match number_of(index) {
        None => Err("expected a number for "@ + context + ", got "@ + kind_name_of(index)),
        Some(v) => match crate::number::math::int_value_of(v) {
            Some(n) => Ok(n as int),
            None => Err(what + " must be an integer"@),
        },
    }
}

/// `index 5 is out of range (array has 3 elements)`.
pub open spec fn range_text(position: int, count: int, container: Seq<char>, unit: Seq<char>) -> Seq<char> {
    "index "@ + int_text(position) + " is out of range ("@ + container + " has "@ + int_text(count) + seq![' ']
        + unit + (if count == 1 { Seq::empty() } else { seq!['s'] }) + seq![')']
}

/// The keys of the entries, in order.
pub open spec fn entry_keys(s: Seq<MapEntry>) -> Seq<Seq<char>> {
    s.map_values(|e: MapEntry| e.key@)
}

/// `arr[0]` (0-based), `"abc"[0]`, `m["key"]`, `record["field"]`.
pub open spec fn subscript_of(base: Value, index: Value) -> SubscriptOutcome {
    match base {
        Value::Array(items) => match index_integer(index, "an array index"@, "array index"@) {
            Err(m) => SubscriptOutcome::Refused(m),
            Ok(p) => if 0 <= p < items@.len() {
                SubscriptOutcome::Element(items@[p])
            } else {
                SubscriptOutcome::Refused(range_text(p, items@.len() as int, "array"@, "element"@))
            },
        },
        Value::String(text) => match index_integer(index, "a string index"@, "string index"@) {
            Err(m) => SubscriptOutcome::Refused(m),
            Ok(p) => if 0 <= p < text@.len() {
                SubscriptOutcome::Character(text@[p])
            } else {
                SubscriptOutcome::Refused(range_text(p, text@.len() as int, "string"@, "character"@))
            },
        },
        Value::Dictionary(entries) => match index {
            Value::String(key) => match first_with_key(entries@, key@) {
                Some(i) => SubscriptOutcome::Element(entries@[i].value),
                None => SubscriptOutcome::Refused("no key '"@ + key@ + "' in map"@),
            },
            _ => SubscriptOutcome::Refused("map keys are strings — e.g. m[\"name\"], got "@ + kind_name_of(index)),
        },
        Value::Record(r) => match index {
            Value::String(key) => match first_with_key(r.entries@, key@) {
                Some(i) => SubscriptOutcome::Element(r.entries@[i].value),
                None => SubscriptOutcome::Refused(r.type_label@ + " has no field '"@ + key@ + "' — it has "@
                    + joined_with(entry_keys(r.entries@), ", "@)),
            },
            _ => SubscriptOutcome::Refused("map keys are strings — e.g. m[\"name\"], got "@ + kind_name_of(index)),
        },
        Value::Host(h) => SubscriptOutcome::Refused(h.type_label@ + " can't be indexed by "@ + kind_name_of(index)),
        _ => SubscriptOutcome::Refused(kind_name_of(base) + " can't be indexed"@),
    }
}

/// Does `r` report the outcome?
pub open spec fn reports_subscript(r: Result<Value, EngineError>, outcome: SubscriptOutcome) -> bool {
    match outcome {
        SubscriptOutcome::Element(v) => r == Ok::<Value, EngineError>(v),
        SubscriptOutcome::Character(c) => r matches Ok(Value::String(t)) && t@ == seq![c],
        SubscriptOutcome::Refused(m) => r matches Err(EngineError::DomainError { message }) && message@ == m,
    }
}

/// An index as an integer.
fn require_index(index: &Value, context: &str, what: &str) -> (r: Result<i64, EngineError>)
    requires
        value_wf(*index),
        number_of(*index) matches Some(v) ==> crate::number::digit_count_of(v) <= i64::MAX - 18,
    ensures
        match index_integer(*index, context@, what@) {
            Ok(n) => r == Ok::<i64, EngineError>(n as i64),
            Err(m) => r matches Err(EngineError::DomainError { message }) && message@ == m,
        },
{
    let number = match index.as_number(context) {
        Ok(n) => n,
        Err(e) => return Err(e),
    };
    match number.int_value() {
        Some(n) => Ok(n),
        None => {
            let mut message = String::from_str(what);
            message.append(" must be an integer");
            Err(EngineError::domain(message))
        },
    }
}

/// The out-of-range message.
fn range_message(position: i64, count: usize, container: &str, unit: &str) -> (r: String)
    requires
        count <= i64::MAX,
    ensures
        r@ == range_text(position as int, count as int, container@, unit@),
{
    let mut out = String::from_str("index ");
    let p = crate::text::i64_text(position);
    out.append(p.as_str());
    out.append(" is out of range (");
    out.append(container);
    out.append(" has ");
    let c = crate::text::i64_text(count as i64);
    out.append(c.as_str());
    push_char(&mut out, ' ');
    out.append(unit);
    if count != 1 {
        push_char(&mut out, 's');
    }
    push_char(&mut out, ')');
    proof {
        assert(out@ =~= range_text(position as int, count as int, container@, unit@));
    }
    out
}

/// The message for a map index that is not a string.
fn key_kind_message(index: &Value) -> (r: String)
    ensures
        r@ == "map keys are strings — e.g. m[\"name\"], got "@ + kind_name_of(*index),
{
    let mut message = String::from_str("map keys are strings — e.g. m[\"name\"], got ");
    let kind = index.kind_name();
    message.append(kind.as_str());
    message
}

/// Indexes a value: `arr[0]` (0-based), `"abc"[0]`, `m["key"]`. The base is
/// handed over and its element handed back; a host handle here is a
/// snapshot, which answers no indexing.
pub fn subscript_value(base: Value, index: &Value) -> (r: Result<Value, EngineError>)
    requires
        value_wf(*index),
        base matches Value::Array(items) ==> items@.len() <= i64::MAX,
        base matches Value::String(text) ==> text@.len() <= i64::MAX,
        number_of(*index) matches Some(v) ==> crate::number::digit_count_of(v) <= i64::MAX - 18,
    ensures
        reports_subscript(r, subscript_of(base, *index)),
{
    let base_kind = base.kind_name();
    match base {
        Value::Array(items) => {
            let position = match require_index(index, "an array index", "array index") {
                Ok(p) => p,
                Err(e) => return Err(e),
            };
            let count = items.len();
            if position < 0 || position >= count as i64 {
                return Err(EngineError::domain(range_message(position, count, "array", "element")));
            }
            let mut items = items;
            Ok(items.swap_remove(position as usize))
        },
        Value::String(text) => {
            let position = match require_index(index, "a string index", "string index") {
                Ok(p) => p,
                Err(e) => return Err(e),
            };
            let chars = crate::text::chars_of(text.as_str());
            let count = chars.len();
            if position < 0 || position >= count as i64 {
                return Err(EngineError::domain(range_message(position, count, "string", "character")));
            }
            let c = chars[position as usize];
            proof {
                assert(c == text@[position as int]);
            }
            let mut out = String::new();
            push_char(&mut out, c);
            proof {
                assert(out@ =~= seq![c]);
            }
            Ok(Value::String(out))
        },
        Value::Dictionary(entries) => match index {
            Value::String(key) => match find_key(&entries, key.as_str()) {
                Some(i) => {
                    let mut entries = entries;
                    let entry = entries.swap_remove(i);
                    Ok(entry.value)
                },
                None => {
                    let mut message = String::from_str("no key '");
                    message.append(key.as_str());
                    message.append("' in map");
                    Err(EngineError::domain(message))
                },
            },
            _ => Err(EngineError::domain(key_kind_message(index))),
        },
        Value::Record(record) => match index {
            Value::String(key) => match find_key(&record.entries, key.as_str()) {
                Some(i) => {
                    let mut entries = record.entries;
                    let entry = entries.swap_remove(i);
                    Ok(entry.value)
                },
                None => {
                    let mut keys: Vec<String> = Vec::new();
                    let mut j: usize = 0;
                    while j < record.entries.len()
                        invariant
                            j <= record.entries@.len(),
                            views_of(keys@) =~= entry_keys(record.entries@.take(j as int)),
                        decreases record.entries@.len() - j,
                    {
                        keys.push(record.entries[j].key.clone());
                        proof {
                            assert(entry_keys(record.entries@.take(j + 1)) =~= entry_keys(record.entries@.take(j as int)).push(
                                record.entries@[j as int].key@));
                        }
                        j += 1;
                    }
                    proof {
                        assert(record.entries@.take(j as int) =~= record.entries@);
                    }
                    let mut message = record.type_label.clone();
                    message.append(" has no field '");
                    message.append(key.as_str());
                    message.append("' — it has ");
                    let listed = join(&keys, ", ");
                    message.append(listed.as_str());
                    Err(EngineError::domain(message))
                },
            },
            _ => Err(EngineError::domain(key_kind_message(index))),
        },
        Value::Host(object) => {
            let mut message = object.type_label.clone();
            message.append(" can't be indexed by ");
            let kind = index.kind_name();
            message.append(kind.as_str());
            Err(EngineError::domain(message))
        },
        _ => {
            let mut message = base_kind;
            message.append(" can't be indexed");
            Err(EngineError::domain(message))
        },
    }
}

/// Every map in the value has distinct keys (the parser rejects
/// duplicates), at any depth.
pub open spec fn keys_unique(v: Value) -> bool
    decreases v,
{
    match v {
        Value::Array(items) => items_keys_unique(items@),
        Value::Dictionary(entries) => distinct_keys(entries@) && entries_keys_unique(entries@),
        Value::Record(r) => entries_keys_unique(r.entries@),
        Value::Function(f) => captures_keys_unique(f.captures@),
        _ => true,
    }
}

/// No two entries share a key.
pub open spec fn distinct_keys(s: Seq<MapEntry>) -> bool {
    forall|i: int, j: int| 0 <= i < j < s.len() ==> (#[trigger] s[i]).key@ != (#[trigger] s[j]).key@
}

/// Every item has distinct keys at any depth.
pub open spec fn items_keys_unique(s: Seq<Value>) -> bool
    decreases s,
{
    if s.len() == 0 { true } else { items_keys_unique(s.drop_last()) && keys_unique(s.last()) }
}

/// Every entry value has distinct keys at any depth.
pub open spec fn entries_keys_unique(s: Seq<MapEntry>) -> bool
    decreases s,
{
    if s.len() == 0 { true } else { entries_keys_unique(s.drop_last()) && keys_unique(s.last().value) }
}

/// Every captured value has distinct keys at any depth.
pub open spec fn captures_keys_unique(s: Seq<(String, Value)>) -> bool
    decreases s,
{
    if s.len() == 0 { true } else { captures_keys_unique(s.drop_last()) && keys_unique(s.last().1) }
}

/// Every value equals itself, read in either direction, once its maps have
/// distinct keys (a map holding one key twice with different values does
/// not equal itself, since a key is looked up by its first occurrence).
pub proof fn lemma_equality_reflexive(v: Value, flip: bool)
    requires
        keys_unique(v),
    ensures
        eq_dir(v, v, flip),
    decreases v, 0int, 0int,
{
    match v {
        Value::Array(items) => lemma_items_reflexive(items@, flip),
        Value::Dictionary(entries) => {
            if flip {
                lemma_found_back_self(entries@, entries@.len() as int);
                assert(entries@.take(entries@.len() as int) =~= entries@);
            } else {
                lemma_found_forth_self(entries@, entries@.len() as int);
                assert(entries@.take(entries@.len() as int) =~= entries@);
            }
        },
        Value::Record(r) => {
            lemma_record_entries_reflexive(r.entries@, flip);
            let names = views_of(r.boolean_fields@);
            assert forall|i: int| 0 <= i < names.len() implies names.contains(#[trigger] names[i]) by {}
        },
        Value::Function(f) => lemma_captures_reflexive(f.captures@, flip),
        _ => {},
    }
}

/// A list equals itself item by item.
proof fn lemma_items_reflexive(s: Seq<Value>, flip: bool)
    requires
        items_keys_unique(s),
    ensures
        items_eq_dir(s, s, flip),
    decreases s, 0int, 0int,
{
    if s.len() > 0 {
        lemma_items_reflexive(s.drop_last(), flip);
        lemma_equality_reflexive(s.last(), flip);
    }
}

/// A record's entries equal themselves entry by entry.
proof fn lemma_record_entries_reflexive(s: Seq<MapEntry>, flip: bool)
    requires
        entries_keys_unique(s),
    ensures
        record_entries_eq_dir(s, s, flip),
    decreases s, 0int, 0int,
{
    if s.len() > 0 {
        lemma_record_entries_reflexive(s.drop_last(), flip);
        lemma_equality_reflexive(s.last().value, flip);
    }
}

/// Captures equal themselves capture by capture.
proof fn lemma_captures_reflexive(s: Seq<(String, Value)>, flip: bool)
    requires
        captures_keys_unique(s),
    ensures
        captures_eq_dir(s, s, flip),
    decreases s, 0int, 0int,
{
    if s.len() > 0 {
        lemma_captures_reflexive(s.drop_last(), flip);
        lemma_equality_reflexive(s.last().1, flip);
    }
}

/// Each entry value of a list with distinct keys at any depth has them.
proof fn lemma_entry_keys_unique(s: Seq<MapEntry>, i: int)
    requires
        entries_keys_unique(s),
        0 <= i < s.len(),
    ensures
        keys_unique(s[i].value),
    decreases s.len(),
{
    if i < s.len() - 1 {
        lemma_entry_keys_unique(s.drop_last(), i);
    }
}

/// With distinct keys, a key is first found where it stands.
proof fn lemma_found_at(b: Seq<MapEntry>, i: int)
    requires
        distinct_keys(b),
        0 <= i < b.len(),
    ensures
        first_with_key(b, b[i].key@) == Some(i),
{
    assert forall|j: int| 0 <= j < i implies b[j].key@ != b[i].key@ by {}
    lemma_first_with_key(b, b[i].key@, i);
}

/// Each key of a prefix of `b` is found in `b` with an equal value.
proof fn lemma_found_forth_self(b: Seq<MapEntry>, k: int)
    requires
        distinct_keys(b),
        entries_keys_unique(b),
        0 <= k <= b.len(),
    ensures
        found_forth(b.take(k), b),
    decreases b, k, 0int,
{
    if k > 0 {
        lemma_found_forth_self(b, k - 1);
        assert(b.take(k).drop_last() =~= b.take(k - 1));
        assert(b.take(k).last() == b[k - 1]);
        lemma_found_at(b, k - 1);
        lemma_entry_keys_unique(b, k - 1);
        lemma_equality_reflexive(b[k - 1].value, true);
    }
}

/// Each key of a prefix of `b` is found in `b` with an equal value, read
/// from the right side.
proof fn lemma_found_back_self(b: Seq<MapEntry>, k: int)
    requires
        distinct_keys(b),
        entries_keys_unique(b),
        0 <= k <= b.len(),
    ensures
        found_back(b, b.take(k)),
    decreases b, k, 0int,
{
    if k > 0 {
        lemma_found_back_self(b, k - 1);
        assert(b.take(k).drop_last() =~= b.take(k - 1));
        assert(b.take(k).last() == b[k - 1]);
        lemma_found_at(b, k - 1);
        lemma_entry_keys_unique(b, k - 1);
        lemma_equality_reflexive(b[k - 1].value, false);
    }
}

} // verus!
