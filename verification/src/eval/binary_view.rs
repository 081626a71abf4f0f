//! The bit-editor's format types: a `FieldSpec` (a named bit range in a
//! format) and why a value cannot be bit-edited.

use vstd::prelude::*;
use vstd::arithmetic::power::*;
use crate::bigint::{BigInteger, abs};
use crate::eval::value::{Value, MapEntry, value_wf, first_with_key, find_key, entries_wf, items_wf, lemma_entries_wf,
    lemma_items_wf};
use crate::number::{BigDecimal, pow10, canonical};
use crate::text::views_of;

verus! {

/// Widths are capped at 256 bits.
pub const MAX_WIDTH: u32 = 256;

/// Why a value can't be bit-edited (the host shows the matching hint).
#[derive(Debug, Clone, Copy, PartialEq, Eq)]
pub enum Unavailable {
    /// A decimal/string/array/…: no bits to edit.
    NotAnInteger,
    /// A plain negative number: wrap it in a signed Int type.
    Negative,
    /// Needs more than 256 bits (a huge integer).
    TooWide,
}

#[derive(Debug, Clone, Copy, PartialEq, Eq)]
pub enum Kind {
    /// A bare Number, edited as an unsigned register.
    Plain,
    /// An Int…/UInt… value, edited in two's-complement.
    Fixed { signed: bool },
}

/// A field in a format: a named bit range. Three flavors, mutually
/// exclusive: a plain numeric field (no flags, no values); a flags field
/// with per-bit names (high→low, count == width); or an enum field whose
/// unsigned value indexes a label list. Plus the reserved / unused gap
/// markers.
#[derive(Debug, Clone, PartialEq, Eq)]
pub struct FieldSpec {
    pub name: String,
    pub width: u32,
    pub flags: Option<Vec<String>>,
    pub values: Option<Vec<String>>,
    /// A presentational color name (the host maps it to a real color);
    /// `None` means the host cycles a palette by position.
    pub color: Option<String>,
    /// The radix a numeric field's value is shown and entered in: 2, 8, 10
    /// or 16; `None` is decimal.
    pub base: Option<u32>,
    /// A reserved gap: locked, must-be-zero bits.
    pub reserved: bool,
    /// An unused gap: don't-care bits, unlabeled but editable.
    pub unused: bool,
}

/// A field spec as a mathematical value.
pub struct SpecModel {
    pub name: Seq<char>,
    pub width: u32,
    pub flags: Option<Seq<Seq<char>>>,
    pub values: Option<Seq<Seq<char>>>,
    pub color: Option<Seq<char>>,
    pub base: Option<u32>,
    pub reserved: bool,
    pub unused: bool,
}

impl View for FieldSpec {
    type V = SpecModel;

    open spec fn view(&self) -> SpecModel {
        SpecModel {
            name: self.name@,
            width: self.width,
            flags: list_view(self.flags),
            values: list_view(self.values),
            color: match self.color {
                Some(c) => Some(c@),
                None => None,
            },
            base: self.base,
            reserved: self.reserved,
            unused: self.unused,
        }
    }
}

/// The strings of a list of names.
pub open spec fn str_views(items: Seq<&str>) -> Seq<Seq<char>> {
    items.map_values(|s: &str| s@)
}

/// An optional list of strings by its views.
pub open spec fn list_view(o: Option<Vec<String>>) -> Option<Seq<Seq<char>>> {
    match o {
        Some(v) => Some(views_of(v@)),
        None => None,
    }
}

/// Owned copies of a list of names.
fn owned_strings(items: &[&str]) -> (r: Vec<String>)
    ensures
        views_of(r@) == str_views(items@),
{
    let mut out: Vec<String> = Vec::new();
    let mut i: usize = 0;
    while i < items.len()
        invariant
            i <= items@.len(),
            views_of(out@) =~= str_views(items@.take(i as int)),
        decreases items@.len() - i,
    {
        out.push(String::from_str(items[i]));
        proof {
            assert(str_views(items@.take(i + 1)) =~= str_views(items@.take(i as int)).push(items@[i as int]@));
        }
        i += 1;
    }
    proof {
        assert(items@.take(i as int) =~= items@);
    }
    out
}

impl FieldSpec {
    /// A plain numeric field; the builder methods refine it into the other
    /// flavors.
    pub fn new(name: &str, width: u32) -> (r: Self)
        ensures
            r.name@ == name@,
            r.width == width,
            r.flags.is_none(),
            r.values.is_none(),
            r.color.is_none(),
            r.base.is_none(),
            !r.reserved,
            !r.unused,
    {
        FieldSpec {
            name: String::from_str(name),
            width,
            flags: None,
            values: None,
            color: None,
            base: None,
            reserved: false,
            unused: false,
        }
    }

    /// A flags field with these per-bit names.
    pub fn with_flags(self, flags: &[&str]) -> (r: Self)
        ensures
            r == (FieldSpec { flags: r.flags, ..self }),
            list_view(r.flags) == Some(str_views(flags@)),
    {
        FieldSpec { flags: Some(owned_strings(flags)), ..self }
    }

    /// An enum field with these value labels.
    pub fn with_values(self, values: &[&str]) -> (r: Self)
        ensures
            r == (FieldSpec { values: r.values, ..self }),
            list_view(r.values) == Some(str_views(values@)),
    {
        FieldSpec { values: Some(owned_strings(values)), ..self }
    }

    /// The field drawn in this palette color.
    pub fn with_color(self, color: &str) -> (r: Self)
        ensures
            r == (FieldSpec { color: r.color, ..self }),
            r.color matches Some(c) && c@ == color@,
    {
        FieldSpec { color: Some(String::from_str(color)), ..self }
    }

    /// A numeric field shown in this radix.
    pub fn with_base(self, base: u32) -> (r: Self)
        ensures
            r == (FieldSpec { base: Some(base), ..self }),
    {
        FieldSpec { base: Some(base), ..self }
    }

    /// The field as a reserved gap.
    pub fn as_reserved(self) -> (r: Self)
        ensures
            r == (FieldSpec { reserved: true, ..self }),
    {
        FieldSpec { reserved: true, ..self }
    }

    /// The field as an unused gap.
    pub fn as_unused(self) -> (r: Self)
        ensures
            r == (FieldSpec { unused: true, ..self }),
    {
        FieldSpec { unused: true, ..self }
    }
}

/// A plain numeric field's model.
pub open spec fn plain_spec(name: Seq<char>, width: u32) -> SpecModel {
    SpecModel { name, width, flags: None, values: None, color: None, base: None, reserved: false, unused: false }
}

/// The value under `key` in the entries, if any (the first such entry).
pub open spec fn member_of(entries: Seq<MapEntry>, key: Seq<char>) -> Option<Value> {
    match first_with_key(entries, key) {
        Some(i) => Some(entries[i].value),
        None => None,
    }
}

/// A positive integer bit width that fits a `u32`.
pub open spec fn width_of(v: (int, int)) -> Option<u32> {
    if v.1 >= 0 && 1 <= v.0 * pow10(v.1) <= u32::MAX { Some((v.0 * pow10(v.1)) as u32) } else { None }
}

/// The strings of a list of values, if every item is a string.
pub open spec fn strings_of(items: Seq<Value>) -> Option<Seq<Seq<char>>>
    decreases items.len(),
{
    if items.len() == 0 {
        Some(Seq::empty())
    } else {
        match (strings_of(items.drop_last()), items.last()) {
            (Some(front), Value::String(t)) => Some(front.push(t@)),
            _ => None,
        }
    }
}

/// An array member's strings.
pub open spec fn string_list_of(o: Option<Value>) -> Option<Seq<Seq<char>>> {
    match o {
        Some(Value::Array(items)) => strings_of(items@),
        _ => None,
    }
}

/// A display radix from a `base` member: only 2, 8 and 16 are honored;
/// anything else is decimal (`None`).
pub open spec fn base_of(o: Option<Value>) -> Option<u32> {
    match o {
        Some(Value::Number(n)) => if n@ == (2int, 0int) {
            Some(2u32)
        } else if n@ == (8int, 0int) {
            Some(8u32)
        } else if n@ == (16int, 0int) {
            Some(16u32)
        } else {
            None
        },
        _ => None,
    }
}

/// A loose-map flag: set when it is a nonzero number.
pub open spec fn flag_of(o: Option<Value>) -> bool {
    o matches Some(Value::Number(n)) && n@.0 != 0
}

/// One entry of a loose layout map: a width, a list of flag names, or a
/// richer field map (`{bits, base}`, `{bits, values}`, `{bits, reserved}`,
/// `{bits, unused}`).
pub open spec fn loose_field(e: MapEntry) -> Option<SpecModel> {
    match e.value {
        Value::Number(n) => match width_of(n@) {
            Some(w) => Some(plain_spec(e.key@, w)),
            None => None,
        },
        Value::Array(items) => if items@.len() == 0 {
            None
        } else {
            match strings_of(items@) {
                Some(names) => Some(SpecModel { flags: Some(names), ..plain_spec(e.key@, names.len() as u32) }),
                None => None,
            }
        },
        Value::Dictionary(inner) => match member_of(inner@, "bits"@) {
            Some(Value::Number(n)) => match width_of(n@) {
                None => None,
                Some(w) => if flag_of(member_of(inner@, "reserved"@)) {
                    Some(SpecModel { reserved: true, ..plain_spec(e.key@, w) })
                } else if flag_of(member_of(inner@, "unused"@)) {
                    Some(SpecModel { unused: true, ..plain_spec(e.key@, w) })
                } else if (string_list_of(member_of(inner@, "values"@)) matches Some(vs) && vs.len() > 0) {
                    Some(SpecModel { values: string_list_of(member_of(inner@, "values"@)), ..plain_spec(e.key@, w) })
                } else {
                    Some(SpecModel { base: base_of(member_of(inner@, "base"@)), ..plain_spec(e.key@, w) })
                },
            },
            _ => None,
        },
        _ => None,
    }
}

/// One `BitField` record of a typed format: its kind decides, else which
/// list is non-empty.
pub open spec fn record_field(v: Value) -> Option<SpecModel> {
    match v {
        Value::Record(field) => match member_of(field.entries@, "name"@) {
            Some(Value::String(name)) => {
                let es = field.entries@;
                let kind = match member_of(es, "kind"@) {
                    Some(Value::String(k)) => Some(k@),
                    _ => None,
                };
                let color = match member_of(es, "color"@) {
                    Some(Value::String(c)) => if c@.len() > 0 { Some(c@) } else { None },
                    _ => None,
                };
                let base = base_of(member_of(es, "base"@));
                let flags = string_list_of(member_of(es, "flags"@));
                let values = string_list_of(member_of(es, "values"@));
                let bits = match member_of(es, "bits"@) {
                    Some(Value::Number(n)) => width_of(n@),
                    _ => None,
                };
                if kind == Some("reserved"@) {
                    match bits {
                        Some(w) => Some(SpecModel { color, reserved: true, ..plain_spec(name@, w) }),
                        None => None,
                    }
                } else if kind == Some("unused"@) {
                    match bits {
                        Some(w) => Some(SpecModel { color, unused: true, ..plain_spec(name@, w) }),
                        None => None,
                    }
                } else if (kind == Some("flags"@) || kind is None) && (flags matches Some(f) && f.len() > 0) {
                    Some(SpecModel { flags, color, ..plain_spec(name@, flags.unwrap().len() as u32) })
                } else if (kind == Some("enum"@) || kind is None) && (values matches Some(vs) && vs.len() > 0)
                    && bits is Some {
                    Some(SpecModel { values, color, ..plain_spec(name@, bits.unwrap()) })
                } else {
                    match bits {
                        Some(w) => Some(SpecModel { color, base, ..plain_spec(name@, w) }),
                        None => None,
                    }
                }
            },
            _ => None,
        },
        _ => None,
    }
}

/// The fields of a loose map, in order, if every entry is one.
pub open spec fn loose_layout(s: Seq<MapEntry>) -> Option<Seq<SpecModel>>
    decreases s.len(),
{
    if s.len() == 0 {
        Some(Seq::empty())
    } else {
        match (loose_layout(s.drop_last()), loose_field(s.last())) {
            (Some(front), Some(f)) => Some(front.push(f)),
            _ => None,
        }
    }
}

/// The fields of a typed format's list, in order, if every item is one.
pub open spec fn record_layout(s: Seq<Value>) -> Option<Seq<SpecModel>>
    decreases s.len(),
{
    if s.len() == 0 {
        Some(Seq::empty())
    } else {
        match (record_layout(s.drop_last()), record_field(s.last())) {
            (Some(front), Some(f)) => Some(front.push(f)),
            _ => None,
        }
    }
}

/// A layout from a loose map (first entry = highest field) or a typed
/// `Bits::BitFormat` record with a `fields` list; `None` for anything else
/// or an empty one.
pub open spec fn layout_of(v: Value) -> Option<Seq<SpecModel>> {
    match v {
        Value::Dictionary(entries) => if entries@.len() == 0 { None } else { loose_layout(entries@) },
        Value::Record(r) => match member_of(r.entries@, "fields"@) {
            Some(Value::Array(items)) => if items@.len() == 0 { None } else { record_layout(items@) },
            _ => None,
        },
        _ => None,
    }
}

/// The views of a list of field specs.
pub open spec fn spec_views(s: Seq<FieldSpec>) -> Seq<SpecModel> {
    s.map_values(|f: FieldSpec| f@)
}

/// The value under `key`, if any.
fn member<'a>(entries: &'a Vec<MapEntry>, key: &str) -> (r: Option<&'a Value>)
    ensures
        match member_of(entries@, key@) {
            Some(v) => r matches Some(x) && *x == v,
            None => r is None,
        },
{
    match find_key(entries, key) {
        Some(i) => Some(&entries[i].value),
        None => None,
    }
}

/// A positive integer width that fits a `u32`.
fn integer_width(n: &BigDecimal) -> (r: Option<u32>)
    requires
        n.wf(),
    ensures
        r == width_of(n@),
{
    if n.exponent() < 0 || n.exponent() > 9 {
        proof {
            if n@.1 > 9 && n@.0 != 0 {
                lemma_pow_increases(10, 10, n@.1 as nat);
                assert(pow(10, 10) == 10_000_000_000) by {
                    reveal_with_fuel(pow, 11);
                }
                assert(abs(n@.0) * pow10(n@.1) >= pow10(n@.1)) by (nonlinear_arith)
                    requires abs(n@.0) >= 1, pow10(n@.1) >= 0;
                if n@.0 > 0 {
                    assert(n@.0 * pow10(n@.1) > u32::MAX);
                } else {
                    assert(n@.0 * pow10(n@.1) < 0) by (nonlinear_arith)
                        requires n@.0 < 0, pow10(n@.1) > 0;
                }
            } else if n@.1 > 9 {
                assert(n@.0 * pow10(n@.1) == 0);
            }
        }
        return None;
    }
    match n.big_int_value() {
        Some(w) => {
            if w.less_than(&BigInteger::from_i64(1)) {
                None
            } else {
                w.to_u32()
            }
        },
        None => None,
    }
}

/// The strings of a list of values, if every item is a string.
fn string_items(items: &Vec<Value>) -> (r: Option<Vec<String>>)
    ensures
        match strings_of(items@) {
            Some(s) => r matches Some(v) && views_of(v@) == s,
            None => r is None,
        },
{
    let mut names: Vec<String> = Vec::new();
    let mut i: usize = 0;
    while i < items.len()
        invariant
            i <= items@.len(),
            strings_of(items@.take(i as int)) == Some(views_of(names@)),
        decreases items@.len() - i,
    {
        proof {
            assert(items@.take(i + 1).drop_last() =~= items@.take(i as int));
            assert(items@.take(i + 1).last() == items@[i as int]);
        }
        match &items[i] {
            Value::String(name) => {
                let ghost before = names@;
                names.push(name.clone());
                proof {
                    assert(views_of(names@) =~= views_of(before).push(name@));
                }
            },
            _ => {
                proof {
                    lemma_strings_prefix(items@, i as int + 1);
                }
                return None;
            },
        }
        i += 1;
    }
    proof {
        assert(items@.take(i as int) =~= items@);
    }
    Some(names)
}

/// A list whose prefix is not all strings is not all strings.
proof fn lemma_strings_prefix(s: Seq<Value>, k: int)
    requires
        0 <= k <= s.len(),
        strings_of(s.take(k)) is None,
    ensures
        strings_of(s) is None,
    decreases s.len(),
{
    if k < s.len() {
        assert(s.drop_last().take(k) =~= s.take(k));
        lemma_strings_prefix(s.drop_last(), k);
    } else {
        assert(s.take(k) =~= s);
    }
}

/// An array member's strings.
fn string_list(value: Option<&Value>) -> (r: Option<Vec<String>>)
    ensures
        match string_list_of(match value { Some(v) => Some(*v), None => None }) {
            Some(s) => r matches Some(v) && views_of(v@) == s,
            None => r is None,
        },
{
    match value {
        Some(Value::Array(items)) => string_items(items),
        _ => None,
    }
}

/// A display radix from a `base` member.
fn normalized_base(value: Option<&Value>) -> (r: Option<u32>)
    requires
        value matches Some(v) ==> value_wf(*v),
    ensures
        r == base_of(match value { Some(v) => Some(*v), None => None }),
{
    match value {
        Some(Value::Number(n)) => {
            if n.equals(&BigDecimal::from_int(2)) {
                Some(2)
            } else if n.equals(&BigDecimal::from_int(8)) {
                Some(8)
            } else if n.equals(&BigDecimal::from_int(16)) {
                Some(16)
            } else {
                None
            }
        },
        _ => None,
    }
}

/// A loose-map flag: a nonzero number.
fn flag_set(value: Option<&Value>) -> (r: bool)
    requires
        value matches Some(v) ==> value_wf(*v),
    ensures
        r == flag_of(match value { Some(v) => Some(*v), None => None }),
{
    match value {
        Some(Value::Number(n)) => !n.is_zero(),
        _ => false,
    }
}

/// One entry of a loose layout map.
fn loose_entry(e: &MapEntry) -> (r: Option<FieldSpec>)
    requires
        value_wf(e.value),
    ensures
        match loose_field(*e) {
            Some(m) => r matches Some(f) && f@ == m,
            None => r is None,
        },
{
    match &e.value {
        Value::Number(n) => match integer_width(n) {
            Some(w) => Some(FieldSpec::new(e.key.as_str(), w)),
            None => None,
        },
        Value::Array(items) => {
            if items.len() == 0 {
                return None;
            }
            match string_items(items) {
                Some(names) => {
                    let width = names.len() as u32;
                    Some(FieldSpec { flags: Some(names), ..FieldSpec::new(e.key.as_str(), width) })
                },
                None => None,
            }
        },
        Value::Dictionary(inner) => {
            proof {
                lemma_members_wf(inner@);
            }
            let n = match member(inner, "bits") {
                Some(Value::Number(n)) => n,
                _ => return None,
            };
            let w = match integer_width(n) {
                Some(w) => w,
                None => return None,
            };
            if flag_set(member(inner, "reserved")) {
                Some(FieldSpec::new(e.key.as_str(), w).as_reserved())
            } else if flag_set(member(inner, "unused")) {
                Some(FieldSpec::new(e.key.as_str(), w).as_unused())
            } else {
                match string_list(member(inner, "values")) {
                    Some(values) => {
                        if values.len() > 0 {
                            Some(FieldSpec { values: Some(values), ..FieldSpec::new(e.key.as_str(), w) })
                        } else {
                            Some(FieldSpec { base: normalized_base(member(inner, "base")), ..FieldSpec::new(e.key.as_str(), w) })
                        }
                    },
                    None => Some(FieldSpec { base: normalized_base(member(inner, "base")), ..FieldSpec::new(e.key.as_str(), w) }),
                }
            }
        },
        _ => None,
    }
}

/// Every member value of well-formed entries is well formed.
proof fn lemma_members_wf(s: Seq<MapEntry>)
    requires
        entries_wf(s),
    ensures
        forall|k: Seq<char>| #[trigger] member_of(s, k) is Some ==> value_wf(member_of(s, k)->Some_0),
{
    assert forall|k: Seq<char>| #[trigger] member_of(s, k) is Some implies value_wf(member_of(s, k)->Some_0) by {
        crate::eval::value::lemma_first_with_key_bound(s, k);
        if let Some(i) = first_with_key(s, k) {
            lemma_entries_wf(s, i);
        }
    }
}

/// The string under `key`, if it is one.
fn string_member<'a>(entries: &'a Vec<MapEntry>, key: &str) -> (r: Option<&'a String>)
    ensures
        match member_of(entries@, key@) {
            Some(Value::String(t)) => r matches Some(x) && x@ == t@,
            _ => r is None,
        },
{
    match member(entries, key) {
        Some(Value::String(t)) => Some(t),
        _ => None,
    }
}

/// One `BitField` record of a typed format.
fn record_entry(v: &Value) -> (r: Option<FieldSpec>)
    requires
        value_wf(*v),
    ensures
        match record_field(*v) {
            Some(m) => r matches Some(f) && f@ == m,
            None => r is None,
        },
{
    let field = match v {
        Value::Record(field) => field,
        _ => return None,
    };
    proof {
        lemma_members_wf(field.entries@);
    }
    let es = &field.entries;
    let name = match string_member(es, "name") {
        Some(n) => n,
        None => return None,
    };
    let kind = string_member(es, "kind");
    let color: Option<String> = match string_member(es, "color") {
        Some(c) => if crate::text::chars_of(c.as_str()).len() > 0 { Some(c.clone()) } else { None },
        None => None,
    };
    let base = normalized_base(member(es, "base"));
    let flags = string_list(member(es, "flags"));
    let values = string_list(member(es, "values"));
    let bits = match member(es, "bits") {
        Some(Value::Number(n)) => integer_width(n),
        _ => None,
    };
    let is_kind = |k: &str| -> (b: bool)
        ensures
            b == (kind matches Some(x) && x@ == k@),
    {
        match kind {
            Some(x) => crate::eval::currency::str_equal(x.as_str(), k),
            None => false,
        }
    };
    proof {
        reveal_strlit("reserved");
        reveal_strlit("unused");
        reveal_strlit("flags");
        reveal_strlit("enum");
    }
    if is_kind("reserved") {
        match bits {
            Some(w) => Some(FieldSpec { color, ..FieldSpec::new(name.as_str(), w).as_reserved() }),
            None => None,
        }
    } else if is_kind("unused") {
        match bits {
            Some(w) => Some(FieldSpec { color, ..FieldSpec::new(name.as_str(), w).as_unused() }),
            None => None,
        }
    } else if (is_kind("flags") || kind.is_none()) && flags.is_some() && flags.as_ref().unwrap().len() > 0 {
        let f = flags.unwrap();
        let width = f.len() as u32;
        Some(FieldSpec { flags: Some(f), color, ..FieldSpec::new(name.as_str(), width) })
    } else if (is_kind("enum") || kind.is_none()) && values.is_some() && values.as_ref().unwrap().len() > 0
        && bits.is_some() {
        Some(FieldSpec { values, color, ..FieldSpec::new(name.as_str(), bits.unwrap()) })
    } else {
        match bits {
            Some(w) => Some(FieldSpec { color, base, ..FieldSpec::new(name.as_str(), w) }),
            None => None,
        }
    }
}

/// Parses a layout from a loose map (each entry a positive integer width,
/// an array of per-bit flag names, or a richer field map) or a typed
/// `Bits::BitFormat` record with a `fields` list of `BitField` records.
/// Insertion order is kept (first = highest field); `None` if it is neither
/// shape.
pub fn layout(value: &Value) -> (r: Option<Vec<FieldSpec>>)
    requires
        value_wf(*value),
    ensures
        match layout_of(*value) {
            Some(specs) => r matches Some(v) && spec_views(v@) == specs,
            None => r is None,
        },
{
    match value {
        Value::Dictionary(entries) => {
            if entries.len() == 0 {
                return None;
            }
            let mut out: Vec<FieldSpec> = Vec::new();
            let mut i: usize = 0;
            while i < entries.len()
                invariant
                    i <= entries@.len(),
                    entries_wf(entries@),
                    layout_of(*value) == loose_layout(entries@),
                    loose_layout(entries@.take(i as int)) == Some(spec_views(out@)),
                decreases entries@.len() - i,
            {
                proof {
                    lemma_entries_wf(entries@, i as int);
                    assert(entries@.take(i + 1).drop_last() =~= entries@.take(i as int));
                    assert(entries@.take(i + 1).last() == entries@[i as int]);
                }
                match loose_entry(&entries[i]) {
                    Some(f) => {
                        let ghost before = out@;
                        out.push(f);
                        proof {
                            assert(spec_views(out@) =~= spec_views(before).push(out@.last()@));
                        }
                    },
                    None => {
                        proof {
                            assert(loose_field(entries@.take(i + 1).last()) is None);
                            assert(loose_layout(entries@.take(i + 1)) is None);
                            lemma_loose_prefix(entries@, i as int + 1);
                        }
                        return None;
                    },
                }
                i += 1;
            }
            proof {
                assert(entries@.take(i as int) =~= entries@);
            }
            Some(out)
        },
        Value::Record(record) => {
            proof {
                lemma_members_wf(record.entries@);
            }
            let items = match member(&record.entries, "fields") {
                Some(Value::Array(items)) => items,
                _ => return None,
            };
            if items.len() == 0 {
                return None;
            }
            let mut out: Vec<FieldSpec> = Vec::new();
            let mut i: usize = 0;
            while i < items.len()
                invariant
                    i <= items@.len(),
                    items_wf(items@),
                    layout_of(*value) == record_layout(items@),
                    record_layout(items@.take(i as int)) == Some(spec_views(out@)),
                decreases items@.len() - i,
            {
                proof {
                    lemma_items_wf(items@, i as int);
                    assert(items@.take(i + 1).drop_last() =~= items@.take(i as int));
                    assert(items@.take(i + 1).last() == items@[i as int]);
                }
                match record_entry(&items[i]) {
                    Some(f) => {
                        let ghost before = out@;
                        out.push(f);
                        proof {
                            assert(spec_views(out@) =~= spec_views(before).push(out@.last()@));
                        }
                    },
                    None => {
                        proof {
                            assert(record_field(items@.take(i + 1).last()) is None);
                            assert(record_layout(items@.take(i + 1)) is None);
                            lemma_record_prefix(items@, i as int + 1);
                        }
                        return None;
                    },
                }
                i += 1;
            }
            proof {
                assert(items@.take(i as int) =~= items@);
            }
            Some(out)
        },
        _ => None,
    }
}

/// A loose map with a failing prefix fails.
proof fn lemma_loose_prefix(s: Seq<MapEntry>, k: int)
    requires
        0 <= k <= s.len(),
        loose_layout(s.take(k)) is None,
    ensures
        loose_layout(s) is None,
    decreases s.len(),
{
    if k < s.len() {
        assert(s.drop_last().take(k) =~= s.take(k));
        lemma_loose_prefix(s.drop_last(), k);
    } else {
        assert(s.take(k) =~= s);
    }
}

/// A field list with a failing prefix fails.
proof fn lemma_record_prefix(s: Seq<Value>, k: int)
    requires
        0 <= k <= s.len(),
        record_layout(s.take(k)) is None,
    ensures
        record_layout(s) is None,
    decreases s.len(),
{
    if k < s.len() {
        assert(s.drop_last().take(k) =~= s.take(k));
        lemma_record_prefix(s.drop_last(), k);
    } else {
        assert(s.take(k) =~= s);
    }
}

} // verus!
