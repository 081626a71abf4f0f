//! A user-declared record type: `data Person { name: String, age: Number,
//! active: Boolean }`. The original `source` line is kept for workbook
//! serialization, including any trailing `# doc comment`, which is the
//! type's documentation.

use vstd::prelude::*;
use crate::eval::currency::str_equal;
use crate::eval::value::{Value, MapEntry, value_wf, items_wf, entries_wf, kind_name_of, lemma_items_wf, lemma_entries_wf};
use crate::number::BigDecimal;
use crate::error::EngineError;
use crate::text::ascii_folded;
use crate::text::{to_lowercase, lowercase, chars_of, trim, trimmed, is_uppercase, char_is_uppercase, join,
    joined_with, views_of, contains_double_colon, has_double_colon};

verus! {

/// A field type as a mathematical value.
pub enum FieldTypeModel {
    Number,
    String,
    Boolean,
    Record(Seq<char>),
    List(Box<FieldTypeModel>),
    StringMap(Box<FieldTypeModel>),
}

/// A field's type: a built-in scalar, `Record(name)` (another declared data
/// type, so records nest), or the composite `List(T)` (`[String]`) and
/// `Map(T)` (`{String: Number}`, a string-keyed map of `T`).
#[derive(Debug, PartialEq)]
pub enum DataFieldType {
    Number,
    String,
    Boolean,
    /// A declared data type, e.g. Point.
    Record(String),
    /// [T]
    List(Box<DataFieldType>),
    /// {String: T}
    StringMap(Box<DataFieldType>),
}

/// The model of a field type.
pub open spec fn field_type_model(t: DataFieldType) -> FieldTypeModel
    decreases t,
{
    match t {
        DataFieldType::Number => FieldTypeModel::Number,
        DataFieldType::String => FieldTypeModel::String,
        DataFieldType::Boolean => FieldTypeModel::Boolean,
        DataFieldType::Record(name) => FieldTypeModel::Record(name@),
        DataFieldType::List(element) => FieldTypeModel::List(Box::new(field_type_model(*element))),
        DataFieldType::StringMap(value) => FieldTypeModel::StringMap(Box::new(field_type_model(*value))),
    }
}

impl View for DataFieldType {
    type V = FieldTypeModel;

    open spec fn view(&self) -> FieldTypeModel {
        field_type_model(*self)
    }
}

/// The canonical spelling: `Number`, `Point`, `[String]`, `{String: Number}`.
pub open spec fn type_label(t: FieldTypeModel) -> Seq<char>
    decreases t,
{
    match t {
        FieldTypeModel::Number => "Number"@,
        FieldTypeModel::String => "String"@,
        FieldTypeModel::Boolean => "Boolean"@,
        FieldTypeModel::Record(name) => name,
        FieldTypeModel::List(element) => seq!['['] + type_label(*element) + seq![']'],
        FieldTypeModel::StringMap(value) => "{String: "@ + type_label(*value) + seq!['}'],
    }
}

/// The leaf type a single written token names: a scalar (any letter case)
/// or, when it starts with an uppercase letter, a data-type name.
pub open spec fn leaf_type_named(text: Seq<char>) -> Option<FieldTypeModel> {
    let lowered = lowercase(text);
    if lowered == "number"@ {
        Some(FieldTypeModel::Number)
    } else if lowered == "string"@ {
        Some(FieldTypeModel::String)
    } else if lowered == "boolean"@ {
        Some(FieldTypeModel::Boolean)
    } else if text.len() > 0 && char_is_uppercase(text[0]) {
        Some(FieldTypeModel::Record(text))
    } else {
        None
    }
}

/// The qualified name a namespace scope gives `key`: the first pair whose
/// simple (lowercased) name is `key`.
pub open spec fn scope_lookup(scope: Seq<(String, String)>, key: Seq<char>) -> Option<Seq<char>>
    decreases scope.len(),
{
    if scope.len() == 0 {
        None
    } else if scope[0].0@ == key {
        Some(scope[0].1@)
    } else {
        scope_lookup(scope.skip(1), key)
    }
}

/// A type name with the scope's qualification applied: an unqualified name
/// the scope knows becomes its qualified form; anything else stays.
pub open spec fn qualified_name(name: Seq<char>, scope: Seq<(String, String)>) -> Seq<char> {
    if has_double_colon(name) {
        name
    } else {
        match scope_lookup(scope, lowercase(name)) {
            Some(q) => q,
            None => name,
        }
    }
}

/// A field type with every record reference qualified by the scope.
pub open spec fn qualified_type(t: FieldTypeModel, scope: Seq<(String, String)>) -> FieldTypeModel
    decreases t,
{
    match t {
        FieldTypeModel::Record(name) => FieldTypeModel::Record(qualified_name(name, scope)),
        FieldTypeModel::List(element) => FieldTypeModel::List(Box::new(qualified_type(*element, scope))),
        FieldTypeModel::StringMap(value) => FieldTypeModel::StringMap(Box::new(qualified_type(*value, scope))),
        other => other,
    }
}

/// Looks `key` up in a namespace scope.
pub fn lookup_scope(scope: &Vec<(String, String)>, key: &str) -> (r: Option<String>)
    ensures
        match scope_lookup(scope@, key@) {
            Some(q) => r matches Some(s) && s@ == q,
            None => r.is_none(),
        },
{
    let mut i: usize = 0;
    proof {
        assert(scope@.skip(0) =~= scope@);
    }
    while i < scope.len()
        invariant
            i <= scope@.len(),
            scope_lookup(scope@, key@) == scope_lookup(scope@.skip(i as int), key@),
        decreases scope@.len() - i,
    {
        proof {
            assert(scope@.skip(i as int).skip(1) =~= scope@.skip(i + 1));
            assert(scope@.skip(i as int)[0] == scope@[i as int]);
        }
        if str_equal(scope[i].0.as_str(), key) {
            return Some(scope[i].1.clone());
        }
        i += 1;
    }
    None
}

/// Qualifies one type name within a namespace scope.
pub fn qualify_name(name: &String, scope: &Vec<(String, String)>) -> (r: String)
    ensures
        r@ == qualified_name(name@, scope@),
{
    if !contains_double_colon(name.as_str()) {
        let lowered = to_lowercase(name.as_str());
        match lookup_scope(scope, lowered.as_str()) {
            Some(q) => return q,
            None => {}
        }
    }
    name.clone()
}

impl DataFieldType {
    /// Parses a leaf type from a single token (a scalar or a data-type
    /// name); the composite `[…]` / `{…}` forms are the parser's. `None`
    /// otherwise.
    pub fn parsing(text: &str) -> (r: Option<Self>)
        ensures
            match leaf_type_named(text@) {
                Some(t) => r matches Some(f) && f@ == t,
                None => r.is_none(),
            },
    {
        let lowered = to_lowercase(text);
        if str_equal(lowered.as_str(), "number") {
            return Some(DataFieldType::Number);
        }
        if str_equal(lowered.as_str(), "string") {
            return Some(DataFieldType::String);
        }
        if str_equal(lowered.as_str(), "boolean") {
            return Some(DataFieldType::Boolean);
        }
        let chars = chars_of(text);
        if chars.len() == 0 {
            return None;
        }
        if is_uppercase(chars[0]) {
            Some(DataFieldType::Record(String::from_str(text)))
        } else {
            None
        }
    }

    /// Canonical spelling: `Number` / `Point` / `[String]` /
    /// `{String: Number}`.
    pub fn label(&self) -> (r: String)
        ensures
            r@ == type_label(self@),
        decreases self,
    {
        match self {
            DataFieldType::Number => String::from_str("Number"),
            DataFieldType::String => String::from_str("String"),
            DataFieldType::Boolean => String::from_str("Boolean"),
            DataFieldType::Record(name) => name.clone(),
            DataFieldType::List(element) => {
                let mut out = String::from_str("[");
                let inner = element.label();
                out.append(inner.as_str());
                out.append("]");
                proof {
                    reveal_strlit("[");
                    reveal_strlit("]");
                    assert(out@ =~= seq!['['] + type_label(element@) + seq![']']);
                }
                out
            }
            DataFieldType::StringMap(value) => {
                let mut out = String::from_str("{String: ");
                let inner = value.label();
                out.append(inner.as_str());
                out.append("}");
                proof {
                    reveal_strlit("}");
                    assert(out@ =~= "{String: "@ + type_label(value@) + seq!['}']);
                }
                out
            }
        }
    }

    /// Within a `namespace`, qualifies a record-type reference: an
    /// unqualified `Point` that `scope` maps (simple lowercased name → its
    /// qualified form) becomes `Bits::Point`; an already-qualified or
    /// out-of-scope name is left alone. Recurses into list/map element types.
    pub fn qualified(&self, scope: &Vec<(String, String)>) -> (r: DataFieldType)
        ensures
            r@ == qualified_type(self@, scope@),
        decreases self,
    {
        match self {
            DataFieldType::Number => DataFieldType::Number,
            DataFieldType::String => DataFieldType::String,
            DataFieldType::Boolean => DataFieldType::Boolean,
            DataFieldType::Record(name) => DataFieldType::Record(qualify_name(name, scope)),
            DataFieldType::List(element) => DataFieldType::List(Box::new(element.qualified(scope))),
            DataFieldType::StringMap(value) => DataFieldType::StringMap(Box::new(value.qualified(scope))),
        }
    }
}

/// One declared field. Names are case-sensitive (they become map-style
/// keys); duplicates are rejected at parse time.
#[derive(Debug, PartialEq)]
pub struct DataField {
    pub name: String,
    pub field_type: DataFieldType,
}

impl DataField {
    pub fn new(name: String, field_type: DataFieldType) -> (r: Self)
        ensures
            r.name@ == name@,
            r.field_type@ == field_type@,
    {
        DataField { name, field_type }
    }
}

/// `name: Type`, as a declaration lists a field.
pub open spec fn field_text(f: DataField) -> Seq<char> {
    f.name@ + ": "@ + type_label(f.field_type@)
}

/// The declaration's trailing `# …` comment, trimmed; `None` when absent or
/// blank.
pub open spec fn documentation_of(source: Seq<char>) -> Option<Seq<char>> {
    if exists|i: int| 0 <= i < source.len() && source[i] == '#' {
        let hash = choose|i: int| 0 <= i < source.len() && source[i] == '#' && forall|j: int| 0 <= j < i ==> source[j] != '#';
        let text = trimmed(source.skip(hash + 1));
        if text.len() == 0 { None } else { Some(text) }
    } else {
        None
    }
}

/// A user-declared record type.
#[derive(Debug, PartialEq)]
pub struct DataType {
    /// As declared; constructor calls are case-insensitive, like every
    /// function.
    pub name: String,
    /// Declaration order: instances canonicalize their fields to it.
    pub fields: Vec<DataField>,
    pub source: String,
}

/// `data Person { name: String, age: Number }`.
pub open spec fn declaration_of(name: Seq<char>, fields: Seq<DataField>) -> Seq<char> {
    "data "@ + name + " { "@ + joined_with(fields.map_values(|f: DataField| field_text(f)), ", "@) + " }"@
}

/// `data NAME { field: Type, … }`.
pub fn declaration_text(name: &String, fields: &Vec<DataField>) -> (r: String)
    ensures
        r@ == declaration_of(name@, fields@),
{
    let mut parts: Vec<String> = Vec::new();
    let mut i: usize = 0;
    while i < fields.len()
        invariant
            i <= fields@.len(),
            views_of(parts@) =~= fields@.take(i as int).map_values(|f: DataField| field_text(f)),
        decreases fields@.len() - i,
    {
        let field = &fields[i];
        let mut text = field.name.clone();
        text.append(": ");
        let label = field.field_type.label();
        text.append(label.as_str());
        let ghost before = parts@;
        parts.push(text);
        proof {
            assert(fields@.take(i + 1).map_values(|f: DataField| field_text(f))
                =~= fields@.take(i as int).map_values(|f: DataField| field_text(f)).push(
                field_text(fields@[i as int])));
            assert(views_of(parts@) =~= views_of(before).push(parts@.last()@));
        }
        i += 1;
    }
    proof {
        assert(fields@.take(i as int) =~= fields@);
    }
    let body = join(&parts, ", ");
    let mut out = String::from_str("data ");
    out.append(name.as_str());
    out.append(" { ");
    out.append(body.as_str());
    out.append(" }");
    out
}

impl DataType {
    pub fn new(name: String, fields: Vec<DataField>, source: String) -> (r: Self)
        ensures
            r.name@ == name@,
            r.fields@ == fields@,
            r.source@ == source@,
    {
        DataType { name, fields, source }
    }

    /// The trailing `# …` comment of the declaration, if any: the user's own
    /// documentation.
    pub fn documentation(&self) -> (r: Option<String>)
        ensures
            match documentation_of(self.source@) {
                Some(text) => r matches Some(s) && s@ == text,
                None => r.is_none(),
            },
    {
        let chars = chars_of(self.source.as_str());
        let mut i: usize = 0;
        while i < chars.len()
            invariant
                chars@ == self.source@,
                i <= chars@.len(),
                forall|j: int| 0 <= j < i ==> chars@[j] != '#',
            decreases chars@.len() - i,
        {
            if chars[i] == '#' {
                let rest = crate::text::string_of(&chars, i + 1, chars.len());
                let text = trim(rest.as_str());
                proof {
                    let hash = choose|k: int| 0 <= k < chars@.len() && chars@[k] == '#' && forall|j: int| 0 <= j < k ==> chars@[j] != '#';
                    assert(hash == i) by {
                        if hash < i {
                            assert(chars@[hash] != '#');
                        } else if hash > i {
                            assert(chars@[i as int] != '#');
                        }
                    }
                    assert(rest@ =~= self.source@.skip(i + 1));
                }
                if text.is_empty() {
                    return None;
                }
                return Some(String::from_str(text));
            }
            i += 1;
        }
        None
    }

    /// Display form: `data Person { name: String, age: Number }`.
    pub fn declaration(&self) -> (r: String)
        ensures
            r@ == declaration_of(self.name@, self.fields@),
    {
        declaration_text(&self.name, &self.fields)
    }

    /// "name, age, active", for error messages.
    pub fn field_list(&self) -> (r: String)
        ensures
            r@ == joined_with(self.fields@.map_values(|f: DataField| f.name@), ", "@),
    {
        let mut names: Vec<String> = Vec::new();
        let mut i: usize = 0;
        while i < self.fields.len()
            invariant
                i <= self.fields@.len(),
                views_of(names@) =~= self.fields@.take(i as int).map_values(|f: DataField| f.name@),
            decreases self.fields@.len() - i,
        {
            let ghost before = names@;
            names.push(self.fields[i].name.clone());
            proof {
                assert(self.fields@.take(i + 1).map_values(|f: DataField| f.name@)
                    =~= self.fields@.take(i as int).map_values(|f: DataField| f.name@).push(self.fields@[i as int].name@));
                assert(views_of(names@) =~= views_of(before).push(names@.last()@));
            }
            i += 1;
        }
        proof {
            assert(self.fields@.take(i as int) =~= self.fields@);
        }
        join(&names, ", ")
    }
}

/// The message when a value is of the wrong kind for a field.
pub open spec fn mismatch_message(t: FieldTypeModel, v: Value, field: Seq<char>, record_type: Seq<char>) -> Seq<char> {
    seq!['\''] + field + "' of "@ + record_type + " is a "@ + type_label(t) + " — got "@ + kind_name_of(v)
}

/// Why a value does not fit a field type, if it does not: the first
/// failure, recursing into list and map elements. A Boolean field is
/// strict (exactly 0 or 1); a record field checks the record's type name
/// (in any ASCII letter case).
pub open spec fn validation_error(t: FieldTypeModel, v: Value, field: Seq<char>, record_type: Seq<char>) -> Option<
    Seq<char>,
>
    decreases v,
{
    match t {
        FieldTypeModel::Number => if v is Number { None } else { Some(mismatch_message(t, v, field, record_type)) },
        FieldTypeModel::String => if v is String { None } else { Some(mismatch_message(t, v, field, record_type)) },
        FieldTypeModel::Boolean => if v matches Value::Number(n) && (n@.0 == 0 || n@ == (1int, 0int)) {
            None
        } else {
            Some(seq!['\''] + field + "' of "@ + record_type + " is a Boolean — use true or false"@)
        },
        FieldTypeModel::Record(expected) => if v matches Value::Record(r) && ascii_folded(r.type_label@)
            == ascii_folded(expected) {
            None
        } else {
            Some(mismatch_message(t, v, field, record_type))
        },
        FieldTypeModel::List(element) => match v {
            Value::Array(items) => items_validation_error(*element, items@, field, record_type),
            _ => Some(mismatch_message(t, v, field, record_type)),
        },
        FieldTypeModel::StringMap(element) => match v {
            Value::Dictionary(entries) => entries_validation_error(*element, entries@, field, record_type),
            _ => Some(mismatch_message(t, v, field, record_type)),
        },
    }
}

/// The first failure among the items, in order.
pub open spec fn items_validation_error(t: FieldTypeModel, s: Seq<Value>, field: Seq<char>, record_type: Seq<char>) -> Option<
    Seq<char>,
>
    decreases s,
{
    if s.len() == 0 {
        None
    } else {
        match items_validation_error(t, s.drop_last(), field, record_type) {
            Some(m) => Some(m),
            None => validation_error(t, s.last(), field, record_type),
        }
    }
}

/// The first failure among the entry values, in order.
pub open spec fn entries_validation_error(t: FieldTypeModel, s: Seq<MapEntry>, field: Seq<char>, record_type: Seq<char>) -> Option<
    Seq<char>,
>
    decreases s,
{
    if s.len() == 0 {
        None
    } else {
        match entries_validation_error(t, s.drop_last(), field, record_type) {
            Some(m) => Some(m),
            None => validation_error(t, s.last().value, field, record_type),
        }
    }
}

/// The message of a mismatch.
fn mismatch(t: &DataFieldType, value: &Value, field: &str, record_type: &str) -> (r: EngineError)
    ensures
        r matches EngineError::DomainError { message } && message@ == mismatch_message(t@, *value, field@, record_type@),
{
    let mut message = String::new();
    crate::text::push_char(&mut message, '\'');
    message.append(field);
    message.append("' of ");
    message.append(record_type);
    message.append(" is a ");
    let label = t.label();
    message.append(label.as_str());
    message.append(" — got ");
    let kind = value.kind_name();
    message.append(kind.as_str());
    proof {
        assert(message@ =~= mismatch_message(t@, *value, field@, record_type@));
    }
    EngineError::domain(message)
}

impl DataFieldType {
    /// Validates a value against this type, recursing into list and map
    /// elements, and hands the value back when it fits. Booleans are the
    /// engine's 1/0, but a Boolean field is strict (exactly 0 or 1, so
    /// `active: 7` is caught). Records are already-validated instances, so
    /// a type-name check suffices.
    pub fn validate(&self, value: Value, field: &str, record_type: &str) -> (r: Result<Value, EngineError>)
        requires
            value_wf(value),
        ensures
            match validation_error(self@, value, field@, record_type@) {
                None => r matches Ok(v) && v == value,
                Some(m) => r matches Err(EngineError::DomainError { message }) && message@ == m,
            },
    {
        match self.check(&value, field, record_type) {
            Ok(()) => Ok(value),
            Err(e) => Err(e),
        }
    }

    /// The check behind `validate`.
    fn check(&self, value: &Value, field: &str, record_type: &str) -> (r: Result<(), EngineError>)
        requires
            value_wf(*value),
        ensures
            match validation_error(self@, *value, field@, record_type@) {
                None => r is Ok,
                Some(m) => r matches Err(EngineError::DomainError { message }) && message@ == m,
            },
        decreases value, 0int,
    {
        match self {
            DataFieldType::Number => if matches!(value, Value::Number(_)) {
                Ok(())
            } else {
                Err(mismatch(self, value, field, record_type))
            },
            DataFieldType::String => if matches!(value, Value::String(_)) {
                Ok(())
            } else {
                Err(mismatch(self, value, field, record_type))
            },
            DataFieldType::Boolean => {
                let ok = match value {
                    Value::Number(flag) => flag.is_zero() || flag.equals(&BigDecimal::one()),
                    _ => false,
                };
                if ok {
                    Ok(())
                } else {
                    let mut message = String::new();
                    crate::text::push_char(&mut message, '\'');
                    message.append(field);
                    message.append("' of ");
                    message.append(record_type);
                    message.append(" is a Boolean — use true or false");
                    proof {
                        assert(message@ =~= seq!['\''] + field@ + "' of "@ + record_type@
                            + " is a Boolean — use true or false"@);
                    }
                    Err(EngineError::domain(message))
                }
            },
            DataFieldType::Record(expected) => {
                let ok = match value {
                    Value::Record(record) => crate::text::eq_ignore_ascii_case(
                        record.type_label.as_str(),
                        expected.as_str(),
                    ),
                    _ => false,
                };
                if ok {
                    Ok(())
                } else {
                    Err(mismatch(self, value, field, record_type))
                }
            },
            DataFieldType::List(element) => match value {
                Value::Array(items) => Self::check_items(element, items, field, record_type),
                _ => Err(mismatch(self, value, field, record_type)),
            },
            DataFieldType::StringMap(element) => match value {
                Value::Dictionary(entries) => Self::check_entries(element, entries, field, record_type),
                _ => Err(mismatch(self, value, field, record_type)),
            },
        }
    }

    /// Checks each item, in order.
    fn check_items(element: &DataFieldType, items: &Vec<Value>, field: &str, record_type: &str) -> (r: Result<
        (),
        EngineError,
    >)
        requires
            items_wf(items@),
        ensures
            match items_validation_error(element@, items@, field@, record_type@) {
                None => r is Ok,
                Some(m) => r matches Err(EngineError::DomainError { message }) && message@ == m,
            },
        decreases items, 0int,
    {
        let mut i: usize = 0;
        while i < items.len()
            invariant
                i <= items@.len(),
                items_wf(items@),
                items_validation_error(element@, items@.take(i as int), field@, record_type@) is None,
            decreases items@.len() - i,
        {
            proof {
                lemma_items_wf(items@, i as int);
                assert(items@.take(i + 1).drop_last() =~= items@.take(i as int));
                assert(items@.take(i + 1).last() == items@[i as int]);
            }
            match element.check(&items[i], field, record_type) {
                Ok(()) => {},
                Err(e) => {
                    proof {
                        lemma_items_error(element@, items@, field@, record_type@, i as int);
                    }
                    return Err(e);
                },
            }
            i += 1;
        }
        proof {
            assert(items@.take(i as int) =~= items@);
        }
        Ok(())
    }

    /// Checks each entry value, in order.
    fn check_entries(element: &DataFieldType, entries: &Vec<MapEntry>, field: &str, record_type: &str) -> (r: Result<
        (),
        EngineError,
    >)
        requires
            entries_wf(entries@),
        ensures
            match entries_validation_error(element@, entries@, field@, record_type@) {
                None => r is Ok,
                Some(m) => r matches Err(EngineError::DomainError { message }) && message@ == m,
            },
        decreases entries, 0int,
    {
        let mut i: usize = 0;
        while i < entries.len()
            invariant
                i <= entries@.len(),
                entries_wf(entries@),
                entries_validation_error(element@, entries@.take(i as int), field@, record_type@) is None,
            decreases entries@.len() - i,
        {
            proof {
                lemma_entries_wf(entries@, i as int);
                assert(entries@.take(i + 1).drop_last() =~= entries@.take(i as int));
                assert(entries@.take(i + 1).last() == entries@[i as int]);
            }
            match element.check(&entries[i].value, field, record_type) {
                Ok(()) => {},
                Err(e) => {
                    proof {
                        lemma_entries_error(element@, entries@, field@, record_type@, i as int);
                    }
                    return Err(e);
                },
            }
            i += 1;
        }
        proof {
            assert(entries@.take(i as int) =~= entries@);
        }
        Ok(())
    }
}

/// The first failing item decides the list's failure.
proof fn lemma_items_error(t: FieldTypeModel, s: Seq<Value>, field: Seq<char>, record_type: Seq<char>, i: int)
    requires
        0 <= i < s.len(),
        items_validation_error(t, s.take(i), field, record_type) is None,
        validation_error(t, s[i], field, record_type) is Some,
    ensures
        items_validation_error(t, s, field, record_type) == validation_error(t, s[i], field, record_type),
    decreases s.len(),
{
    if i < s.len() - 1 {
        assert(s.drop_last().take(i) =~= s.take(i));
        assert(s.drop_last()[i] == s[i]);
        lemma_items_error(t, s.drop_last(), field, record_type, i);
    } else {
        assert(s.drop_last() =~= s.take(i));
    }
}

/// The first failing entry decides the map's failure.
proof fn lemma_entries_error(t: FieldTypeModel, s: Seq<MapEntry>, field: Seq<char>, record_type: Seq<char>, i: int)
    requires
        0 <= i < s.len(),
        entries_validation_error(t, s.take(i), field, record_type) is None,
        validation_error(t, s[i].value, field, record_type) is Some,
    ensures
        entries_validation_error(t, s, field, record_type) == validation_error(t, s[i].value, field, record_type),
    decreases s.len(),
{
    if i < s.len() - 1 {
        assert(s.drop_last().take(i) =~= s.take(i));
        assert(s.drop_last()[i] == s[i]);
        lemma_entries_error(t, s.drop_last(), field, record_type, i);
    } else {
        assert(s.drop_last() =~= s.take(i));
    }
}

} // verus!
