//! Host-neutral format data for the binary bit-editor: the band palette and
//! the serializer that renders a layout as a re-parseable
//! `Bits::BitFormat(...)` constructor (the typed form a format saves as).

use vstd::prelude::*;
use super::binary_view::FieldSpec;
use crate::text::{views_of, joined_with, join, int_text, i64_text, push_char};
use crate::ast::source::{quoted, quoted_text};

verus! {

/// The bit-field band palette, by name: a field's persisted `color` is one
/// of these; a host maps each name to a real color.
pub struct BinaryEditorPalette;

/// The palette's names, in cycling order.
pub open spec fn palette_names() -> Seq<Seq<char>> {
    seq!["blue"@, "green"@, "orange"@, "purple"@, "pink"@, "teal"@]
}

impl BinaryEditorPalette {
    /// The palette's names, in cycling order.
    pub fn names() -> (r: [&'static str; 6])
        ensures
            r@.map_values(|s: &str| s@) == palette_names(),
    {
        let r = ["blue", "green", "orange", "purple", "pink", "teal"];
        proof {
            assert(r@.map_values(|s: &str| s@) =~= palette_names());
        }
        r
    }
}

/// The `Bits` module schema and the serializer for layouts.
pub struct BinaryEditorBits;

/// Names as string literals (quotes and backslashes escaped), comma-separated:
/// `"r", "w", "x"`.
pub open spec fn quoted_list(items: Seq<Seq<char>>) -> Seq<char> {
    joined_with(items.map_values(|s: Seq<char>| quoted_text(s)), ", "@)
}

/// A field's kind word and its flag and value lists, as serialized: a
/// reserved or unused gap first, then a non-empty flags list, then a
/// non-empty values list, else numeric.
pub open spec fn field_kind(spec: FieldSpec) -> (Seq<char>, Seq<Seq<char>>, Seq<Seq<char>>) {
    if spec.reserved {
        ("reserved"@, Seq::empty(), Seq::empty())
    } else if spec.unused {
        ("unused"@, Seq::empty(), Seq::empty())
    } else if spec.flags matches Some(f) && f@.len() > 0 {
        ("flags"@, views_of(spec.flags.unwrap()@), Seq::empty())
    } else if spec.values matches Some(v) && v@.len() > 0 {
        ("enum"@, Seq::empty(), views_of(spec.values.unwrap()@))
    } else {
        ("numeric"@, Seq::empty(), Seq::empty())
    }
}

/// One field as a `Bits::BitField(...)` constructor; a field with no color
/// takes the palette name for its position.
pub open spec fn field_source(spec: FieldSpec, index: int) -> Seq<char> {
    let (kind, flags, values) = field_kind(spec);
    let color = match spec.color {
        Some(c) => c@,
        None => palette_names()[index % 6],
    };
    let base = match spec.base {
        Some(b) => b as int,
        None => 10,
    };
    "Bits::BitField(name: "@ + quoted_text(spec.name@) + ", bits: "@ + int_text(spec.width as int) + ", kind: \""@
        + kind + "\", flags: ["@ + quoted_list(flags) + "], values: ["@ + quoted_list(values) + "], color: "@
        + quoted_text(color) + ", base: "@ + int_text(base) + seq![')']
}

/// A whole layout as a `Bits::BitFormat(...)` constructor.
pub open spec fn format_source_of(layout: Seq<FieldSpec>) -> Seq<char> {
    "Bits::BitFormat(fields: ["@ + joined_with(Seq::new(layout.len(), |i: int| field_source(layout[i], i)), ", "@)
        + "])"@
}

/// `"a", "b", …`.
fn list(strings: &Vec<String>) -> (r: String)
    ensures
        r@ == quoted_list(views_of(strings@)),
{
    let mut parts: Vec<String> = Vec::new();
    let mut i: usize = 0;
    while i < strings.len()
        invariant
            i <= strings@.len(),
            views_of(parts@) =~= views_of(strings@.take(i as int)).map_values(|s: Seq<char>| quoted_text(s)),
        decreases strings@.len() - i,
    {
        let literal = quoted(strings[i].as_str());
        let ghost before = parts@;
        parts.push(literal);
        proof {
            assert(views_of(parts@) =~= views_of(before).push(parts@.last()@));
            assert(views_of(strings@.take(i + 1)).map_values(|s: Seq<char>| quoted_text(s))
                =~= views_of(strings@.take(i as int)).map_values(|s: Seq<char>| quoted_text(s)).push(
                quoted_text(strings@[i as int]@)));
        }
        i += 1;
    }
    proof {
        assert(strings@.take(i as int) =~= strings@);
    }
    join(&parts, ", ")
}

impl BinaryEditorBits {
    /// Defined once per session, before the first saved format.
    pub const SCHEMA_SOURCE: &'static str = "namespace Bits { data BitField { name: String, bits: Number, kind: String, flags: [String], values: [String], color: String, base: Number }; data BitFormat { fields: [BitField] } }";

    /// One field's constructor text.
    fn field_text(spec: &FieldSpec, index: usize) -> (r: String)
        ensures
            r@ == field_source(*spec, index as int),
    {
        let empty: Vec<String> = Vec::new();
        let (kind, flags, values): (&str, &Vec<String>, &Vec<String>) = if spec.reserved {
            ("reserved", &empty, &empty)
        } else if spec.unused {
            ("unused", &empty, &empty)
        } else if spec.flags.is_some() && spec.flags.as_ref().unwrap().len() > 0 {
            ("flags", spec.flags.as_ref().unwrap(), &empty)
        } else if spec.values.is_some() && spec.values.as_ref().unwrap().len() > 0 {
            ("enum", &empty, spec.values.as_ref().unwrap())
        } else {
            ("numeric", &empty, &empty)
        };
        proof {
            assert(views_of(empty@) =~= Seq::<Seq<char>>::empty());
        }
        let names = BinaryEditorPalette::names();
        let color: &str = match &spec.color {
            Some(c) => c.as_str(),
            None => names[index % 6],
        };
        proof {
            if spec.color.is_none() {
                assert(names@.map_values(|s: &str| s@)[(index % 6) as int] == names@[(index % 6) as int]@);
            }
        }
        let base: u32 = match spec.base {
            Some(b) => b,
            None => 10,
        };
        let mut out = String::from_str("Bits::BitField(name: ");
        let name = quoted(spec.name.as_str());
        out.append(name.as_str());
        out.append(", bits: ");
        let width_text = i64_text(spec.width as i64);
        out.append(width_text.as_str());
        out.append(", kind: \"");
        out.append(kind);
        out.append("\", flags: [");
        let flag_list = list(flags);
        out.append(flag_list.as_str());
        out.append("], values: [");
        let value_list = list(values);
        out.append(value_list.as_str());
        out.append("], color: ");
        let color_text = quoted(color);
        out.append(color_text.as_str());
        out.append(", base: ");
        let base_text = i64_text(base as i64);
        out.append(base_text.as_str());
        push_char(&mut out, ')');
        proof {
            assert(out@ =~= field_source(*spec, index as int));
        }
        out
    }

    /// The layout as a re-parseable `Bits::BitFormat(...)` constructor. A
    /// field with no explicit color gets the palette name for its position.
    pub fn format_source(layout: &[FieldSpec]) -> (r: String)
        ensures
            r@ == format_source_of(layout@),
    {
        let mut parts: Vec<String> = Vec::new();
        let mut i: usize = 0;
        while i < layout.len()
            invariant
                i <= layout@.len(),
                views_of(parts@) =~= Seq::new(i as nat, |k: int| field_source(layout@[k], k)),
            decreases layout@.len() - i,
        {
            let ghost before = parts@;
            parts.push(Self::field_text(&layout[i], i));
            proof {
                assert(views_of(parts@) =~= views_of(before).push(parts@.last()@));
            }
            i += 1;
        }
        let fields = join(&parts, ", ");
        let mut out = String::from_str("Bits::BitFormat(fields: [");
        out.append(fields.as_str());
        out.append("])");
        out
    }
}

} // verus!
