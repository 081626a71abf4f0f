//! The model behind the visual bit-field builder. You claim a contiguous
//! run of the open bits (`claim`), describe the pending field with the
//! `draft_*` inputs, then `add_field`; the accumulated fields produce a
//! layout (`Vec<FieldSpec>`) that drives the editor and saves as a
//! `Bits::BitFormat`.

use vstd::prelude::*;
use super::binary_view::{FieldSpec, SpecModel, list_view, str_views};
use crate::calculator::copy_strings;
use crate::text::{chars_of, push_char, trim, trimmed, views_of, to_lowercase, lowercase};

verus! {

/// The kind of the field being built: the builder's editable picker.
#[derive(Debug, Clone, Copy, PartialEq, Eq, Structural)]
pub enum FieldKind {
    Numeric,
    Flags,
    Enumeration,
    Reserved,
    Unused,
}

/// A kind's UI label; lowercased it names an anonymous gap field.
pub open spec fn kind_label(k: FieldKind) -> Seq<char> {
    match k {
        FieldKind::Numeric => "Numeric"@,
        FieldKind::Flags => "Flags"@,
        FieldKind::Enumeration => "Enum"@,
        FieldKind::Reserved => "Reserved"@,
        FieldKind::Unused => "Unused"@,
    }
}

impl FieldKind {
    /// Every kind, in the picker's order.
    pub fn all() -> (r: [FieldKind; 5])
        ensures
            r@ == seq![FieldKind::Numeric, FieldKind::Flags, FieldKind::Enumeration, FieldKind::Reserved,
                FieldKind::Unused],
    {
        [FieldKind::Numeric, FieldKind::Flags, FieldKind::Enumeration, FieldKind::Reserved, FieldKind::Unused]
    }

    /// The UI label; lowercased it names an anonymous gap field
    /// ("reserved" / "unused").
    pub fn raw_value(self) -> (r: &'static str)
        ensures
            r@ == kind_label(self),
    {
        match self {
            FieldKind::Numeric => "Numeric",
            FieldKind::Flags => "Flags",
            FieldKind::Enumeration => "Enum",
            FieldKind::Reserved => "Reserved",
            FieldKind::Unused => "Unused",
        }
    }
}

/// One field as the builder holds it: richer than `FieldSpec`, it keeps the
/// editable kind, the raw label list and a stable id for the UI list.
#[derive(Debug, Clone, PartialEq, Eq)]
pub struct Field {
    pub id: usize,
    pub name: String,
    pub width: u32,
    pub kind: FieldKind,
    /// flags: per-bit names; enum: value labels.
    pub labels: Vec<String>,
    pub color_name: String,
    /// Numeric display radix (10 decimal, 16 hex).
    pub base: u32,
}

/// A builder field as a mathematical value.
pub struct FieldModel {
    pub id: usize,
    pub name: Seq<char>,
    pub width: u32,
    pub kind: FieldKind,
    pub labels: Seq<Seq<char>>,
    pub color_name: Seq<char>,
    pub base: u32,
}

impl View for Field {
    type V = FieldModel;

    open spec fn view(&self) -> FieldModel {
        FieldModel {
            id: self.id,
            name: self.name@,
            width: self.width,
            kind: self.kind,
            labels: views_of(self.labels@),
            color_name: self.color_name@,
            base: self.base,
        }
    }
}

/// Flag names padded with `?` (or cut) to exactly `width` names.
pub open spec fn padded_flags(labels: Seq<Seq<char>>, width: int) -> Seq<Seq<char>> {
    Seq::new(width as nat, |i: int| if i < labels.len() { labels[i] } else { "?"@ })
}

/// The engine spec a builder field becomes: flags padded or cut to the bit
/// width, enum labels as they are, the base dropped when decimal.
pub open spec fn spec_of(f: FieldModel) -> SpecModel {
    let plain = SpecModel {
        name: f.name,
        width: f.width,
        flags: None,
        values: None,
        color: Some(f.color_name),
        base: None,
        reserved: false,
        unused: false,
    };
    match f.kind {
        FieldKind::Numeric => if f.base == 10 { plain } else { SpecModel { base: Some(f.base), ..plain } },
        FieldKind::Flags => SpecModel { flags: Some(padded_flags(f.labels, f.width as int)), ..plain },
        FieldKind::Enumeration => SpecModel { values: Some(f.labels), ..plain },
        FieldKind::Reserved => SpecModel { reserved: true, ..plain },
        FieldKind::Unused => SpecModel { unused: true, ..plain },
    }
}

impl Field {
    /// The engine `FieldSpec` this field becomes: flags padded/truncated to
    /// the bit width, enum labels as-is, base dropped when decimal.
    pub fn spec(&self) -> (r: FieldSpec)
        ensures
            r@ == spec_of(self@),
    {
        let base_spec = FieldSpec::new(self.name.as_str(), self.width).with_color(self.color_name.as_str());
        match self.kind {
            FieldKind::Numeric => {
                if self.base == 10 {
                    base_spec
                } else {
                    base_spec.with_base(self.base)
                }
            }
            FieldKind::Flags => {
                let mut flags: Vec<String> = Vec::new();
                let mut i: usize = 0;
                while (i as u64) < (self.width as u64)
                    invariant
                        i <= self.width,
                        views_of(flags@) =~= padded_flags(views_of(self.labels@), i as int),
                    decreases self.width - i,
                {
                    let ghost before = flags@;
                    if i < self.labels.len() {
                        flags.push(self.labels[i].clone());
                        proof {
                            assert(views_of(self.labels@)[i as int] == self.labels@[i as int]@);
                        }
                    } else {
                        flags.push(String::from_str("?"));
                    }
                    proof {
                        assert(views_of(flags@) =~= views_of(before).push(flags@.last()@));
                        assert(views_of(flags@) =~= padded_flags(views_of(self.labels@), i + 1));
                    }
                    i += 1;
                }
                FieldSpec { flags: Some(flags), ..base_spec }
            }
            FieldKind::Enumeration => FieldSpec { values: Some(copy_strings(&self.labels)), ..base_spec },
            FieldKind::Reserved => base_spec.as_reserved(),
            FieldKind::Unused => base_spec.as_unused(),
        }
    }
}

/// The visual bit-field builder.
#[derive(Debug, Clone, PartialEq, Eq)]
pub struct FormatBuilder {
    palette: Vec<String>,
    next_id: usize,
    fields: Vec<Field>,
    /// Bits claimed for the field about to be added (0 = none claimed).
    pending_width: u32,
    pub draft_name: String,
    pub draft_kind: FieldKind,
    /// Comma-separated, for flags/enum.
    pub draft_labels: String,
    pub draft_color: String,
    pub draft_base: u32,
}

/// The sum of the fields' widths.
pub open spec fn total_width(fields: Seq<Field>) -> int
    decreases fields.len(),
{
    if fields.len() == 0 { 0 } else { total_width(fields.drop_last()) + fields.last().width }
}

/// The comma-separated labels of `s` from `i` on: each piece trimmed, empty
/// pieces dropped, appended to `done`; `current` is the piece in progress.
pub open spec fn labels_from(s: Seq<char>, i: int, current: Seq<char>, done: Seq<Seq<char>>) -> Seq<Seq<char>>
    decreases s.len() - i,
{
    if i < 0 || i >= s.len() {
        with_piece(done, current)
    } else if s[i] == ',' {
        labels_from(s, i + 1, Seq::empty(), with_piece(done, current))
    } else {
        labels_from(s, i + 1, current.push(s[i]), done)
    }
}

/// `done` with one more piece, trimmed, unless it trims to nothing.
pub open spec fn with_piece(done: Seq<Seq<char>>, piece: Seq<char>) -> Seq<Seq<char>> {
    if trimmed(piece).len() > 0 { done.push(trimmed(piece)) } else { done }
}

/// The labels a comma-separated text lists.
pub open spec fn labels_of(text: Seq<char>) -> Seq<Seq<char>> {
    labels_from(text, 0, Seq::empty(), Seq::empty())
}

/// The kind, labels and base a seeded field takes from its spec.
pub open spec fn seeded_kind(s: SpecModel) -> (FieldKind, Seq<Seq<char>>, u32) {
    if s.reserved {
        (FieldKind::Reserved, Seq::empty(), 10)
    } else if s.unused {
        (FieldKind::Unused, Seq::empty(), 10)
    } else if s.flags is Some {
        (FieldKind::Flags, s.flags.unwrap(), 10)
    } else if s.values is Some {
        (FieldKind::Enumeration, s.values.unwrap(), 10)
    } else {
        (FieldKind::Numeric, Seq::empty(), match s.base {
            Some(b) => b,
            None => 10,
        })
    }
}

impl FormatBuilder {
    /// The builder's invariant: a non-empty palette and ids below `next_id`.
    pub closed spec fn wf(&self) -> bool {
        &&& self.palette@.len() > 0
        &&& forall|i: int| 0 <= i < self.fields@.len() ==> #[trigger] self.fields@[i].id < self.next_id
    }

    /// The palette's names.
    pub closed spec fn palette_names(&self) -> Seq<Seq<char>> {
        views_of(self.palette@)
    }

    /// The committed fields.
    pub closed spec fn field_list(&self) -> Seq<Field> {
        self.fields@
    }

    /// The bits claimed for the pending field.
    pub closed spec fn pending(&self) -> u32 {
        self.pending_width
    }

    /// The id the next committed field gets.
    pub closed spec fn next(&self) -> usize {
        self.next_id
    }

    /// The pending field's name as typed.
    pub closed spec fn name_draft(&self) -> Seq<char> {
        self.draft_name@
    }

    /// The pending field's kind.
    pub closed spec fn kind_draft(&self) -> FieldKind {
        self.draft_kind
    }

    /// The pending field's comma-separated labels as typed.
    pub closed spec fn labels_draft(&self) -> Seq<char> {
        self.draft_labels@
    }

    /// The pending field's color name.
    pub closed spec fn color_draft(&self) -> Seq<char> {
        self.draft_color@
    }

    /// The pending field's numeric radix.
    pub closed spec fn base_draft(&self) -> u32 {
        self.draft_base
    }

    /// A builder cycling through `palette` (just "blue" when empty).
    pub fn new(palette: &[&str]) -> (r: Self)
        ensures
            r.wf(),
            r.palette_names() == (if palette@.len() == 0 { seq!["blue"@] } else { str_views(palette@) }),
            r.field_list().len() == 0,
            r.pending() == 0,
            r.next() == 0,
            r.name_draft().len() == 0,
            r.kind_draft() == FieldKind::Numeric,
            r.labels_draft().len() == 0,
            r.color_draft() == r.palette_names()[0],
            r.base_draft() == 10,
    {
        let mut names: Vec<String> = Vec::new();
        if palette.len() == 0 {
            names.push(String::from_str("blue"));
            proof {
                assert(views_of(names@) =~= seq!["blue"@]);
            }
        } else {
            let mut i: usize = 0;
            while i < palette.len()
                invariant
                    i <= palette@.len(),
                    views_of(names@) =~= str_views(palette@.take(i as int)),
                decreases palette@.len() - i,
            {
                names.push(String::from_str(palette[i]));
                proof {
                    assert(str_views(palette@.take(i + 1)) =~= str_views(palette@.take(i as int)).push(
                        palette@[i as int]@));
                }
                i += 1;
            }
            proof {
                assert(palette@.take(i as int) =~= palette@);
            }
        }
        let draft_color = names[0].clone();
        proof {
            assert(views_of(names@)[0] == names@[0]@);
        }
        FormatBuilder {
            palette: names,
            next_id: 0,
            fields: Vec::new(),
            pending_width: 0,
            draft_name: String::new(),
            draft_kind: FieldKind::Numeric,
            draft_labels: String::new(),
            draft_color,
            draft_base: 10,
        }
    }

    /// The committed fields, in order.
    pub fn fields(&self) -> (r: &[Field])
        ensures
            r@ == self.field_list(),
    {
        self.fields.as_slice()
    }

    /// Bits claimed for the field about to be added (0 = none claimed).
    pub fn pending_width(&self) -> (r: u32)
        ensures
            r == self.pending(),
    {
        self.pending_width
    }

    /// The bits the committed fields take.
    pub fn committed_width(&self) -> (r: u32)
        requires
            total_width(self.field_list()) <= u32::MAX,
        ensures
            r == total_width(self.field_list()),
    {
        let mut sum: u32 = 0;
        let mut i: usize = 0;
        while i < self.fields.len()
            invariant
                i <= self.fields@.len(),
                total_width(self.fields@) <= u32::MAX,
                sum == total_width(self.fields@.take(i as int)),
            decreases self.fields@.len() - i,
        {
            proof {
                assert(self.fields@.take(i + 1).drop_last() =~= self.fields@.take(i as int));
                lemma_total_width_prefix(self.fields@, i + 1);
            }
            sum = sum + self.fields[i].width;
            i += 1;
        }
        proof {
            assert(self.fields@.take(i as int) =~= self.fields@);
        }
        sum
    }

    /// The bits of a register this wide that no committed field takes.
    pub fn free_bits(&self, register_width: u32) -> (r: u32)
        requires
            total_width(self.field_list()) <= u32::MAX,
        ensures
            r == (if register_width >= total_width(self.field_list()) {
                register_width - total_width(self.field_list())
            } else {
                0
            }),
    {
        let used = self.committed_width();
        if register_width >= used { register_width - used } else { 0 }
    }

    /// The layout the committed fields make, in order.
    pub fn layout(&self) -> (r: Vec<FieldSpec>)
        ensures
            r@.len() == self.field_list().len(),
            forall|i: int| 0 <= i < r@.len() ==> #[trigger] r@[i]@ == spec_of(self.field_list()[i]@),
    {
        let mut out: Vec<FieldSpec> = Vec::new();
        let mut i: usize = 0;
        while i < self.fields.len()
            invariant
                i <= self.fields@.len(),
                out@.len() == i,
                forall|k: int| 0 <= k < i ==> #[trigger] out@[k]@ == spec_of(self.fields@[k]@),
            decreases self.fields@.len() - i,
        {
            out.push(self.fields[i].spec());
            i += 1;
        }
        out
    }

    /// No field committed yet.
    pub fn is_empty(&self) -> (r: bool)
        ensures
            r == (self.field_list().len() == 0),
    {
        self.fields.len() == 0
    }

    /// Reserved and Unused are nameless "gap" fields (no name required).
    pub fn is_gap_kind(&self) -> (r: bool)
        ensures
            r == (self.kind_draft() == FieldKind::Reserved || self.kind_draft() == FieldKind::Unused),
    {
        self.draft_kind == FieldKind::Reserved || self.draft_kind == FieldKind::Unused
    }

    /// A pending run is claimed and the field is named (or a gap).
    pub fn can_add_field(&self) -> (r: bool)
        ensures
            r == (self.pending() >= 1 && (self.kind_draft() == FieldKind::Reserved || self.kind_draft()
                == FieldKind::Unused || trimmed(self.name_draft()).len() > 0)),
    {
        self.pending_width >= 1 && (self.is_gap_kind() || !trim(self.draft_name.as_str()).is_empty())
    }

    /// Claims a `bits`-wide pending group; claiming the same width again
    /// clears it.
    pub fn claim(&mut self, bits: u32)
        ensures
            final(self).pending() == (if old(self).pending() == bits { 0 } else { bits }),
            final(self).field_list() == old(self).field_list(),
            final(self).palette_names() == old(self).palette_names(),
            final(self).next() == old(self).next(),
            old(self).wf() ==> final(self).wf(),
    {
        self.pending_width = if self.pending_width == bits { 0 } else { bits };
    }

    /// The comma-separated labels of a draft: each trimmed, empty ones
    /// dropped.
    fn parse_labels(text: &str) -> (r: Vec<String>)
        ensures
            views_of(r@) == labels_of(text@),
    {
        let chars = chars_of(text);
        let mut out: Vec<String> = Vec::new();
        let mut current = String::new();
        let mut i: usize = 0;
        proof {
            assert(views_of(out@) =~= Seq::<Seq<char>>::empty());
            assert(current@ =~= Seq::<char>::empty());
        }
        while i < chars.len()
            invariant
                chars@ == text@,
                i <= chars@.len(),
                labels_of(text@) == labels_from(chars@, i as int, current@, views_of(out@)),
            decreases chars@.len() - i,
        {
            if chars[i] == ',' {
                let piece = trim(current.as_str());
                if !piece.is_empty() {
                    let ghost before = out@;
                    out.push(String::from_str(piece));
                    proof {
                        assert(views_of(out@) =~= views_of(before).push(trimmed(current@)));
                    }
                }
                current = String::new();
            } else {
                push_char(&mut current, chars[i]);
            }
            i += 1;
        }
        let piece = trim(current.as_str());
        if !piece.is_empty() {
            let ghost before = out@;
            out.push(String::from_str(piece));
            proof {
                assert(views_of(out@) =~= views_of(before).push(trimmed(current@)));
            }
        }
        out
    }

    /// Clears the draft, advancing the default color so successive fields
    /// differ.
    fn reset_draft(&mut self)
        requires
            old(self).wf(),
        ensures
            final(self).wf(),
            final(self).fields == old(self).fields,
            final(self).palette == old(self).palette,
            final(self).next_id == old(self).next_id,
            final(self).pending_width == 0,
            final(self).draft_name@.len() == 0,
            final(self).draft_kind == FieldKind::Numeric,
            final(self).draft_labels@.len() == 0,
            final(self).draft_base == 10,
            final(self).draft_color@ == views_of(old(self).palette@)[(old(self).fields@.len() % old(self).palette@.len()) as int],
    {
        self.pending_width = 0;
        self.draft_name = String::new();
        self.draft_kind = FieldKind::Numeric;
        self.draft_labels = String::new();
        self.draft_base = 10;
        let index = self.fields.len() % self.palette.len();
        self.draft_color = self.palette[index].clone();
    }
}

/// The fields without the ones carrying `id`, in order.
pub open spec fn without_id(fields: Seq<FieldModel>, id: usize) -> Seq<FieldModel>
    decreases fields.len(),
{
    if fields.len() == 0 {
        Seq::empty()
    } else {
        (if fields[0].id == id { Seq::empty() } else { seq![fields[0]] }) + without_id(fields.skip(1), id)
    }
}

/// The position of the first field carrying `id`.
pub open spec fn first_with_id(fields: Seq<FieldModel>, id: usize) -> Option<int>
    decreases fields.len(),
{
    if fields.len() == 0 {
        None
    } else if fields.last().id == id && first_with_id(fields.drop_last(), id) is None {
        Some(fields.len() - 1)
    } else {
        first_with_id(fields.drop_last(), id)
    }
}

/// The field a layout entry seeds at position `index`: its kind, labels
/// and base by flavor, its color or else the palette's for the position.
pub open spec fn seeded_field(s: SpecModel, index: int, palette: Seq<Seq<char>>) -> FieldModel {
    let (kind, labels, base) = seeded_kind(s);
    FieldModel {
        id: index as usize,
        name: s.name,
        width: s.width,
        kind,
        labels,
        color_name: match s.color {
            Some(c) => c,
            None => palette[index % (palette.len() as int)],
        },
        base,
    }
}

/// A layout entry in the form the builder produces: a color, one flavor at
/// most, flags exactly as many as the width, and a base only when not
/// decimal.
pub open spec fn is_canonical(s: SpecModel) -> bool {
    &&& s.color is Some
    &&& !(s.reserved && s.unused)
    &&& (s.reserved || s.unused) ==> (s.flags is None && s.values is None && s.base is None)
    &&& s.flags matches Some(f) ==> (f.len() == s.width && s.values is None && s.base is None)
    &&& s.values is Some ==> s.base is None
    &&& s.base != Some(10u32)
}

/// The views of a sequence of builder fields.
pub open spec fn field_views(fields: Seq<Field>) -> Seq<FieldModel> {
    fields.map_values(|f: Field| f@)
}

/// Seeding from a layout in the builder's own form and reading the layout
/// back gives every entry back unchanged.
pub proof fn lemma_seed_then_layout(s: SpecModel, index: int, palette: Seq<Seq<char>>)
    requires
        is_canonical(s),
        palette.len() > 0,
    ensures
        spec_of(seeded_field(s, index, palette)) == s,
{
    if s.flags is Some {
        assert(padded_flags(s.flags.unwrap(), s.width as int) =~= s.flags.unwrap());
    }
}

/// Reading a field's spec and seeding a field from it keeps what the field
/// says, apart from labels past the width of a flags field.
pub proof fn lemma_layout_then_seed(f: FieldModel, palette: Seq<Seq<char>>)
    requires
        palette.len() > 0,
        f.kind == FieldKind::Flags ==> f.labels.len() == f.width,
        f.kind != FieldKind::Numeric ==> f.base == 10,
        f.kind != FieldKind::Flags && f.kind != FieldKind::Enumeration ==> f.labels.len() == 0,
        f.id == f.id as int as usize,
    ensures
        seeded_field(spec_of(f), f.id as int, palette) == f,
{
    if f.kind == FieldKind::Flags {
        assert(padded_flags(f.labels, f.width as int) =~= f.labels);
    }
    if f.kind != FieldKind::Flags && f.kind != FieldKind::Enumeration {
        assert(f.labels =~= Seq::<Seq<char>>::empty());
    }
}

impl Field {
    /// An exact copy.
    pub fn copy(&self) -> (r: Self)
        ensures
            r@ == self@,
    {
        Field {
            id: self.id,
            name: self.name.clone(),
            width: self.width,
            kind: self.kind,
            labels: copy_strings(&self.labels),
            color_name: self.color_name.clone(),
            base: self.base,
        }
    }
}

impl FormatBuilder {
    /// Commits the pending field from the draft inputs, then resets the
    /// draft (advancing the default color so successive fields differ). A
    /// no-op when `can_add_field` is false.
    pub fn add_field(&mut self)
        requires
            old(self).wf(),
            old(self).next() < usize::MAX,
        ensures
            final(self).wf(),
            final(self).palette_names() == old(self).palette_names(),
            ({
                let gap = old(self).kind_draft() == FieldKind::Reserved || old(self).kind_draft() == FieldKind::Unused;
                let name = trimmed(old(self).name_draft());
                if old(self).pending() < 1 || (!gap && name.len() == 0) {
                    *final(self) == *old(self)
                } else {
                    &&& field_views(final(self).field_list()) == field_views(old(self).field_list()).push(FieldModel {
                        id: old(self).next(),
                        name: if gap && name.len() == 0 { lowercase(kind_label(old(self).kind_draft())) } else { name },
                        width: old(self).pending(),
                        kind: old(self).kind_draft(),
                        labels: if old(self).kind_draft() == FieldKind::Flags || old(self).kind_draft()
                            == FieldKind::Enumeration {
                            labels_of(old(self).labels_draft())
                        } else {
                            Seq::empty()
                        },
                        color_name: old(self).color_draft(),
                        base: old(self).base_draft(),
                    })
                    &&& final(self).next() == old(self).next() + 1
                    &&& final(self).pending() == 0
                    &&& final(self).name_draft().len() == 0
                    &&& final(self).kind_draft() == FieldKind::Numeric
                    &&& final(self).labels_draft().len() == 0
                    &&& final(self).base_draft() == 10
                    &&& final(self).color_draft() == old(self).palette_names()[(final(self).field_list().len()
                        % old(self).palette_names().len()) as int]
                }
            }),
    {
        let trimmed_name = String::from_str(trim(self.draft_name.as_str()));
        let gap = self.is_gap_kind();
        if self.pending_width < 1 || (!gap && trimmed_name.as_str().is_empty()) {
            return;
        }
        let name = if gap && trimmed_name.as_str().is_empty() {
            to_lowercase(self.draft_kind.raw_value())
        } else {
            trimmed_name
        };
        let labels = if self.draft_kind == FieldKind::Flags || self.draft_kind == FieldKind::Enumeration {
            Self::parse_labels(self.draft_labels.as_str())
        } else {
            let none: Vec<String> = Vec::new();
            proof {
                assert(views_of(none@) =~= Seq::<Seq<char>>::empty());
            }
            none
        };
        let ghost before = self.fields@;
        self.fields.push(Field {
            id: self.next_id,
            name,
            width: self.pending_width,
            kind: self.draft_kind,
            labels,
            color_name: self.draft_color.clone(),
            base: self.draft_base,
        });
        proof {
            assert(field_views(self.fields@) =~= field_views(before).push(self.fields@.last()@));
            assert forall|i: int| 0 <= i < self.fields@.len() implies #[trigger] self.fields@[i].id < self.next_id + 1 by {
                if i < before.len() {
                    assert(self.fields@[i] == before[i]);
                }
            }
        }
        self.next_id = self.next_id + 1;
        self.reset_draft();
    }

    /// Removes the fields carrying `id` and clears the pending claim.
    pub fn remove(&mut self, id: usize)
        requires
            old(self).wf(),
        ensures
            final(self).wf(),
            field_views(final(self).field_list()) == without_id(field_views(old(self).field_list()), id),
            final(self).pending() == 0,
            final(self).next() == old(self).next(),
            final(self).palette_names() == old(self).palette_names(),
    {
        let ghost original = field_views(self.fields@);
        let ghost next = self.next_id;
        let mut rest: Vec<Field> = Vec::new();
        std::mem::swap(&mut rest, &mut self.fields);
        let mut kept: Vec<Field> = Vec::new();
        proof {
            assert(field_views(rest@) == original);
            assert(field_views(kept@) =~= Seq::<FieldModel>::empty());
            assert(Seq::<FieldModel>::empty() + without_id(field_views(rest@), id) =~= without_id(original, id));
        }
        while rest.len() > 0
            invariant
                field_views(kept@) + without_id(field_views(rest@), id) == without_id(original, id),
                self.palette@.len() > 0,
                self.next_id == next,
                forall|i: int| 0 <= i < kept@.len() ==> #[trigger] kept@[i].id < next,
                forall|i: int| 0 <= i < rest@.len() ==> #[trigger] rest@[i].id < next,
            decreases rest@.len(),
        {
            let ghost old_rest = rest@;
            let f = rest.remove(0);
            proof {
                assert(field_views(old_rest).skip(1) =~= field_views(rest@));
                assert(field_views(old_rest)[0] == f@);
                assert forall|i: int| 0 <= i < rest@.len() implies #[trigger] rest@[i].id < next by {
                    assert(rest@[i] == old_rest[i + 1]);
                }
            }
            if f.id != id {
                let ghost before = kept@;
                kept.push(f);
                proof {
                    assert(field_views(kept@) =~= field_views(before).push(kept@.last()@));
                }
            }
        }
        proof {
            assert(field_views(rest@) =~= Seq::<FieldModel>::empty());
            assert(field_views(kept@) =~= without_id(original, id));
        }
        self.fields = kept;
        self.pending_width = 0;
    }

    /// Recolors the first field carrying `id`.
    pub fn recolor(&mut self, id: usize, name: &str)
        requires
            old(self).wf(),
        ensures
            final(self).wf(),
            final(self).pending() == old(self).pending(),
            final(self).next() == old(self).next(),
            final(self).palette_names() == old(self).palette_names(),
            match first_with_id(field_views(old(self).field_list()), id) {
                Some(k) => field_views(final(self).field_list()) == field_views(old(self).field_list()).update(k,
                    FieldModel { color_name: name@, ..field_views(old(self).field_list())[k] }),
                None => field_views(final(self).field_list()) == field_views(old(self).field_list()),
            },
    {
        let ghost views = field_views(self.fields@);
        let mut i: usize = 0;
        while i < self.fields.len()
            invariant
                i <= self.fields@.len(),
                views == field_views(self.fields@),
                views == field_views(old(self).fields@),
                self.fields == old(self).fields,
                self.palette == old(self).palette,
                self.next_id == old(self).next_id,
                self.pending_width == old(self).pending_width,
                old(self).wf(),
                first_with_id(views, id) is None ==> first_with_id(views.take(i as int), id) is None,
                first_with_id(views.take(i as int), id) is None,
                forall|k: int| 0 <= k < i ==> #[trigger] self.fields@[k].id != id,
            decreases self.fields@.len() - i,
        {
            proof {
                assert(views.take(i + 1).drop_last() =~= views.take(i as int));
            }
            if self.fields[i].id == id {
                let ghost before = self.fields@;
                let mut f = self.fields.remove(i);
                f.color_name = String::from_str(name);
                let ghost changed = f;
                self.fields.insert(i, f);
                proof {
                    assert(self.fields@ =~= before.update(i as int, changed));
                    assert(changed.id == before[i as int].id);
                    lemma_first_with_id_prefix(views, i as int, id);
                    assert(field_views(self.fields@) =~= views.update(i as int, FieldModel {
                        color_name: name@,
                        ..views[i as int]
                    }));
                    assert forall|k: int| 0 <= k < self.fields@.len() implies #[trigger] self.fields@[k].id
                        < self.next_id by {
                        assert(self.fields@[k].id == before[k].id);
                    }
                }
                return;
            }
            i += 1;
        }
        proof {
            assert(views.take(i as int) =~= views);
        }
    }

    /// Rebuilds from an existing layout, so an active format can be tweaked:
    /// each entry becomes a field with its position as id, its kind by
    /// flavor, and its color or else the palette's for the position.
    pub fn seed(&mut self, layout: &[FieldSpec])
        requires
            old(self).wf(),
        ensures
            final(self).wf(),
            final(self).palette_names() == old(self).palette_names(),
            final(self).field_list().len() == layout@.len(),
            forall|i: int| 0 <= i < layout@.len() ==> #[trigger] final(self).field_list()[i]@ == seeded_field(
                layout@[i]@, i, old(self).palette_names()),
            final(self).next() == layout@.len(),
            final(self).pending() == 0,
            final(self).kind_draft() == FieldKind::Numeric,
            final(self).base_draft() == 10,
    {
        let mut fields: Vec<Field> = Vec::new();
        let mut i: usize = 0;
        while i < layout.len()
            invariant
                i <= layout@.len(),
                fields@.len() == i,
                self.palette@.len() > 0,
                forall|k: int| 0 <= k < i ==> #[trigger] fields@[k]@ == seeded_field(layout@[k]@, k,
                    views_of(self.palette@)),
                forall|k: int| 0 <= k < i ==> #[trigger] fields@[k].id == k,
            decreases layout@.len() - i,
        {
            let spec = &layout[i];
            let color = match &spec.color {
                Some(c) => c.clone(),
                None => self.palette[i % self.palette.len()].clone(),
            };
            proof {
                assert(views_of(self.palette@)[(i as int) % (self.palette@.len() as int)] == self.palette@[(i as int)
                    % (self.palette@.len() as int)]@);
            }
            let empty: Vec<String> = Vec::new();
            proof {
                assert(views_of(empty@) =~= Seq::<Seq<char>>::empty());
            }
            let (kind, labels, base) = if spec.reserved {
                (FieldKind::Reserved, empty, 10u32)
            } else if spec.unused {
                (FieldKind::Unused, empty, 10u32)
            } else if spec.flags.is_some() {
                (FieldKind::Flags, copy_strings(spec.flags.as_ref().unwrap()), 10u32)
            } else if spec.values.is_some() {
                (FieldKind::Enumeration, copy_strings(spec.values.as_ref().unwrap()), 10u32)
            } else {
                (FieldKind::Numeric, empty, match spec.base {
                    Some(b) => b,
                    None => 10u32,
                })
            };
            fields.push(Field { id: i, name: spec.name.clone(), width: spec.width, kind, labels, color_name: color, base });
            i += 1;
        }
        self.fields = fields;
        self.next_id = layout.len();
        self.reset_draft();
    }
}

/// The first field carrying `id` lies where it was found, when no earlier
/// field carries it.
proof fn lemma_first_with_id_prefix(fields: Seq<FieldModel>, i: int, id: usize)
    requires
        0 <= i < fields.len(),
        fields[i].id == id,
        first_with_id(fields.take(i), id) is None,
    ensures
        first_with_id(fields, id) == Some(i),
    decreases fields.len(),
{
    if i == fields.len() - 1 {
        assert(fields.drop_last() =~= fields.take(i));
    } else {
        assert(fields.drop_last().take(i) =~= fields.take(i));
        lemma_first_with_id_prefix(fields.drop_last(), i, id);
    }
}

/// A prefix's width is at most the whole's.
proof fn lemma_total_width_prefix(fields: Seq<Field>, n: int)
    requires
        0 <= n <= fields.len(),
    ensures
        total_width(fields.take(n)) <= total_width(fields),
    decreases fields.len(),
{
    if n < fields.len() {
        lemma_total_width_prefix(fields.drop_last(), n);
        assert(fields.drop_last().take(n) =~= fields.take(n));
    } else {
        assert(fields.take(n) =~= fields);
    }
}

} // verus!
