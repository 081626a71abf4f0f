//! Structural equality of expression trees: two expressions are the same
//! when they denote the same tree (names by their characters, numbers by
//! their values).

use vstd::prelude::*;
use super::{Expression, MapLiteralEntry, Parameter, TypeAnnotation, AnnotationModel};
use super::source::{renderable, all_renderable, entries_renderable};
use super::tree::{Tree, tree_of, trees_of, entry_trees_of, name_of, parameter_of, field_of, lemma_trees_index,
    lemma_entry_trees_index};
use crate::eval::currency::str_equal;
use crate::eval::data_type::{DataField, DataFieldType};
use crate::text::views_of;

verus! {

/// Do two optional names have the same characters?
fn same_option_name(a: &Option<String>, b: &Option<String>) -> (r: bool)
    ensures
        r == (name_of(*a) == name_of(*b)),
{
    match (a, b) {
        (Some(x), Some(y)) => str_equal(x.as_str(), y.as_str()),
        (None, None) => true,
        _ => false,
    }
}

/// Do two name lists have the same characters, name by name?
fn same_names(a: &Vec<String>, b: &Vec<String>) -> (r: bool)
    ensures
        r == (views_of(a@) == views_of(b@)),
{
    if a.len() != b.len() {
        proof {
            assert(views_of(a@).len() != views_of(b@).len());
        }
        return false;
    }
    let mut i: usize = 0;
    while i < a.len()
        invariant
            a@.len() == b@.len(),
            i <= a@.len(),
            forall|k: int| 0 <= k < i ==> a@[k]@ == b@[k]@,
        decreases a@.len() - i,
    {
        if !str_equal(a[i].as_str(), b[i].as_str()) {
            proof {
                assert(views_of(a@)[i as int] != views_of(b@)[i as int]);
            }
            return false;
        }
        i += 1;
    }
    proof {
        assert(views_of(a@) =~= views_of(b@));
    }
    true
}

/// An optional annotation as a mathematical value.
pub open spec fn annotation_of(o: Option<TypeAnnotation>) -> Option<AnnotationModel> {
    match o {
        Some(t) => Some(t@),
        None => None,
    }
}

/// Do two annotations denote the same declared type?
fn same_annotation(a: &Option<TypeAnnotation>, b: &Option<TypeAnnotation>) -> (r: bool)
    ensures
        r == (annotation_of(*a) == annotation_of(*b)),
{
    match (a, b) {
        (None, None) => true,
        (Some(TypeAnnotation::Number), Some(TypeAnnotation::Number)) => true,
        (Some(TypeAnnotation::String), Some(TypeAnnotation::String)) => true,
        (Some(TypeAnnotation::Boolean), Some(TypeAnnotation::Boolean)) => true,
        (Some(TypeAnnotation::Named(x)), Some(TypeAnnotation::Named(y))) => str_equal(x.as_str(), y.as_str()),
        _ => false,
    }
}

/// Do two parameter lists agree, name and annotation?
fn same_parameters(a: &Vec<Parameter>, b: &Vec<Parameter>) -> (r: bool)
    ensures
        r == (a@.map_values(|p: Parameter| parameter_of(p)) == b@.map_values(|p: Parameter| parameter_of(p))),
{
    if a.len() != b.len() {
        proof {
            assert(a@.map_values(|p: Parameter| parameter_of(p)).len() != b@.map_values(|p: Parameter| parameter_of(p)).len());
        }
        return false;
    }
    let mut i: usize = 0;
    while i < a.len()
        invariant
            a@.len() == b@.len(),
            i <= a@.len(),
            forall|k: int| 0 <= k < i ==> parameter_of(a@[k]) == parameter_of(b@[k]),
        decreases a@.len() - i,
    {
        let same = str_equal(a[i].name.as_str(), b[i].name.as_str()) && same_annotation(&a[i].annotation, &b[i].annotation);
        if !same {
            proof {
                assert(a@.map_values(|p: Parameter| parameter_of(p))[i as int] != b@.map_values(|p: Parameter| parameter_of(p))[i as int]);
            }
            return false;
        }
        i += 1;
    }
    proof {
        assert(a@.map_values(|p: Parameter| parameter_of(p)) =~= b@.map_values(|p: Parameter| parameter_of(p)));
    }
    true
}

/// Do two field types denote the same type?
fn same_field_type(a: &DataFieldType, b: &DataFieldType) -> (r: bool)
    ensures
        r == (a@ == b@),
    decreases a,
{
    match (a, b) {
        (DataFieldType::Number, DataFieldType::Number) => true,
        (DataFieldType::String, DataFieldType::String) => true,
        (DataFieldType::Boolean, DataFieldType::Boolean) => true,
        (DataFieldType::Record(x), DataFieldType::Record(y)) => str_equal(x.as_str(), y.as_str()),
        (DataFieldType::List(x), DataFieldType::List(y)) => same_field_type(x, y),
        (DataFieldType::StringMap(x), DataFieldType::StringMap(y)) => same_field_type(x, y),
        _ => false,
    }
}

/// Do two field lists agree, name and type?
fn same_fields(a: &Vec<DataField>, b: &Vec<DataField>) -> (r: bool)
    ensures
        r == (a@.map_values(|f: DataField| field_of(f)) == b@.map_values(|f: DataField| field_of(f))),
{
    if a.len() != b.len() {
        proof {
            assert(a@.map_values(|f: DataField| field_of(f)).len() != b@.map_values(|f: DataField| field_of(f)).len());
        }
        return false;
    }
    let mut i: usize = 0;
    while i < a.len()
        invariant
            a@.len() == b@.len(),
            i <= a@.len(),
            forall|k: int| 0 <= k < i ==> field_of(a@[k]) == field_of(b@[k]),
        decreases a@.len() - i,
    {
        let same = str_equal(a[i].name.as_str(), b[i].name.as_str()) && same_field_type(&a[i].field_type, &b[i].field_type);
        if !same {
            proof {
                assert(a@.map_values(|f: DataField| field_of(f))[i as int] != b@.map_values(|f: DataField| field_of(f))[i as int]);
            }
            return false;
        }
        i += 1;
    }
    proof {
        assert(a@.map_values(|f: DataField| field_of(f)) =~= b@.map_values(|f: DataField| field_of(f)));
    }
    true
}

/// A renderable expression list holds renderable expressions.
proof fn lemma_all_renderable_index(s: Seq<Expression>, i: int)
    requires
        all_renderable(s),
        0 <= i < s.len(),
    ensures
        renderable(s[i]),
    decreases s.len(),
{
    if i < s.len() - 1 {
        lemma_all_renderable_index(s.drop_last(), i);
    }
}

/// A renderable entry list holds renderable values.
proof fn lemma_entries_renderable_index(s: Seq<MapLiteralEntry>, i: int)
    requires
        entries_renderable(s),
        0 <= i < s.len(),
    ensures
        renderable(s[i].value),
    decreases s.len(),
{
    if i < s.len() - 1 {
        lemma_entries_renderable_index(s.drop_last(), i);
    }
}

impl Expression {
    /// Do the two expressions denote the same tree?
    pub fn same(&self, other: &Expression) -> (r: bool)
        requires
            renderable(*self),
            renderable(*other),
        ensures
            r == (tree_of(*self) == tree_of(*other)),
        decreases self, 0int,
    {
        match (self, other) {
            (Expression::Number(a), Expression::Number(b)) => a.equals(b),
            (Expression::Grouped(a), Expression::Grouped(b)) => a.equals(b),
            (Expression::Money { value: a, currency: c }, Expression::Money { value: b, currency: d }) => a.equals(b)
                && *c == *d,
            (Expression::Variable(a), Expression::Variable(b)) => str_equal(a.as_str(), b.as_str()),
            (
                Expression::CellReference { sheet: s1, column: c1, row: r1 },
                Expression::CellReference { sheet: s2, column: c2, row: r2 },
            ) => same_option_name(s1, s2) && str_equal(c1.as_str(), c2.as_str()) && *r1 == *r2,
            (
                Expression::CellRange { sheet: s1, from_column: a1, from_row: b1, to_column: c1, to_row: d1 },
                Expression::CellRange { sheet: s2, from_column: a2, from_row: b2, to_column: c2, to_row: d2 },
            ) => same_option_name(s1, s2) && str_equal(a1.as_str(), a2.as_str()) && *b1 == *b2 && str_equal(
                c1.as_str(),
                c2.as_str(),
            ) && *d1 == *d2,
            (Expression::UnaryMinus(a), Expression::UnaryMinus(b)) => a.same(b),
            (Expression::Percent(a), Expression::Percent(b)) => a.same(b),
            (Expression::Binary(o1, l1, r1), Expression::Binary(o2, l2, r2)) => *o1 == *o2 && l1.same(l2) && r1.same(r2),
            (Expression::Call { name: n1, arguments: a1 }, Expression::Call { name: n2, arguments: a2 }) => str_equal(
                n1.as_str(),
                n2.as_str(),
            ) && Self::same_list(a1, a2),
            (Expression::Assignment { name: n1, value: v1 }, Expression::Assignment { name: n2, value: v2 }) =>
                str_equal(n1.as_str(), n2.as_str()) && v1.same(v2),
            (
                Expression::FunctionDefinition { name: n1, parameters: p1, body: b1 },
                Expression::FunctionDefinition { name: n2, parameters: p2, body: b2 },
            ) => str_equal(n1.as_str(), n2.as_str()) && same_parameters(p1, p2) && b1.same(b2),
            (
                Expression::Reduction { operation: o1, index: i1, lower: l1, upper: u1, body: b1 },
                Expression::Reduction { operation: o2, index: i2, lower: l2, upper: u2, body: b2 },
            ) => *o1 == *o2 && str_equal(i1.as_str(), i2.as_str()) && l1.same(l2) && u1.same(u2) && b1.same(b2),
            (Expression::Comparison(o1, l1, r1), Expression::Comparison(o2, l2, r2)) => *o1 == *o2 && l1.same(l2)
                && r1.same(r2),
            (
                Expression::Conditional { condition: c1, then: t1, otherwise: e1 },
                Expression::Conditional { condition: c2, then: t2, otherwise: e2 },
            ) => c1.same(c2) && t1.same(t2) && e1.same(e2),
            (Expression::HelpRequest { name: a }, Expression::HelpRequest { name: b }) => str_equal(a.as_str(), b.as_str()),
            (Expression::StringLiteral(a), Expression::StringLiteral(b)) => str_equal(a.as_str(), b.as_str()),
            (Expression::ArrayLiteral(a), Expression::ArrayLiteral(b)) => Self::same_list(a, b),
            (Expression::MapLiteral(a), Expression::MapLiteral(b)) => Self::same_entries(a, b),
            (Expression::Index { base: b1, index: i1 }, Expression::Index { base: b2, index: i2 }) => b1.same(b2)
                && i1.same(i2),
            (Expression::Member { base: b1, name: n1 }, Expression::Member { base: b2, name: n2 }) => b1.same(b2)
                && str_equal(n1.as_str(), n2.as_str()),
            (
                Expression::MethodCall { base: b1, name: n1, arguments: a1 },
                Expression::MethodCall { base: b2, name: n2, arguments: a2 },
            ) => b1.same(b2) && str_equal(n1.as_str(), n2.as_str()) && Self::same_list(a1, a2),
            (Expression::Lambda { parameters: p1, body: b1 }, Expression::Lambda { parameters: p2, body: b2 }) =>
                same_names(p1, p2) && b1.same(b2),
            (Expression::NameReference { sheet: s1, name: n1 }, Expression::NameReference { sheet: s2, name: n2 }) =>
                same_option_name(s1, s2) && str_equal(n1.as_str(), n2.as_str()),
            (Expression::DataDefinition { name: n1, fields: f1 }, Expression::DataDefinition { name: n2, fields: f2 }) =>
                str_equal(n1.as_str(), n2.as_str()) && same_fields(f1, f2),
            (
                Expression::NamespaceDefinition { name: n1, members: m1 },
                Expression::NamespaceDefinition { name: n2, members: m2 },
            ) => str_equal(n1.as_str(), n2.as_str()) && Self::same_list(m1, m2),
            (Expression::ImportDirective { name: a }, Expression::ImportDirective { name: b }) => str_equal(
                a.as_str(),
                b.as_str(),
            ),
            _ => false,
        }
    }

    /// Do the two lists denote the same trees, in order?
    fn same_list(a: &Vec<Expression>, b: &Vec<Expression>) -> (r: bool)
        requires
            all_renderable(a@),
            all_renderable(b@),
        ensures
            r == (trees_of(a@) == trees_of(b@)),
        decreases a, 0int,
    {
        proof {
            lemma_trees_index(a@);
            lemma_trees_index(b@);
        }
        if a.len() != b.len() {
            return false;
        }
        let mut i: usize = 0;
        while i < a.len()
            invariant
                a@.len() == b@.len(),
                i <= a@.len(),
                all_renderable(a@),
                all_renderable(b@),
                trees_of(a@).len() == a@.len(),
                trees_of(b@).len() == b@.len(),
                forall|k: int| 0 <= k < a@.len() ==> #[trigger] trees_of(a@)[k] == tree_of(a@[k]),
                forall|k: int| 0 <= k < b@.len() ==> #[trigger] trees_of(b@)[k] == tree_of(b@[k]),
                forall|k: int| 0 <= k < i ==> tree_of(a@[k]) == tree_of(b@[k]),
            decreases a@.len() - i,
        {
            proof {
                lemma_all_renderable_index(a@, i as int);
                lemma_all_renderable_index(b@, i as int);
            }
            if !a[i].same(&b[i]) {
                proof {
                    assert(trees_of(a@)[i as int] != trees_of(b@)[i as int]);
                }
                return false;
            }
            i += 1;
        }
        proof {
            assert(trees_of(a@) =~= trees_of(b@));
        }
        true
    }

    /// Do the two entry lists agree, key and value tree, in order?
    fn same_entries(a: &Vec<MapLiteralEntry>, b: &Vec<MapLiteralEntry>) -> (r: bool)
        requires
            entries_renderable(a@),
            entries_renderable(b@),
        ensures
            r == (entry_trees_of(a@) == entry_trees_of(b@)),
        decreases a, 0int,
    {
        proof {
            lemma_entry_trees_index(a@);
            lemma_entry_trees_index(b@);
        }
        if a.len() != b.len() {
            return false;
        }
        let mut i: usize = 0;
        while i < a.len()
            invariant
                a@.len() == b@.len(),
                i <= a@.len(),
                entries_renderable(a@),
                entries_renderable(b@),
                entry_trees_of(a@).len() == a@.len(),
                entry_trees_of(b@).len() == b@.len(),
                forall|k: int| 0 <= k < a@.len() ==> #[trigger] entry_trees_of(a@)[k] == (a@[k].key@, tree_of(a@[k].value)),
                forall|k: int| 0 <= k < b@.len() ==> #[trigger] entry_trees_of(b@)[k] == (b@[k].key@, tree_of(b@[k].value)),
                forall|k: int| 0 <= k < i ==> a@[k].key@ == b@[k].key@ && tree_of(a@[k].value) == tree_of(b@[k].value),
            decreases a@.len() - i,
        {
            proof {
                lemma_entries_renderable_index(a@, i as int);
                lemma_entries_renderable_index(b@, i as int);
            }
            if !(str_equal(a[i].key.as_str(), b[i].key.as_str()) && a[i].value.same(&b[i].value)) {
                proof {
                    assert(entry_trees_of(a@)[i as int] != entry_trees_of(b@)[i as int]);
                }
                return false;
            }
            i += 1;
        }
        proof {
            assert(entry_trees_of(a@) =~= entry_trees_of(b@));
        }
        true
    }
}

} // verus!
