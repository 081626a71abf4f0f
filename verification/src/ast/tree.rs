//! The expression tree as a mathematical value: names by their characters,
//! numbers by their `(significand, exponent)` view, child lists as sequences.

use vstd::prelude::*;
use super::{Expression, MapLiteralEntry, Parameter, AnnotationModel, BinaryOperator, ComparisonOperator,
    ReductionOperation};
use crate::eval::currency::Currency;
use crate::eval::data_type::{DataField, FieldTypeModel};
use crate::text::views_of;

verus! {

/// What an `Expression` denotes.
pub enum Tree {
    Number((int, int)),
    Money((int, int), Currency),
    Grouped((int, int)),
    Variable(Seq<char>),
    CellReference(Option<Seq<char>>, Seq<char>, i64),
    CellRange(Option<Seq<char>>, Seq<char>, i64, Seq<char>, i64),
    UnaryMinus(Box<Tree>),
    Percent(Box<Tree>),
    Binary(BinaryOperator, Box<Tree>, Box<Tree>),
    Call(Seq<char>, Seq<Tree>),
    Assignment(Seq<char>, Box<Tree>),
    FunctionDefinition(Seq<char>, Seq<(Seq<char>, Option<AnnotationModel>)>, Box<Tree>),
    Reduction(ReductionOperation, Seq<char>, Box<Tree>, Box<Tree>, Box<Tree>),
    Comparison(ComparisonOperator, Box<Tree>, Box<Tree>),
    Conditional(Box<Tree>, Box<Tree>, Box<Tree>),
    HelpRequest(Seq<char>),
    StringLiteral(Seq<char>),
    ArrayLiteral(Seq<Tree>),
    MapLiteral(Seq<(Seq<char>, Tree)>),
    Index(Box<Tree>, Box<Tree>),
    Member(Box<Tree>, Seq<char>),
    MethodCall(Box<Tree>, Seq<char>, Seq<Tree>),
    Lambda(Seq<Seq<char>>, Box<Tree>),
    NameReference(Option<Seq<char>>, Seq<char>),
    DataDefinition(Seq<char>, Seq<(Seq<char>, FieldTypeModel)>),
    NamespaceDefinition(Seq<char>, Seq<Tree>),
    ImportDirective(Seq<char>),
}

/// An optional name by its characters.
pub open spec fn name_of(o: Option<String>) -> Option<Seq<char>> {
    match o {
        Some(s) => Some(s@),
        None => None,
    }
}

/// A parameter: its name and its annotation, if any.
pub open spec fn parameter_of(p: Parameter) -> (Seq<char>, Option<AnnotationModel>) {
    (p.name@, match p.annotation {
        Some(t) => Some(t@),
        None => None,
    })
}

/// A declared field: its name and its type.
pub open spec fn field_of(f: DataField) -> (Seq<char>, FieldTypeModel) {
    (f.name@, f.field_type@)
}

/// The tree an expression denotes.
pub open spec fn tree_of(e: Expression) -> Tree
    decreases e,
{
    match e {
        Expression::Number(v) => Tree::Number(v@),
        Expression::Money { value, currency } => Tree::Money(value@, currency),
        Expression::Grouped(v) => Tree::Grouped(v@),
        Expression::Variable(name) => Tree::Variable(name@),
        Expression::CellReference { sheet, column, row } => Tree::CellReference(name_of(sheet), column@, row),
        Expression::CellRange { sheet, from_column, from_row, to_column, to_row } => Tree::CellRange(
            name_of(sheet), from_column@, from_row, to_column@, to_row),
        Expression::UnaryMinus(inner) => Tree::UnaryMinus(Box::new(tree_of(*inner))),
        Expression::Percent(inner) => Tree::Percent(Box::new(tree_of(*inner))),
        Expression::Binary(op, lhs, rhs) => Tree::Binary(op, Box::new(tree_of(*lhs)), Box::new(tree_of(*rhs))),
        Expression::Call { name, arguments } => {
            let args = arguments@;
            Tree::Call(name@, trees_of(args))
        },
        Expression::Assignment { name, value } => Tree::Assignment(name@, Box::new(tree_of(*value))),
        Expression::FunctionDefinition { name, parameters, body } => Tree::FunctionDefinition(name@,
            parameters@.map_values(|p: Parameter| parameter_of(p)), Box::new(tree_of(*body))),
        Expression::Reduction { operation, index, lower, upper, body } => Tree::Reduction(operation, index@,
            Box::new(tree_of(*lower)), Box::new(tree_of(*upper)), Box::new(tree_of(*body))),
        Expression::Comparison(op, lhs, rhs) => Tree::Comparison(op, Box::new(tree_of(*lhs)),
            Box::new(tree_of(*rhs))),
        Expression::Conditional { condition, then, otherwise } => Tree::Conditional(Box::new(tree_of(*condition)),
            Box::new(tree_of(*then)), Box::new(tree_of(*otherwise))),
        Expression::HelpRequest { name } => Tree::HelpRequest(name@),
        Expression::StringLiteral(text) => Tree::StringLiteral(text@),
        Expression::ArrayLiteral(items) => {
            let s = items@;
            Tree::ArrayLiteral(trees_of(s))
        },
        Expression::MapLiteral(entries) => {
            let s = entries@;
            Tree::MapLiteral(entry_trees_of(s))
        },
        Expression::Index { base, index } => Tree::Index(Box::new(tree_of(*base)), Box::new(tree_of(*index))),
        Expression::Member { base, name } => Tree::Member(Box::new(tree_of(*base)), name@),
        Expression::MethodCall { base, name, arguments } => {
            let args = arguments@;
            Tree::MethodCall(Box::new(tree_of(*base)), name@, trees_of(args))
        },
        Expression::Lambda { parameters, body } => Tree::Lambda(views_of(parameters@), Box::new(tree_of(*body))),
        Expression::NameReference { sheet, name } => Tree::NameReference(name_of(sheet), name@),
        Expression::DataDefinition { name, fields } => Tree::DataDefinition(name@,
            fields@.map_values(|f: DataField| field_of(f))),
        Expression::NamespaceDefinition { name, members } => {
            let s = members@;
            Tree::NamespaceDefinition(name@, trees_of(s))
        },
        Expression::ImportDirective { name } => Tree::ImportDirective(name@),
    }
}

/// The trees of a sequence of expressions.
pub open spec fn trees_of(s: Seq<Expression>) -> Seq<Tree>
    decreases s,
{
    if s.len() == 0 {
        Seq::empty()
    } else {
        trees_of(s.drop_last()).push(tree_of(s.last()))
    }
}

/// The `(key, tree)` pairs of map-literal entries.
pub open spec fn entry_trees_of(s: Seq<MapLiteralEntry>) -> Seq<(Seq<char>, Tree)>
    decreases s,
{
    if s.len() == 0 {
        Seq::empty()
    } else {
        entry_trees_of(s.drop_last()).push((s.last().key@, tree_of(s.last().value)))
    }
}

/// Appending an expression appends its tree.
pub proof fn lemma_trees_push(s: Seq<Expression>, e: Expression)
    ensures
        trees_of(s.push(e)) == trees_of(s).push(tree_of(e)),
{
    assert(s.push(e).drop_last() =~= s);
}

/// Appending an entry appends its pair.
pub proof fn lemma_entry_trees_push(s: Seq<MapLiteralEntry>, e: MapLiteralEntry)
    ensures
        entry_trees_of(s.push(e)) == entry_trees_of(s).push((e.key@, tree_of(e.value))),
{
    assert(s.push(e).drop_last() =~= s);
}

/// The trees of a sequence have its length and are taken element-wise.
pub proof fn lemma_trees_index(s: Seq<Expression>)
    ensures
        trees_of(s).len() == s.len(),
        forall|k: int| 0 <= k < s.len() ==> #[trigger] trees_of(s)[k] == tree_of(s[k]),
    decreases s.len(),
{
    if s.len() > 0 {
        lemma_trees_index(s.drop_last());
    }
}

/// The pairs of map-literal entries have their length and are taken
/// element-wise.
pub proof fn lemma_entry_trees_index(s: Seq<MapLiteralEntry>)
    ensures
        entry_trees_of(s).len() == s.len(),
        forall|k: int| 0 <= k < s.len() ==> #[trigger] entry_trees_of(s)[k] == (s[k].key@, tree_of(s[k].value)),
    decreases s.len(),
{
    if s.len() > 0 {
        lemma_entry_trees_index(s.drop_last());
    }
}


/// The trees of one expression.
pub proof fn lemma_trees_single(a: Expression)
    ensures
        trees_of(seq![a]) == seq![tree_of(a)],
{
    let s = seq![a];
    assert(s.len() == 1);
    assert(s.last() == a);
    assert(s.drop_last() =~= Seq::<Expression>::empty());
    assert(trees_of(s.drop_last()) =~= Seq::<Tree>::empty());
    assert(Seq::<Tree>::empty().push(tree_of(a)) =~= seq![tree_of(a)]);
}

/// The trees of two expressions.
pub proof fn lemma_trees_pair(a: Expression, b: Expression)
    ensures
        trees_of(seq![a, b]) == seq![tree_of(a), tree_of(b)],
{
    lemma_trees_single(a);
    assert(seq![a, b].drop_last() =~= seq![a]);
    assert(seq![tree_of(a)].push(tree_of(b)) =~= seq![tree_of(a), tree_of(b)]);
}

} // verus!
