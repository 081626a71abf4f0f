//! Expression tree produced by the parser.

pub mod same;
pub mod source;
pub mod tree;

use vstd::prelude::*;
use crate::eval::currency::{Currency, str_equal};
use crate::eval::data_type::{DataField, scope_lookup, qualified_name, qualify_name};
use crate::number::BigDecimal;
use crate::text::{to_lowercase, lowercase};
pub use source::{key_literal, quoted};

verus! {

#[derive(Debug, PartialEq)]
pub enum Expression {
    Number(BigDecimal),
    /// A finance-mode currency literal: `$10`, `€10`. The currency
    /// propagates through arithmetic, so it is part of the value.
    Money { value: BigDecimal, currency: Currency },
    /// A finance-mode grouped plain number (`138,561`): presentation only.
    Grouped(BigDecimal),
    Variable(String),
    /// `A:1` or `Budget!A:1` / `'Q1 Budget'!A:1`; `None` sheet means the
    /// sheet that owns the formula.
    CellReference { sheet: Option<String>, column: String, row: i64 },
    /// `A:1..B:9`: the rectangle's numeric values; valid only as a function
    /// argument. May be sheet-qualified.
    CellRange { sheet: Option<String>, from_column: String, from_row: i64, to_column: String, to_row: i64 },
    UnaryMinus(Box<Expression>),
    /// `3%`: postfix percent, the operand divided by 100, exact.
    Percent(Box<Expression>),
    Binary(BinaryOperator, Box<Expression>, Box<Expression>),
    Call { name: String, arguments: Vec<Expression> },
    Assignment { name: String, value: Box<Expression> },
    /// `f(x) = …` / `dist(p: Point) = …` / `+(a: Point, b: Point) = …`.
    /// Parameters may carry a type annotation; the same name can have
    /// several definitions told apart by their annotations.
    FunctionDefinition { name: String, parameters: Vec<Parameter>, body: Box<Expression> },
    /// `∑_i=1^10(term)` / `∏_i=1^5(term)`: `term` re-evaluated with `index`
    /// bound to each integer in lower...upper.
    Reduction {
        operation: ReductionOperation,
        index: String,
        lower: Box<Expression>,
        upper: Box<Expression>,
        body: Box<Expression>,
    },
    /// `a < b` etc.: evaluates to 1 (true) or 0 (false).
    Comparison(ComparisonOperator, Box<Expression>, Box<Expression>),
    /// `if(cond, then, else)`: only the taken branch is evaluated.
    Conditional { condition: Box<Expression>, then: Box<Expression>, otherwise: Box<Expression> },
    /// `man pmt`: prints documentation; the argument is a name, never
    /// evaluated.
    HelpRequest { name: String },
    /// `"…"`: a string value.
    StringLiteral(String),
    /// `[1, 2, 3]`.
    ArrayLiteral(Vec<Expression>),
    /// `{name: "Ada", age: 36}`: keys unique and case-sensitive.
    MapLiteral(Vec<MapLiteralEntry>),
    /// `arr[0]` / `m["key"]`.
    Index { base: Box<Expression>, index: Box<Expression> },
    /// `m.name`: member access with a literal key.
    Member { base: Box<Expression>, name: String },
    /// `worksheet.cell("A", 2)`: a method call on a host value.
    MethodCall { base: Box<Expression>, name: String, arguments: Vec<Expression> },
    /// `x -> x * 2` / `(a, b) -> a + b`: an anonymous function value.
    Lambda { parameters: Vec<String>, body: Box<Expression> },
    /// `'Projected Rate'` / `Budget!'Projected Rate'`: a named cell.
    NameReference { sheet: Option<String>, name: String },
    /// `data Person { name: String, age: Number, active: Boolean }`.
    DataDefinition { name: String, fields: Vec<DataField> },
    /// `namespace Bits { … }`: declarations grouped under a name.
    NamespaceDefinition { name: String, members: Vec<Expression> },
    /// `import Bits`: a namespace's members in scope unqualified.
    ImportDirective { name: String },
}

/// A parameter's declared type as a mathematical value.
pub enum AnnotationModel {
    Number,
    String,
    Boolean,
    Named(Seq<char>),
}

/// A parameter's declared type: a built-in scalar or a named `data` type.
#[derive(Debug, PartialEq)]
pub enum TypeAnnotation {
    Number,
    String,
    Boolean,
    /// A declared data type, e.g. Point.
    Named(String),
}

impl View for TypeAnnotation {
    type V = AnnotationModel;

    open spec fn view(&self) -> AnnotationModel {
        match self {
            TypeAnnotation::Number => AnnotationModel::Number,
            TypeAnnotation::String => AnnotationModel::String,
            TypeAnnotation::Boolean => AnnotationModel::Boolean,
            TypeAnnotation::Named(name) => AnnotationModel::Named(name@),
        }
    }
}

/// The annotation a written type name denotes: the three scalars match in
/// any letter case; anything else names a data type, spelling kept.
pub open spec fn annotation_named(name: Seq<char>) -> AnnotationModel {
    let lowered = lowercase(name);
    if lowered == "number"@ {
        AnnotationModel::Number
    } else if lowered == "string"@ {
        AnnotationModel::String
    } else if lowered == "boolean"@ {
        AnnotationModel::Boolean
    } else {
        AnnotationModel::Named(name)
    }
}

/// An annotation as written in source.
pub open spec fn annotation_label(a: AnnotationModel) -> Seq<char> {
    match a {
        AnnotationModel::Number => "Number"@,
        AnnotationModel::String => "String"@,
        AnnotationModel::Boolean => "Boolean"@,
        AnnotationModel::Named(name) => name,
    }
}

/// An annotation with a named type qualified by the namespace scope.
pub open spec fn qualified_annotation(a: AnnotationModel, scope: Seq<(String, String)>) -> AnnotationModel {
    match a {
        AnnotationModel::Named(name) => AnnotationModel::Named(qualified_name(name, scope)),
        other => other,
    }
}

impl TypeAnnotation {
    /// Maps a written type name to an annotation. The three scalars match
    /// case-insensitively; anything else is a named data type, spelling
    /// preserved (existence is checked at dispatch time).
    pub fn parsing(name: &str) -> (r: Self)
        ensures
            r@ == annotation_named(name@),
    {
        let lowered = to_lowercase(name);
        if str_equal(lowered.as_str(), "number") {
            TypeAnnotation::Number
        } else if str_equal(lowered.as_str(), "string") {
            TypeAnnotation::String
        } else if str_equal(lowered.as_str(), "boolean") {
            TypeAnnotation::Boolean
        } else {
            TypeAnnotation::Named(String::from_str(name))
        }
    }

    /// As written in source: `Number` / `Point`.
    pub fn label(&self) -> (r: String)
        ensures
            r@ == annotation_label(self@),
    {
        match self {
            TypeAnnotation::Number => String::from_str("Number"),
            TypeAnnotation::String => String::from_str("String"),
            TypeAnnotation::Boolean => String::from_str("Boolean"),
            TypeAnnotation::Named(name) => name.clone(),
        }
    }

    /// Within a namespace, qualifies a named annotation (`p: Point` →
    /// `p: Bits::Point`). `scope` maps a simple lowercased type name to its
    /// qualified form; an already-qualified or out-of-scope name stays.
    pub fn qualified(&self, scope: &Vec<(String, String)>) -> (r: TypeAnnotation)
        ensures
            r@ == qualified_annotation(self@, scope@),
    {
        match self {
            TypeAnnotation::Number => TypeAnnotation::Number,
            TypeAnnotation::String => TypeAnnotation::String,
            TypeAnnotation::Boolean => TypeAnnotation::Boolean,
            TypeAnnotation::Named(name) => TypeAnnotation::Named(qualify_name(name, scope)),
        }
    }
}

/// A function parameter: a name and an optional type annotation. An
/// un-annotated parameter matches an argument of any type; an annotated one
/// takes part in typed dispatch.
#[derive(Debug, PartialEq)]
pub struct Parameter {
    pub name: String,
    pub annotation: Option<TypeAnnotation>,
}

/// A parameter as source: `p: Point` when typed, else `p`.
pub open spec fn parameter_text(p: Parameter) -> Seq<char> {
    match p.annotation {
        Some(t) => p.name@ + ": "@ + annotation_label(t@),
        None => p.name@,
    }
}

impl Parameter {
    pub fn new(name: String) -> (r: Self)
        ensures
            r.name@ == name@,
            r.annotation.is_none(),
    {
        Parameter { name, annotation: None }
    }

    pub fn typed(name: String, annotation: TypeAnnotation) -> (r: Self)
        ensures
            r.name@ == name@,
            r.annotation matches Some(t) && t@ == annotation@,
    {
        Parameter { name, annotation: Some(annotation) }
    }

    /// Source/display form: `p: Point` when typed, else `p`.
    pub fn rendered(&self) -> (r: String)
        ensures
            r@ == parameter_text(*self),
    {
        match &self.annotation {
            Some(t) => {
                let mut out = self.name.clone();
                out.append(": ");
                let label = t.label();
                out.append(label.as_str());
                out
            }
            None => self.name.clone(),
        }
    }
}

/// One `key: value` pair of a map literal.
#[derive(Debug, PartialEq)]
pub struct MapLiteralEntry {
    pub key: String,
    pub value: Expression,
}

#[derive(Debug, Clone, Copy, PartialEq, Eq, Structural)]
pub enum ComparisonOperator {
    Less,
    Greater,
    LessOrEqual,
    GreaterOrEqual,
    Equal,
    NotEqual,
}

/// A comparison operator's source glyph.
pub open spec fn comparison_symbol(op: ComparisonOperator) -> Seq<char> {
    match op {
        ComparisonOperator::Less => "<"@,
        ComparisonOperator::Greater => ">"@,
        ComparisonOperator::LessOrEqual => "<="@,
        ComparisonOperator::GreaterOrEqual => ">="@,
        ComparisonOperator::Equal => "=="@,
        ComparisonOperator::NotEqual => "!="@,
    }
}

impl ComparisonOperator {
    pub fn symbol(&self) -> (r: &'static str)
        ensures
            r@ == comparison_symbol(*self),
    {
        match self {
            ComparisonOperator::Less => "<",
            ComparisonOperator::Greater => ">",
            ComparisonOperator::LessOrEqual => "<=",
            ComparisonOperator::GreaterOrEqual => ">=",
            ComparisonOperator::Equal => "==",
            ComparisonOperator::NotEqual => "!=",
        }
    }
}

#[derive(Debug, Clone, Copy, PartialEq, Eq, Structural)]
pub enum ReductionOperation {
    /// ∑: starts at 0, accumulates with +.
    Sum,
    /// ∏: starts at 1, accumulates with ×.
    Product,
}

/// A reduction's math glyph.
pub open spec fn reduction_symbol(op: ReductionOperation) -> Seq<char> {
    match op {
        ReductionOperation::Sum => "∑"@,
        ReductionOperation::Product => "∏"@,
    }
}

impl ReductionOperation {
    pub fn symbol(&self) -> (r: &'static str)
        ensures
            r@ == reduction_symbol(*self),
    {
        match self {
            ReductionOperation::Sum => "∑",
            ReductionOperation::Product => "∏",
        }
    }
}

#[derive(Debug, Clone, Copy, PartialEq, Eq, Structural)]
pub enum BinaryOperator {
    Add,
    Subtract,
    Multiply,
    Divide,
    Modulo,
    Power,
}

/// A binary operator's source glyph.
pub open spec fn binary_symbol(op: BinaryOperator) -> Seq<char> {
    match op {
        BinaryOperator::Add => "+"@,
        BinaryOperator::Subtract => "-"@,
        BinaryOperator::Multiply => "*"@,
        BinaryOperator::Divide => "/"@,
        BinaryOperator::Modulo => "%"@,
        BinaryOperator::Power => "^"@,
    }
}

impl BinaryOperator {
    pub fn symbol(&self) -> (r: &'static str)
        ensures
            r@ == binary_symbol(*self),
    {
        match self {
            BinaryOperator::Add => "+",
            BinaryOperator::Subtract => "-",
            BinaryOperator::Multiply => "*",
            BinaryOperator::Divide => "/",
            BinaryOperator::Modulo => "%",
            BinaryOperator::Power => "^",
        }
    }
}

/// Does any node of `e` reference a spreadsheet cell (a named cell counts)?
pub open spec fn has_cell_reference(e: Expression) -> bool
    decreases e,
{
    match e {
        Expression::CellReference { .. } | Expression::CellRange { .. } | Expression::NameReference { .. } => true,
        Expression::UnaryMinus(inner) | Expression::Percent(inner) => has_cell_reference(*inner),
        Expression::Binary(_, lhs, rhs) | Expression::Comparison(_, lhs, rhs) => has_cell_reference(*lhs)
            || has_cell_reference(*rhs),
        Expression::Call { arguments, .. } => any_cell_reference(arguments@),
        Expression::Assignment { value, .. } => has_cell_reference(*value),
        Expression::FunctionDefinition { body, .. } => has_cell_reference(*body),
        Expression::Reduction { lower, upper, body, .. } => has_cell_reference(*lower) || has_cell_reference(*upper)
            || has_cell_reference(*body),
        Expression::Conditional { condition, then, otherwise } => has_cell_reference(*condition)
            || has_cell_reference(*then) || has_cell_reference(*otherwise),
        Expression::ArrayLiteral(items) => any_cell_reference(items@),
        Expression::MapLiteral(entries) => any_entry_cell_reference(entries@),
        Expression::Index { base, index } => has_cell_reference(*base) || has_cell_reference(*index),
        Expression::Member { base, .. } => has_cell_reference(*base),
        Expression::MethodCall { base, arguments, .. } => has_cell_reference(*base) || any_cell_reference(arguments@),
        Expression::Lambda { body, .. } => has_cell_reference(*body),
        Expression::NamespaceDefinition { members, .. } => any_cell_reference(members@),
        _ => false,
    }
}

/// Does any of the expressions reference a cell?
pub open spec fn any_cell_reference(s: Seq<Expression>) -> bool
    decreases s,
{
    if s.len() == 0 {
        false
    } else {
        any_cell_reference(s.drop_last()) || has_cell_reference(s.last())
    }
}

/// Does any map-literal value reference a cell?
pub open spec fn any_entry_cell_reference(s: Seq<MapLiteralEntry>) -> bool
    decreases s,
{
    if s.len() == 0 {
        false
    } else {
        any_entry_cell_reference(s.drop_last()) || has_cell_reference(s.last().value)
    }
}

impl Expression {
    /// True if any node references a spreadsheet cell: the grid's formula
    /// auto-detection.
    pub fn contains_cell_reference(&self) -> (r: bool)
        ensures
            r == has_cell_reference(*self),
        decreases self,
    {
        match self {
            Expression::CellReference { .. } | Expression::CellRange { .. } => true,
            Expression::Number(_) | Expression::Money { .. } | Expression::Grouped(_) | Expression::Variable(_) => false,
            Expression::UnaryMinus(inner) | Expression::Percent(inner) => inner.contains_cell_reference(),
            Expression::Binary(_, lhs, rhs) => lhs.contains_cell_reference() || rhs.contains_cell_reference(),
            Expression::Call { arguments, .. } => Self::any_contains_cell_reference(arguments),
            Expression::Assignment { value, .. } => value.contains_cell_reference(),
            Expression::FunctionDefinition { body, .. } => body.contains_cell_reference(),
            Expression::Reduction { lower, upper, body, .. } => lower.contains_cell_reference()
                || upper.contains_cell_reference() || body.contains_cell_reference(),
            Expression::Comparison(_, lhs, rhs) => lhs.contains_cell_reference() || rhs.contains_cell_reference(),
            Expression::Conditional { condition, then, otherwise } => condition.contains_cell_reference()
                || then.contains_cell_reference() || otherwise.contains_cell_reference(),
            Expression::HelpRequest { .. } | Expression::StringLiteral(_) => false,
            Expression::ArrayLiteral(items) => Self::any_contains_cell_reference(items),
            Expression::MapLiteral(entries) => Self::any_entry_contains_cell_reference(entries),
            Expression::Index { base, index } => base.contains_cell_reference() || index.contains_cell_reference(),
            Expression::Member { base, .. } => base.contains_cell_reference(),
            Expression::MethodCall { base, arguments, .. } => base.contains_cell_reference()
                || Self::any_contains_cell_reference(arguments),
            Expression::Lambda { body, .. } => body.contains_cell_reference(),
            Expression::NameReference { .. } => true,
            Expression::NamespaceDefinition { members, .. } => Self::any_contains_cell_reference(members),
            Expression::DataDefinition { .. } | Expression::ImportDirective { .. } => false,
        }
    }

    /// Whether any of `items` references a cell.
    fn any_contains_cell_reference(items: &Vec<Expression>) -> (r: bool)
        ensures
            r == any_cell_reference(items@),
        decreases items,
    {
        let mut found = false;
        let mut i: usize = 0;
        while i < items.len()
            invariant
                i <= items@.len(),
                found == any_cell_reference(items@.take(i as int)),
            decreases items@.len() - i,
        {
            proof {
                assert(items@.take(i + 1).drop_last() =~= items@.take(i as int));
            }
            let here = items[i].contains_cell_reference();
            found = found || here;
            i += 1;
        }
        proof {
            assert(items@.take(i as int) =~= items@);
        }
        found
    }

    /// Whether any value of `entries` references a cell.
    fn any_entry_contains_cell_reference(entries: &Vec<MapLiteralEntry>) -> (r: bool)
        ensures
            r == any_entry_cell_reference(entries@),
        decreases entries,
    {
        let mut found = false;
        let mut i: usize = 0;
        while i < entries.len()
            invariant
                i <= entries@.len(),
                found == any_entry_cell_reference(entries@.take(i as int)),
            decreases entries@.len() - i,
        {
            proof {
                assert(entries@.take(i + 1).drop_last() =~= entries@.take(i as int));
            }
            let here = entries[i].value.contains_cell_reference();
            found = found || here;
            i += 1;
        }
        proof {
            assert(entries@.take(i as int) =~= entries@);
        }
        found
    }
}

} // verus!
