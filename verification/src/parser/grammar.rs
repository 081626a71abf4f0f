//! The grammar the parser follows, as mathematics: for the lexed tokens of
//! a line (with the final `End` marker) and a position, what each
//! production yields — a tree (or a list, a field type, …) and the position
//! after it, or an error message and the character position it points at.
//!
//! Grammar, loosest to tightest:
//!   statement:   IDENT = expr | import NAME | namespace/data/function
//!                declarations | expr
//!   comparison:  lambda | band (op band)?      (one comparison, no chains)
//!   band:        `|` · `^` · `&` · `<< >>`     (Programmer mode only)
//!   additive:    + -
//!   term:        * / (and `%` in Programmer mode), implicit ×
//!   unary:       - + √ ~
//!   power:       postfix (^ unary)?            (right-associative)
//!   postfix:     primary ([expr] | .name | .name(args) | %)*
//!   primary:     literals, names, calls, cells, special forms

use vstd::prelude::*;
use crate::ast::{BinaryOperator, ComparisonOperator, ReductionOperation, AnnotationModel, annotation_named,
    reduction_symbol};
use crate::ast::tree::Tree;
use crate::eval::data_type::{FieldTypeModel, leaf_type_named};
use crate::lexer::grammar::all_alphabetic;
use crate::lexer::token::{LexedKind, TokenKind};
use crate::mode::LanguageMode;
use crate::number::canonical;
use crate::text::{lowercase, ascii_folded, char_is_uppercase};
use super::reserved_names;

verus! {

/// What a production yields: a value and the position after it, or an
/// error message and the character position it reports.
pub enum Parse<T> {
    Done(T, int),
    Fail(Seq<char>, int),
}

/// The kind of the token at `i`; past either end, the end marker.
pub open spec fn kind_at(ts: Seq<(LexedKind, int, int)>, i: int) -> LexedKind {
    if 0 <= i < ts.len() {
        ts[i].0
    } else {
        LexedKind::Other(TokenKind::End)
    }
}

/// Is the token at `i` the payload-free kind `k`?
pub open spec fn is_at(ts: Seq<(LexedKind, int, int)>, i: int, k: TokenKind) -> bool {
    kind_at(ts, i) == LexedKind::Other(k)
}

/// The character position where the token at `i` starts.
pub open spec fn position_at(ts: Seq<(LexedKind, int, int)>, i: int) -> int {
    if 0 <= i < ts.len() {
        ts[i].1
    } else {
        0
    }
}

/// An error reported at the token at `i`.
pub open spec fn fail<T>(message: Seq<char>, ts: Seq<(LexedKind, int, int)>, i: int) -> Parse<T> {
    Parse::Fail(message, position_at(ts, i))
}

/// The outcome of a step that cannot happen: a production never ends
/// before it started, nor past the end marker.
pub open spec fn stuck<T>() -> Parse<T> {
    Parse::Fail(Seq::empty(), -1)
}

/// A name that cannot be assigned, defined, or bound (in any letter case).
pub open spec fn reserved(name: Seq<char>) -> bool {
    reserved_names().contains(lowercase(name))
}

/// Does `s` start with `prefix`?
pub open spec fn starts_with(s: Seq<char>, prefix: Seq<char>) -> bool {
    prefix.len() <= s.len() && s.subrange(0, prefix.len() as int) == prefix
}

/// `sigma_x` / `product_x` spellings (any letter case), reserved for the
/// indexed reductions.
pub open spec fn is_reduction_name(name: Seq<char>) -> bool {
    starts_with(lowercase(name), "sigma_"@) || starts_with(lowercase(name), "product_"@)
}

/// Does `name` spell `word`, ignoring ASCII letter case?
pub open spec fn folds_to(name: Seq<char>, word: Seq<char>) -> bool {
    ascii_folded(name) == ascii_folded(word)
}

/// Does `name` start with an uppercase letter?
pub open spec fn capitalized(name: Seq<char>) -> bool {
    name.len() > 0 && char_is_uppercase(name[0])
}

/// The comparison a token spells, if any.
pub open spec fn comparison_of(k: LexedKind) -> Option<ComparisonOperator> {
    match k {
        LexedKind::Other(TokenKind::LessThan) => Some(ComparisonOperator::Less),
        LexedKind::Other(TokenKind::GreaterThan) => Some(ComparisonOperator::Greater),
        LexedKind::Other(TokenKind::LessOrEqual) => Some(ComparisonOperator::LessOrEqual),
        LexedKind::Other(TokenKind::GreaterOrEqual) => Some(ComparisonOperator::GreaterOrEqual),
        LexedKind::Other(TokenKind::EqualEqual) => Some(ComparisonOperator::Equal),
        LexedKind::Other(TokenKind::NotEqual) => Some(ComparisonOperator::NotEqual),
        _ => None,
    }
}

/// The error for a glyph that only Programmer mode gives a meaning.
pub open spec fn mode_operator_message(glyph: Seq<char>, function: Seq<char>) -> Seq<char> {
    "'"@ + glyph + "' is a Programmer-mode operator — use "@ + function
        + "(…), or switch to Programmer mode"@
}

/// The arithmetic operator symbols that can name an overload definition.
pub open spec fn operator_name(k: LexedKind) -> Option<Seq<char>> {
    match k {
        LexedKind::Other(TokenKind::Plus) => Some("+"@),
        LexedKind::Other(TokenKind::Minus) => Some("-"@),
        LexedKind::Other(TokenKind::Star) => Some("*"@),
        LexedKind::Other(TokenKind::Slash) => Some("/"@),
        LexedKind::Other(TokenKind::Caret) => Some("^"@),
        _ => None,
    }
}

/// Do two of the names agree once lowercased?
pub open spec fn has_duplicate(names: Seq<Seq<char>>) -> bool {
    exists|a: int, b: int| 0 <= a < b < names.len() && lowercase(names[a]) == lowercase(names[b])
}

/// The first reserved name, in order.
pub open spec fn first_reserved(names: Seq<Seq<char>>) -> Option<Seq<char>>
    decreases names.len(),
{
    if names.len() == 0 {
        None
    } else if reserved(names[0]) {
        Some(names[0])
    } else {
        first_reserved(names.drop_first())
    }
}

/// Is `key` already a key of the entries (exactly)?
pub open spec fn has_key(entries: Seq<(Seq<char>, Tree)>, key: Seq<char>) -> bool {
    exists|k: int| 0 <= k < entries.len() && entries[k].0 == key
}

/// Is `name` already a field name, ignoring ASCII letter case?
pub open spec fn has_field(fields: Seq<(Seq<char>, FieldTypeModel)>, name: Seq<char>) -> bool {
    exists|k: int| 0 <= k < fields.len() && folds_to(fields[k].0, name)
}

/// The parameter names of a definition.
pub open spec fn parameter_names(ps: Seq<(Seq<char>, Option<AnnotationModel>)>) -> Seq<Seq<char>> {
    ps.map_values(|p: (Seq<char>, Option<AnnotationModel>)| p.0)
}

/// Does an argument list open with `name: value`? Either an identifier
/// directly followed by `:`, or a compact `age:36` lexed as a cell
/// reference with a multi-letter column (real columns are one letter).
pub open spec fn named_start(ts: Seq<(LexedKind, int, int)>, i: int) -> bool {
    (kind_at(ts, i) is Identifier && is_at(ts, i + 1, TokenKind::Colon)) || match kind_at(ts, i) {
        LexedKind::CellReference(column, _, _, _) => column.len() > 1,
        _ => false,
    }
}

/// The parameter list of a function definition after its `(`: names with
/// optional `: Type` annotations, then `)`. `None` when the shape is not
/// exactly that (the definition then is not one).
pub open spec fn definition_parameters(
    ts: Seq<(LexedKind, int, int)>,
    i: int,
    acc: Seq<(Seq<char>, Option<AnnotationModel>)>,
) -> Option<(Seq<(Seq<char>, Option<AnnotationModel>)>, int)>
    decreases ts.len() - i,
{
    match kind_at(ts, i) {
        LexedKind::Other(TokenKind::RightParen) => if acc.len() == 0 {
            Some((acc, i + 1))
        } else {
            None
        },
        LexedKind::Identifier(name) => {
            let typed = is_at(ts, i + 1, TokenKind::Colon);
            let annotation = match kind_at(ts, i + 2) {
                LexedKind::Identifier(t) => Some(annotation_named(t)),
                _ => None,
            };
            if typed && annotation is None {
                None
            } else {
                let next = if typed { i + 3 } else { i + 1 };
                let acc2 = acc.push((name, if typed { annotation } else { None }));
                if is_at(ts, next, TokenKind::Comma) {
                    definition_parameters(ts, next + 1, acc2)
                } else if is_at(ts, next, TokenKind::RightParen) {
                    Some((acc2, next + 1))
                } else {
                    None
                }
            }
        },
        _ => None,
    }
}

/// The parameter list of a lambda after its `(`: plain names, then `)`.
/// `None` when the shape is not exactly that.
pub open spec fn lambda_parameters(ts: Seq<(LexedKind, int, int)>, i: int, acc: Seq<Seq<char>>) -> Option<
    (Seq<Seq<char>>, int),
>
    decreases ts.len() - i,
{
    match kind_at(ts, i) {
        LexedKind::Other(TokenKind::RightParen) => if acc.len() == 0 {
            Some((acc, i + 1))
        } else {
            None
        },
        LexedKind::Identifier(name) => if is_at(ts, i + 1, TokenKind::Comma) {
            lambda_parameters(ts, i + 2, acc.push(name))
        } else if is_at(ts, i + 1, TokenKind::RightParen) {
            Some((acc.push(name), i + 2))
        } else {
            None
        },
        _ => None,
    }
}


/// The error for a field type that is none of the accepted shapes.
pub open spec fn field_types_message(field: Seq<char>) -> Seq<char> {
    "field types are Number, String, Boolean, a declared data type, or a list/map of those ([T], {String: T}) — e.g. "@
        + field + ": Number"@
}

/// A canonical two-argument call.
pub open spec fn call2(name: Seq<char>, a: Tree, b: Tree) -> Tree {
    Tree::Call(name, seq![a, b])
}

// The productions. They call each other recursively; they are stated as one
// function of the production to read, so that each unfolds one step at a
// time.

/// A production of the grammar, with what it carries along (the left
/// operand read so far, the items collected so far, …).
pub enum Production {
    Statement,
    NamespaceDefinition,
    NamespaceMembers(Seq<char>, int, Seq<Tree>),
    DataDefinition,
    DataFields(Seq<char>, Seq<(Seq<char>, FieldTypeModel)>),
    FieldType(Seq<char>),
    FunctionDefinition,
    LambdaExpression,
    LambdaBody(Seq<Seq<char>>, int),
    Comparison,
    BitwiseOr,
    OrRest(Tree),
    BitwiseXor,
    XorRest(Tree),
    BitwiseAnd,
    AndRest(Tree),
    Shift,
    ShiftRest(Tree),
    Additive,
    AdditiveRest(Tree),
    Term,
    TermRest(Tree),
    Unary,
    Power,
    Postfix,
    PostfixRest(Tree),
    Primary,
    IdentifierPrimary(Seq<char>, int),
    MathReduction(ReductionOperation, Seq<char>, int),
    SignedPrimary,
    BoundPrimary,
    QualifiedName(Seq<char>, Seq<char>),
    QualifiedReference(Seq<char>),
    CellReferenceOrRange(Option<Seq<char>>, Seq<char>, i64),
    ArgumentList,
    ArgumentsRest(Seq<Tree>),
    NamedArguments(int, Seq<(Seq<char>, Tree)>),
    ArrayLiteral,
    ArrayRest(Seq<Tree>),
    MapLiteral,
    MapEntries(int, Seq<(Seq<char>, Tree)>),
}

/// What a production reads.
pub enum Output {
    Tree(Tree),
    Trees(Seq<Tree>),
    Maybe(Option<Tree>),
    Fields(Seq<(Seq<char>, FieldTypeModel)>),
    Type(FieldTypeModel),
}

/// A `Tree` outcome as a general one.
pub open spec fn into_tree(p: Parse<Tree>) -> Parse<Output> {
    match p {
        Parse::Done(v, j) => Parse::Done(Output::Tree(v), j),
        Parse::Fail(m, q) => Parse::Fail(m, q),
    }
}

/// A general outcome read as a `Tree` one (an outcome of another kind
/// reads as no outcome at all).
pub open spec fn out_tree(p: Parse<Output>) -> Parse<Tree> {
    match p {
        Parse::Done(Output::Tree(v), j) => Parse::Done(v, j),
        Parse::Done(_, _) => stuck(),
        Parse::Fail(m, q) => Parse::Fail(m, q),
    }
}

/// A `Seq<Tree>` outcome as a general one.
pub open spec fn into_trees(p: Parse<Seq<Tree>>) -> Parse<Output> {
    match p {
        Parse::Done(v, j) => Parse::Done(Output::Trees(v), j),
        Parse::Fail(m, q) => Parse::Fail(m, q),
    }
}

/// A general outcome read as a `Seq<Tree>` one (an outcome of another kind
/// reads as no outcome at all).
pub open spec fn out_trees(p: Parse<Output>) -> Parse<Seq<Tree>> {
    match p {
        Parse::Done(Output::Trees(v), j) => Parse::Done(v, j),
        Parse::Done(_, _) => stuck(),
        Parse::Fail(m, q) => Parse::Fail(m, q),
    }
}

/// A `Option<Tree>` outcome as a general one.
pub open spec fn into_maybe(p: Parse<Option<Tree>>) -> Parse<Output> {
    match p {
        Parse::Done(v, j) => Parse::Done(Output::Maybe(v), j),
        Parse::Fail(m, q) => Parse::Fail(m, q),
    }
}

/// A general outcome read as a `Option<Tree>` one (an outcome of another kind
/// reads as no outcome at all).
pub open spec fn out_maybe(p: Parse<Output>) -> Parse<Option<Tree>> {
    match p {
        Parse::Done(Output::Maybe(v), j) => Parse::Done(v, j),
        Parse::Done(_, _) => stuck(),
        Parse::Fail(m, q) => Parse::Fail(m, q),
    }
}

/// A `Seq<(Seq<char>, FieldTypeModel)>` outcome as a general one.
pub open spec fn into_fields(p: Parse<Seq<(Seq<char>, FieldTypeModel)>>) -> Parse<Output> {
    match p {
        Parse::Done(v, j) => Parse::Done(Output::Fields(v), j),
        Parse::Fail(m, q) => Parse::Fail(m, q),
    }
}

/// A general outcome read as a `Seq<(Seq<char>, FieldTypeModel)>` one (an outcome of another kind
/// reads as no outcome at all).
pub open spec fn out_fields(p: Parse<Output>) -> Parse<Seq<(Seq<char>, FieldTypeModel)>> {
    match p {
        Parse::Done(Output::Fields(v), j) => Parse::Done(v, j),
        Parse::Done(_, _) => stuck(),
        Parse::Fail(m, q) => Parse::Fail(m, q),
    }
}

/// A `FieldTypeModel` outcome as a general one.
pub open spec fn into_type(p: Parse<FieldTypeModel>) -> Parse<Output> {
    match p {
        Parse::Done(v, j) => Parse::Done(Output::Type(v), j),
        Parse::Fail(m, q) => Parse::Fail(m, q),
    }
}

/// A general outcome read as a `FieldTypeModel` one (an outcome of another kind
/// reads as no outcome at all).
pub open spec fn out_type(p: Parse<Output>) -> Parse<FieldTypeModel> {
    match p {
        Parse::Done(Output::Type(v), j) => Parse::Done(v, j),
        Parse::Done(_, _) => stuck(),
        Parse::Fail(m, q) => Parse::Fail(m, q),
    }
}

/// The order in which productions call each other at one position.
pub open spec fn rank(p: Production) -> int {
    match p {
        Production::Statement => 50,
        Production::NamespaceDefinition => 49,
        Production::NamespaceMembers(..) => 51,
        Production::DataDefinition => 48,
        Production::DataFields(..) => 10,
        Production::FieldType(..) => 5,
        Production::FunctionDefinition => 47,
        Production::LambdaExpression => 45,
        Production::LambdaBody(..) => 47,
        Production::Comparison => 46,
        Production::BitwiseOr => 44,
        Production::OrRest(..) => 43,
        Production::BitwiseXor => 42,
        Production::XorRest(..) => 41,
        Production::BitwiseAnd => 40,
        Production::AndRest(..) => 39,
        Production::Shift => 38,
        Production::ShiftRest(..) => 37,
        Production::Additive => 36,
        Production::AdditiveRest(..) => 35,
        Production::Term => 34,
        Production::TermRest(..) => 33,
        Production::Unary => 32,
        Production::Power => 31,
        Production::Postfix => 30,
        Production::PostfixRest(..) => 29,
        Production::Primary => 28,
        Production::IdentifierPrimary(..) => 70,
        Production::MathReduction(..) => 58,
        Production::SignedPrimary => 57,
        Production::BoundPrimary => 56,
        Production::QualifiedName(..) => 55,
        Production::QualifiedReference(..) => 54,
        Production::CellReferenceOrRange(..) => 53,
        Production::ArgumentList => 62,
        Production::ArgumentsRest(..) => 60,
        Production::NamedArguments(..) => 61,
        Production::ArrayLiteral => 52,
        Production::ArrayRest(..) => 51,
        Production::MapLiteral => 9,
        Production::MapEntries(..) => 8,
    }
}

/// What production `p` reads from the token at `i` on, in Programmer mode
/// or not (the only distinction the grammar makes between modes).
pub open spec fn reads(ts: Seq<(LexedKind, int, int)>, programmer: bool, p: Production, i: int) -> Parse<Output>
    decreases ts.len() - i, rank(p),
{
    match p {
        Production::Statement => into_tree({
            let plain = match out_maybe(reads(ts, programmer, Production::NamespaceDefinition, i)) {
                Parse::Fail(m, p) => Parse::Fail(m, p),
                Parse::Done(Some(t), j) => Parse::Done(t, j),
                Parse::Done(None, _) => match out_maybe(reads(ts, programmer, Production::DataDefinition, i)) {
                    Parse::Fail(m, p) => Parse::Fail(m, p),
                    Parse::Done(Some(t), j) => Parse::Done(t, j),
                    Parse::Done(None, _) => match out_maybe(reads(ts, programmer, Production::FunctionDefinition, i)) {
                        Parse::Fail(m, p) => Parse::Fail(m, p),
                        Parse::Done(Some(t), j) => Parse::Done(t, j),
                        Parse::Done(None, _) => out_tree(reads(ts, programmer, Production::Comparison, i)),
                    },
                },
            };
            match kind_at(ts, i) {
                LexedKind::Identifier(name) => if is_at(ts, i + 1, TokenKind::Assign) && !is_reduction_name(name) {
                    if reserved(name) {
                        fail("cannot assign to '"@ + name + "'"@, ts, i)
                    } else {
                        match out_tree(reads(ts, programmer, Production::Comparison, i + 2)) {
                            Parse::Done(value, j) => Parse::Done(Tree::Assignment(name, Box::new(value)), j),
                            Parse::Fail(m, p) => Parse::Fail(m, p),
                        }
                    }
                } else if folds_to(name, "import"@) && kind_at(ts, i + 1) is Identifier {
                    Parse::Done(Tree::ImportDirective(kind_at(ts, i + 1)->Identifier_0), i + 2)
                } else {
                    plain
                },
                _ => plain,
            }
        }),
        Production::NamespaceDefinition => into_maybe({
            match kind_at(ts, i) {
                LexedKind::Identifier(keyword) => if !folds_to(keyword, "namespace"@) || i + 2 >= ts.len() {
                    Parse::Done(None, i)
                } else {
                    match kind_at(ts, i + 1) {
                        LexedKind::Identifier(name) => if !is_at(ts, i + 2, TokenKind::LeftBrace) {
                            Parse::Done(None, i)
                        } else if !capitalized(name) {
                            fail("namespace names start with a capital letter — e.g. namespace Bits { … }"@, ts, i + 1)
                        } else if reserved(name) || is_reduction_name(name) {
                            fail("cannot define '"@ + name + "'"@, ts, i + 1)
                        } else {
                            match out_trees(reads(ts, programmer, Production::NamespaceMembers(name, position_at(ts, i + 1), Seq::empty()), i + 3)) {
                                Parse::Done(members, j) => Parse::Done(Some(Tree::NamespaceDefinition(name, members)), j),
                                Parse::Fail(m, p) => Parse::Fail(m, p),
                            }
                        },
                        _ => Parse::Done(None, i),
                    }
                },
                _ => Parse::Done(None, i),
            }
        }),
        Production::NamespaceMembers(name, name_position, acc) => into_trees({
            if is_at(ts, i, TokenKind::RightBrace) {
                if acc.len() == 0 {
                    Parse::Fail("a namespace needs at least one declaration — e.g. namespace "@ + name
                        + " { data Point { x: Number } }"@, name_position)
                } else {
                    Parse::Done(acc, i + 1)
                }
            } else if is_at(ts, i, TokenKind::End) {
                fail("expected '}' to close namespace "@ + name, ts, i)
            } else {
                match out_tree(reads(ts, programmer, Production::Statement, i)) {
                    Parse::Fail(m, p) => Parse::Fail(m, p),
                    Parse::Done(member, j) => if !(i <= j < ts.len()) {
                        stuck()
                    } else if is_at(ts, j, TokenKind::Semicolon) {
                        out_trees(reads(ts, programmer, Production::NamespaceMembers(name, name_position, acc.push(member)), j + 1))
                    } else if is_at(ts, j, TokenKind::RightBrace) {
                        Parse::Done(acc.push(member), j + 1)
                    } else {
                        fail("separate namespace declarations with ';' — e.g. data A { … }; f(x) = …"@, ts, j)
                    },
                }
            }
        }),
        Production::DataDefinition => into_maybe({
            match kind_at(ts, i) {
                LexedKind::Identifier(keyword) => if !folds_to(keyword, "data"@) || i + 2 >= ts.len() {
                    Parse::Done(None, i)
                } else {
                    match kind_at(ts, i + 1) {
                        LexedKind::Identifier(name) => if !is_at(ts, i + 2, TokenKind::LeftBrace) {
                            Parse::Done(None, i)
                        } else if !capitalized(name) {
                            fail("data type names start with a capital letter — e.g. data Person { … }"@, ts, i + 1)
                        } else if reserved(name) || is_reduction_name(name) {
                            fail("cannot define '"@ + name + "'"@, ts, i + 1)
                        } else {
                            match out_fields(reads(ts, programmer, Production::DataFields(name, Seq::empty()), i + 3)) {
                                Parse::Done(fields, j) => Parse::Done(Some(Tree::DataDefinition(name, fields)), j),
                                Parse::Fail(m, p) => Parse::Fail(m, p),
                            }
                        },
                        _ => Parse::Done(None, i),
                    }
                },
                _ => Parse::Done(None, i),
            }
        }),
        Production::DataFields(name, acc) => into_fields({
            match kind_at(ts, i) {
                LexedKind::Identifier(field) => if !is_at(ts, i + 1, TokenKind::Colon) {
                    fail("expected ':' after field '"@ + field + "' — e.g. "@ + field + ": Number"@, ts, i + 1)
                } else {
                    match out_type(reads(ts, programmer, Production::FieldType(field), i + 2)) {
                        Parse::Fail(m, p) => Parse::Fail(m, p),
                        Parse::Done(t, j) => if !(i < j < ts.len()) {
                            stuck()
                        } else if has_field(acc, field) {
                            fail("duplicate field '"@ + field + "'"@, ts, i)
                        } else if is_at(ts, j, TokenKind::Comma) {
                            out_fields(reads(ts, programmer, Production::DataFields(name, acc.push((field, t))), j + 1))
                        } else if is_at(ts, j, TokenKind::RightBrace) {
                            Parse::Done(acc.push((field, t)), j + 1)
                        } else {
                            fail("expected '}' or ','"@, ts, j)
                        },
                    }
                },
                _ => if is_at(ts, i, TokenKind::RightBrace) && acc.len() == 0 {
                    fail("a data type needs at least one field — e.g. data "@ + name + " { name: String }"@, ts, i)
                } else {
                    fail("expected a field — e.g. data "@ + name + " { name: String, age: Number }"@, ts, i)
                },
            }
        }),
        Production::FieldType(field) => into_type({
            match kind_at(ts, i) {
                LexedKind::Other(TokenKind::LeftBracket) => match out_type(reads(ts, programmer, Production::FieldType(field), i + 1)) {
                    Parse::Fail(m, p) => Parse::Fail(m, p),
                    Parse::Done(element, j) => if !is_at(ts, j, TokenKind::RightBracket) {
                        fail("expected ']' to close the list type — e.g. [String]"@, ts, j)
                    } else {
                        Parse::Done(FieldTypeModel::List(Box::new(element)), j + 1)
                    },
                },
                LexedKind::Other(TokenKind::LeftBrace) => if !(kind_at(ts, i + 1) is Identifier && folds_to(
                    kind_at(ts, i + 1)->Identifier_0,
                    "string"@,
                )) {
                    fail("map field keys are String — e.g. {String: Number}"@, ts, i + 1)
                } else if !is_at(ts, i + 2, TokenKind::Colon) {
                    fail("expected ':' in the map type — e.g. {String: Number}"@, ts, i + 2)
                } else {
                    match out_type(reads(ts, programmer, Production::FieldType(field), i + 3)) {
                        Parse::Fail(m, p) => Parse::Fail(m, p),
                        Parse::Done(value, j) => if !is_at(ts, j, TokenKind::RightBrace) {
                            fail("expected '}' to close the map type — e.g. {String: Number}"@, ts, j)
                        } else {
                            Parse::Done(FieldTypeModel::StringMap(Box::new(value)), j + 1)
                        },
                    }
                },
                LexedKind::Identifier(t) => match leaf_type_named(t) {
                    Some(leaf) => Parse::Done(leaf, i + 1),
                    None => fail(field_types_message(field), ts, i),
                },
                _ => fail(field_types_message(field), ts, i),
            }
        }),
        Production::FunctionDefinition => into_maybe({
            let name = match kind_at(ts, i) {
                LexedKind::Identifier(n) => Some(n),
                k => operator_name(k),
            };
            match name {
                None => Parse::Done(None, i),
                Some(name) => if !is_at(ts, i + 1, TokenKind::LeftParen) {
                    Parse::Done(None, i)
                } else {
                    match definition_parameters(ts, i + 2, Seq::empty()) {
                        None => Parse::Done(None, i),
                        Some((parameters, j)) => if !is_at(ts, j, TokenKind::Assign) {
                            Parse::Done(None, i)
                        } else if reserved(name) || is_reduction_name(name) {
                            fail("cannot define '"@ + name + "'"@, ts, i)
                        } else if has_duplicate(parameter_names(parameters)) {
                            fail("duplicate parameter name"@, ts, i)
                        } else if !(i < j < ts.len()) {
                            stuck()
                        } else {
                            match out_tree(reads(ts, programmer, Production::Comparison, j + 1)) {
                                Parse::Done(body, k) => Parse::Done(
                                    Some(Tree::FunctionDefinition(name, parameters, Box::new(body))),
                                    k,
                                ),
                                Parse::Fail(m, p) => Parse::Fail(m, p),
                            }
                        },
                    }
                },
            }
        }),
        Production::LambdaExpression => into_maybe({
            match kind_at(ts, i) {
                LexedKind::Identifier(name) if is_at(ts, i + 1, TokenKind::Arrow) => match out_tree(reads(ts, programmer, Production::LambdaBody(seq![name], position_at(ts, i)), i + 2)) {
                    Parse::Done(t, j) => Parse::Done(Some(t), j),
                    Parse::Fail(m, p) => Parse::Fail(m, p),
                },
                _ => if !is_at(ts, i, TokenKind::LeftParen) {
                    Parse::Done(None, i)
                } else {
                    match lambda_parameters(ts, i + 1, Seq::empty()) {
                        None => Parse::Done(None, i),
                        Some((parameters, j)) => if !is_at(ts, j, TokenKind::Arrow) || !(i < j) {
                            Parse::Done(None, i)
                        } else {
                            match out_tree(reads(ts, programmer, Production::LambdaBody(parameters, position_at(ts, i)), j + 1)) {
                                Parse::Done(t, k) => Parse::Done(Some(t), k),
                                Parse::Fail(m, p) => Parse::Fail(m, p),
                            }
                        },
                    }
                },
            }
        }),
        Production::LambdaBody(parameters, position) => into_tree({
            if has_duplicate(parameters) {
                Parse::Fail("duplicate parameter name"@, position)
            } else if first_reserved(parameters) is Some {
                Parse::Fail("cannot use '"@ + first_reserved(parameters)->Some_0 + "' as a parameter"@, position)
            } else {
                match out_tree(reads(ts, programmer, Production::Comparison, i)) {
                    Parse::Done(body, j) => Parse::Done(Tree::Lambda(parameters, Box::new(body)), j),
                    Parse::Fail(m, p) => Parse::Fail(m, p),
                }
            }
        }),
        Production::Comparison => into_tree({
            match out_maybe(reads(ts, programmer, Production::LambdaExpression, i)) {
                Parse::Fail(m, p) => Parse::Fail(m, p),
                Parse::Done(Some(t), j) => Parse::Done(t, j),
                Parse::Done(None, _) => match out_tree(reads(ts, programmer, Production::BitwiseOr, i)) {
                    Parse::Fail(m, p) => Parse::Fail(m, p),
                    Parse::Done(lhs, j) => if !(i <= j < ts.len()) {
                        stuck()
                    } else {
                        match comparison_of(kind_at(ts, j)) {
                            None => Parse::Done(lhs, j),
                            Some(op) => match out_tree(reads(ts, programmer, Production::BitwiseOr, j + 1)) {
                                Parse::Fail(m, p) => Parse::Fail(m, p),
                                Parse::Done(rhs, k) => if comparison_of(kind_at(ts, k)) is Some {
                                    fail("comparisons can't be chained — use and(a < b, b < c)"@, ts, k)
                                } else {
                                    Parse::Done(Tree::Comparison(op, Box::new(lhs), Box::new(rhs)), k)
                                },
                            },
                        }
                    },
                },
            }
        }),
        Production::BitwiseOr => into_tree({
            match out_tree(reads(ts, programmer, Production::BitwiseXor, i)) {
                Parse::Fail(m, p) => Parse::Fail(m, p),
                Parse::Done(lhs, j) => if !(i <= j < ts.len()) {
                    stuck()
                } else {
                    out_tree(reads(ts, programmer, Production::OrRest(lhs), j))
                },
            }
        }),
        Production::OrRest(lhs) => into_tree({
            if !is_at(ts, i, TokenKind::Pipe) {
                Parse::Done(lhs, i)
            } else if !programmer {
                fail(mode_operator_message("|"@, "bitOr"@), ts, i)
            } else {
                match out_tree(reads(ts, programmer, Production::BitwiseXor, i + 1)) {
                    Parse::Fail(m, p) => Parse::Fail(m, p),
                    Parse::Done(rhs, j) => if !(i < j < ts.len()) {
                        stuck()
                    } else {
                        out_tree(reads(ts, programmer, Production::OrRest(call2("bitOr"@, lhs, rhs)), j))
                    },
                }
            }
        }),
        Production::BitwiseXor => into_tree({
            match out_tree(reads(ts, programmer, Production::BitwiseAnd, i)) {
                Parse::Fail(m, p) => Parse::Fail(m, p),
                Parse::Done(lhs, j) => if !(i <= j < ts.len()) {
                    stuck()
                } else {
                    out_tree(reads(ts, programmer, Production::XorRest(lhs), j))
                },
            }
        }),
        Production::XorRest(lhs) => into_tree({
            if !(programmer && is_at(ts, i, TokenKind::Caret)) {
                Parse::Done(lhs, i)
            } else {
                match out_tree(reads(ts, programmer, Production::BitwiseAnd, i + 1)) {
                    Parse::Fail(m, p) => Parse::Fail(m, p),
                    Parse::Done(rhs, j) => if !(i < j < ts.len()) {
                        stuck()
                    } else {
                        out_tree(reads(ts, programmer, Production::XorRest(call2("bitXor"@, lhs, rhs)), j))
                    },
                }
            }
        }),
        Production::BitwiseAnd => into_tree({
            match out_tree(reads(ts, programmer, Production::Shift, i)) {
                Parse::Fail(m, p) => Parse::Fail(m, p),
                Parse::Done(lhs, j) => if !(i <= j < ts.len()) {
                    stuck()
                } else {
                    out_tree(reads(ts, programmer, Production::AndRest(lhs), j))
                },
            }
        }),
        Production::AndRest(lhs) => into_tree({
            if !is_at(ts, i, TokenKind::Ampersand) {
                Parse::Done(lhs, i)
            } else if !programmer {
                fail(mode_operator_message("&"@, "bitAnd"@), ts, i)
            } else {
                match out_tree(reads(ts, programmer, Production::Shift, i + 1)) {
                    Parse::Fail(m, p) => Parse::Fail(m, p),
                    Parse::Done(rhs, j) => if !(i < j < ts.len()) {
                        stuck()
                    } else {
                        out_tree(reads(ts, programmer, Production::AndRest(call2("bitAnd"@, lhs, rhs)), j))
                    },
                }
            }
        }),
        Production::Shift => into_tree({
            match out_tree(reads(ts, programmer, Production::Additive, i)) {
                Parse::Fail(m, p) => Parse::Fail(m, p),
                Parse::Done(lhs, j) => if !(i <= j < ts.len()) {
                    stuck()
                } else {
                    out_tree(reads(ts, programmer, Production::ShiftRest(lhs), j))
                },
            }
        }),
        Production::ShiftRest(lhs) => into_tree({
            let left = is_at(ts, i, TokenKind::ShiftLeft);
            if !left && !is_at(ts, i, TokenKind::ShiftRight) {
                Parse::Done(lhs, i)
            } else if !programmer {
                fail(mode_operator_message(if left { "<<"@ } else { ">>"@ }, "bitShift"@), ts, i)
            } else {
                match out_tree(reads(ts, programmer, Production::Additive, i + 1)) {
                    Parse::Fail(m, p) => Parse::Fail(m, p),
                    Parse::Done(rhs, j) => if !(i < j < ts.len()) {
                        stuck()
                    } else {
                        out_tree(reads(ts, programmer, Production::ShiftRest(call2("bitShift"@, lhs, if left { rhs } else { Tree::UnaryMinus(Box::new(rhs)) })), j))
                    },
                }
            }
        }),
        Production::Additive => into_tree({
            match out_tree(reads(ts, programmer, Production::Term, i)) {
                Parse::Fail(m, p) => Parse::Fail(m, p),
                Parse::Done(lhs, j) => if !(i <= j < ts.len()) {
                    stuck()
                } else {
                    out_tree(reads(ts, programmer, Production::AdditiveRest(lhs), j))
                },
            }
        }),
        Production::AdditiveRest(lhs) => into_tree({
            let plus = is_at(ts, i, TokenKind::Plus);
            if !plus && !is_at(ts, i, TokenKind::Minus) {
                Parse::Done(lhs, i)
            } else {
                match out_tree(reads(ts, programmer, Production::Term, i + 1)) {
                    Parse::Fail(m, p) => Parse::Fail(m, p),
                    Parse::Done(rhs, j) => if !(i < j < ts.len()) {
                        stuck()
                    } else {
                        out_tree(reads(ts, programmer, Production::AdditiveRest(Tree::Binary( if plus { BinaryOperator::Add } else { BinaryOperator::Subtract }, Box::new(lhs), Box::new(rhs), )), j))
                    },
                }
            }
        }),
        Production::Term => into_tree({
            match out_tree(reads(ts, programmer, Production::Unary, i)) {
                Parse::Fail(m, p) => Parse::Fail(m, p),
                Parse::Done(lhs, j) => if !(i <= j < ts.len()) {
                    stuck()
                } else {
                    out_tree(reads(ts, programmer, Production::TermRest(lhs), j))
                },
            }
        }),
        Production::TermRest(lhs) => into_tree({
            let k = kind_at(ts, i);
            let explicit = k == LexedKind::Other(TokenKind::Star) || k == LexedKind::Other(TokenKind::Slash) || (k
                == LexedKind::Other(TokenKind::Percent) && programmer);
            let implicit = k == LexedKind::Other(TokenKind::LeftParen) || k is Identifier || k is CellReference;
            if k is Number {
                fail("a number can't directly follow another value — add an operator (e.g. 3 * 4)"@, ts, i)
            } else if !explicit && !implicit {
                Parse::Done(lhs, i)
            } else {
                match out_tree(reads(ts, programmer, Production::Unary, if explicit { i + 1 } else { i })) {
                    Parse::Fail(m, p) => Parse::Fail(m, p),
                    Parse::Done(rhs, j) => if !(i < j < ts.len()) {
                        stuck()
                    } else {
                        out_tree(reads(ts, programmer, Production::TermRest(if k == LexedKind::Other(TokenKind::Percent) { call2("mod"@, lhs, rhs) } else { Tree::Binary( if k == LexedKind::Other(TokenKind::Slash) { BinaryOperator::Divide } else { BinaryOperator::Multiply }, Box::new(lhs), Box::new(rhs), ) }), j))
                    },
                }
            }
        }),
        Production::Unary => into_tree({
            let k = kind_at(ts, i);
            if k == LexedKind::Other(TokenKind::Tilde) && !programmer {
                fail(mode_operator_message("~"@, "bitNot"@), ts, i)
            } else if k == LexedKind::Other(TokenKind::Minus) || k == LexedKind::Other(TokenKind::Plus) || k
                == LexedKind::Other(TokenKind::SqrtSign) || k == LexedKind::Other(TokenKind::Tilde) {
                match out_tree(reads(ts, programmer, Production::Unary, i + 1)) {
                    Parse::Fail(m, p) => Parse::Fail(m, p),
                    Parse::Done(t, j) => Parse::Done(
                        if k == LexedKind::Other(TokenKind::Minus) {
                            Tree::UnaryMinus(Box::new(t))
                        } else if k == LexedKind::Other(TokenKind::Plus) {
                            t
                        } else if k == LexedKind::Other(TokenKind::SqrtSign) {
                            Tree::Call("sqrt"@, seq![t])
                        } else {
                            Tree::Call("bitNot"@, seq![t])
                        },
                        j,
                    ),
                }
            } else {
                out_tree(reads(ts, programmer, Production::Power, i))
            }
        }),
        Production::Power => into_tree({
            match out_tree(reads(ts, programmer, Production::Postfix, i)) {
                Parse::Fail(m, p) => Parse::Fail(m, p),
                Parse::Done(base, j) => if !(i <= j < ts.len()) {
                    stuck()
                } else if programmer || !is_at(ts, j, TokenKind::Caret) {
                    Parse::Done(base, j)
                } else {
                    match out_tree(reads(ts, programmer, Production::Unary, j + 1)) {
                        Parse::Fail(m, p) => Parse::Fail(m, p),
                        Parse::Done(exponent, k) => Parse::Done(
                            Tree::Binary(BinaryOperator::Power, Box::new(base), Box::new(exponent)),
                            k,
                        ),
                    }
                },
            }
        }),
        Production::Postfix => into_tree({
            match out_tree(reads(ts, programmer, Production::Primary, i)) {
                Parse::Fail(m, p) => Parse::Fail(m, p),
                Parse::Done(base, j) => if !(i <= j < ts.len()) {
                    stuck()
                } else {
                    out_tree(reads(ts, programmer, Production::PostfixRest(base), j))
                },
            }
        }),
        Production::PostfixRest(e) => into_tree({
            match kind_at(ts, i) {
                LexedKind::Other(TokenKind::LeftBracket) => match out_tree(reads(ts, programmer, Production::Comparison, i + 1)) {
                    Parse::Fail(m, p) => Parse::Fail(m, p),
                    Parse::Done(index, j) => if !(i < j < ts.len()) {
                        stuck()
                    } else if !is_at(ts, j, TokenKind::RightBracket) {
                        fail("expected ']'"@, ts, j)
                    } else {
                        out_tree(reads(ts, programmer, Production::PostfixRest(Tree::Index(Box::new(e), Box::new(index))), j + 1))
                    },
                },
                LexedKind::Other(TokenKind::Dot) => match kind_at(ts, i + 1) {
                    LexedKind::Identifier(name) => if is_at(ts, i + 2, TokenKind::LeftParen) {
                        match out_trees(reads(ts, programmer, Production::ArgumentList, i + 3)) {
                            Parse::Fail(m, p) => Parse::Fail(m, p),
                            Parse::Done(arguments, j) => if !(i < j < ts.len()) {
                                stuck()
                            } else {
                                out_tree(reads(ts, programmer, Production::PostfixRest(Tree::MethodCall(Box::new(e), name, arguments)), j))
                            },
                        }
                    } else {
                        out_tree(reads(ts, programmer, Production::PostfixRest(Tree::Member(Box::new(e), name)), i + 2))
                    },
                    _ => fail("expected a key name after '.' — e.g. person.age"@, ts, i + 1),
                },
                LexedKind::Other(TokenKind::Percent) => if !programmer {
                    out_tree(reads(ts, programmer, Production::PostfixRest(Tree::Percent(Box::new(e))), i + 1))
                } else {
                    Parse::Done(e, i)
                },
                _ => Parse::Done(e, i),
            }
        }),
        Production::Primary => into_tree({
            match kind_at(ts, i) {
                LexedKind::Number(v) => Parse::Done(Tree::Number(v), i + 1),
                LexedKind::Other(TokenKind::Money { value, currency }) => Parse::Done(Tree::Money(value@, currency), i + 1),
                LexedKind::Other(TokenKind::Grouped(v)) => Parse::Done(Tree::Grouped(v@), i + 1),
                LexedKind::CellReference(column, row, _, _) => out_tree(reads(ts, programmer, Production::CellReferenceOrRange(None, column, row), i + 1)),
                LexedKind::QuotedName(name) => if is_at(ts, i + 1, TokenKind::Bang) {
                    out_tree(reads(ts, programmer, Production::QualifiedReference(name), i + 1))
                } else {
                    Parse::Done(Tree::NameReference(None, name), i + 1)
                },
                LexedKind::Identifier(name) => if is_at(ts, i + 1, TokenKind::Bang) {
                    out_tree(reads(ts, programmer, Production::QualifiedReference(name), i + 1))
                } else if is_at(ts, i + 1, TokenKind::ColonColon) {
                    out_tree(reads(ts, programmer, Production::QualifiedName(name, name), i + 1))
                } else {
                    out_tree(reads(ts, programmer, Production::IdentifierPrimary(name, position_at(ts, i)), i + 1))
                },
                LexedKind::Other(TokenKind::LeftParen) => match out_tree(reads(ts, programmer, Production::Comparison, i + 1)) {
                    Parse::Fail(m, p) => Parse::Fail(m, p),
                    Parse::Done(inner, j) => if !(i < j < ts.len()) {
                        stuck()
                    } else if !is_at(ts, j, TokenKind::RightParen) {
                        fail("expected ')'"@, ts, j)
                    } else {
                        Parse::Done(inner, j + 1)
                    },
                },
                LexedKind::Str(text) => Parse::Done(Tree::StringLiteral(text), i + 1),
                LexedKind::Other(TokenKind::LeftBracket) => out_tree(reads(ts, programmer, Production::ArrayLiteral, i + 1)),
                LexedKind::Other(TokenKind::LeftBrace) => out_tree(reads(ts, programmer, Production::MapLiteral, i + 1)),
                LexedKind::Other(TokenKind::End) => fail("unexpected end of expression"@, ts, i),
                _ => fail("unexpected token"@, ts, i),
            }
        }),
        Production::IdentifierPrimary(name, position) => into_tree({
            let lowered = lowercase(name);
            let subscript = match kind_at(ts, i) {
                LexedKind::Identifier(s) => if s.len() > 0 && s[0] == '_' {
                    Some(s.drop_first())
                } else {
                    None
                },
                _ => None,
            };
            if lowered == "sigma"@ && subscript is Some {
                out_tree(reads(ts, programmer, Production::MathReduction(ReductionOperation::Sum, subscript->Some_0, position), i + 1))
            } else if starts_with(lowered, "sigma_"@) && name.len() >= 6 {
                out_tree(reads(ts, programmer, Production::MathReduction(ReductionOperation::Sum, name.skip(6), position), i))
            } else if lowered == "product"@ && subscript is Some {
                out_tree(reads(ts, programmer, Production::MathReduction(ReductionOperation::Product, subscript->Some_0, position), i + 1))
            } else if starts_with(lowered, "product_"@) && name.len() >= 8 {
                out_tree(reads(ts, programmer, Production::MathReduction(ReductionOperation::Product, name.skip(8), position), i))
            } else if lowered == "man"@ || lowered == "manual"@ || lowered == "help"@ {
                if is_at(ts, i, TokenKind::LeftParen) {
                    fail("use `"@ + name + " name` — e.g. "@ + name + " pmt (no parentheses)"@, ts, i)
                } else {
                    match kind_at(ts, i) {
                        LexedKind::Identifier(subject) => Parse::Done(Tree::HelpRequest(subject), i + 1),
                        _ => fail(name + " needs a function name — e.g. "@ + name + " pmt"@, ts, i),
                    }
                }
            } else if !is_at(ts, i, TokenKind::LeftParen) {
                Parse::Done(Tree::Variable(name), i)
            } else {
                match out_trees(reads(ts, programmer, Production::ArgumentList, i + 1)) {
                    Parse::Fail(m, p) => Parse::Fail(m, p),
                    Parse::Done(arguments, j) => if lowered == "sigma"@ {
                        Parse::Done(Tree::Call("sum"@, arguments), j)
                    } else if lowered == "if"@ {
                        if arguments.len() != 3 {
                            Parse::Fail("if expects (condition, then, else)"@, position)
                        } else {
                            Parse::Done(Tree::Conditional(
                                Box::new(arguments[0]),
                                Box::new(arguments[1]),
                                Box::new(arguments[2]),
                            ), j)
                        }
                    } else {
                        Parse::Done(Tree::Call(name, arguments), j)
                    },
                }
            }
        }),
        Production::MathReduction(operation, index, position) => into_tree({
            let symbol = reduction_symbol(operation);
            if index.len() == 0 || !all_alphabetic(index) {
                Parse::Fail("the "@ + symbol + " index must be a plain variable name (e.g. "@ + symbol + "_i=1^10(i))"@,
                    position)
            } else if reserved(index) {
                Parse::Fail("cannot use '"@ + index + "' as the "@ + symbol + " index"@, position)
            } else if !is_at(ts, i, TokenKind::Assign) {
                fail("expected '=' after the "@ + symbol + " index — e.g. "@ + symbol + "_i=1^10(i)"@, ts, i)
            } else {
                match out_tree(reads(ts, programmer, Production::SignedPrimary, i + 1)) {
                    Parse::Fail(m, p) => Parse::Fail(m, p),
                    Parse::Done(lower, j) => if !(i < j < ts.len()) {
                        stuck()
                    } else if !is_at(ts, j, TokenKind::Caret) {
                        fail("expected '^' before the "@ + symbol
                            + " upper bound — parenthesize compound bounds, e.g. "@ + symbol + "_i=(n-1)^10(i)"@, ts, j)
                    } else {
                        match out_tree(reads(ts, programmer, Production::SignedPrimary, j + 1)) {
                            Parse::Fail(m, p) => Parse::Fail(m, p),
                            Parse::Done(upper, k) => if !(j < k < ts.len()) {
                                stuck()
                            } else if !is_at(ts, k, TokenKind::LeftParen) {
                                fail("the "@ + symbol + " term must be parenthesized — e.g. "@ + symbol + "_i=1^10(i)"@, ts, k)
                            } else {
                                match out_tree(reads(ts, programmer, Production::Comparison, k + 1)) {
                                    Parse::Fail(m, p) => Parse::Fail(m, p),
                                    Parse::Done(body, n) => if !is_at(ts, n, TokenKind::RightParen) {
                                        fail("expected ')'"@, ts, n)
                                    } else {
                                        Parse::Done(Tree::Reduction(
                                            operation,
                                            index,
                                            Box::new(lower),
                                            Box::new(upper),
                                            Box::new(body),
                                        ), n + 1)
                                    },
                                }
                            },
                        }
                    },
                }
            }
        }),
        Production::SignedPrimary => into_tree({
            if is_at(ts, i, TokenKind::Minus) {
                match out_tree(reads(ts, programmer, Production::BoundPrimary, i + 1)) {
                    Parse::Fail(m, p) => Parse::Fail(m, p),
                    Parse::Done(t, j) => Parse::Done(Tree::UnaryMinus(Box::new(t)), j),
                }
            } else {
                out_tree(reads(ts, programmer, Production::BoundPrimary, i))
            }
        }),
        Production::BoundPrimary => into_tree({
            match kind_at(ts, i) {
                LexedKind::Number(v) => Parse::Done(Tree::Number(v), i + 1),
                LexedKind::Other(TokenKind::Money { value, currency }) => Parse::Done(Tree::Money(value@, currency), i + 1),
                LexedKind::Other(TokenKind::Grouped(v)) => Parse::Done(Tree::Grouped(v@), i + 1),
                LexedKind::CellReference(column, row, _, _) => Parse::Done(Tree::CellReference(None, column, row), i + 1),
                LexedKind::Identifier(name) => Parse::Done(Tree::Variable(name), i + 1),
                LexedKind::Other(TokenKind::LeftParen) => match out_tree(reads(ts, programmer, Production::Comparison, i + 1)) {
                    Parse::Fail(m, p) => Parse::Fail(m, p),
                    Parse::Done(inner, j) => if !is_at(ts, j, TokenKind::RightParen) {
                        fail("expected ')'"@, ts, j)
                    } else {
                        Parse::Done(inner, j + 1)
                    },
                },
                _ => fail("expected a ∑ bound (number, variable, or parenthesized expression)"@, ts, i),
            }
        }),
        Production::QualifiedName(namespace, qualified) => into_tree({
            match kind_at(ts, i + 1) {
                LexedKind::Identifier(member) => {
                    let name = qualified + "::"@ + member;
                    if is_at(ts, i + 2, TokenKind::ColonColon) {
                        out_tree(reads(ts, programmer, Production::QualifiedName(namespace, name), i + 2))
                    } else if !is_at(ts, i + 2, TokenKind::LeftParen) {
                        Parse::Done(Tree::Variable(name), i + 2)
                    } else {
                        match out_trees(reads(ts, programmer, Production::ArgumentList, i + 3)) {
                            Parse::Fail(m, p) => Parse::Fail(m, p),
                            Parse::Done(arguments, j) => Parse::Done(Tree::Call(name, arguments), j),
                        }
                    }
                },
                _ => fail("expected a name after '::' — e.g. "@ + namespace + "::Point"@, ts, i + 1),
            }
        }),
        Production::QualifiedReference(sheet) => into_tree({
            if !is_at(ts, i, TokenKind::Bang) {
                fail("expected '!' after sheet name '"@ + sheet + "' — e.g. '"@ + sheet + "'!A:1"@, ts, i)
            } else {
                match kind_at(ts, i + 1) {
                    LexedKind::CellReference(column, row, _, _) => out_tree(reads(ts, programmer, Production::CellReferenceOrRange(Some(sheet), column, row), i + 2)),
                    LexedKind::QuotedName(name) => Parse::Done(Tree::NameReference(Some(sheet), name), i + 2),
                    _ => fail("expected a cell or 'named cell' after '"@ + sheet + "!' — e.g. "@ + sheet + "!A:1"@, ts,
                        i + 1),
                }
            }
        }),
        Production::CellReferenceOrRange(sheet, column, row) => into_tree({
            if !is_at(ts, i, TokenKind::DotDot) {
                Parse::Done(Tree::CellReference(sheet, column, row), i)
            } else {
                match kind_at(ts, i + 1) {
                    LexedKind::CellReference(to_column, to_row, _, _) => Parse::Done(
                        Tree::CellRange(sheet, column, row, to_column, to_row),
                        i + 2,
                    ),
                    _ => fail("expected a cell after '..' (e.g. A:1..A:9)"@, ts, i + 1),
                }
            }
        }),
        Production::ArgumentList => into_trees({
            if is_at(ts, i, TokenKind::RightParen) {
                Parse::Done(Seq::empty(), i + 1)
            } else if named_start(ts, i) {
                match out_tree(reads(ts, programmer, Production::NamedArguments(position_at(ts, i), Seq::empty()), i)) {
                    Parse::Fail(m, p) => Parse::Fail(m, p),
                    Parse::Done(map, j) => Parse::Done(seq![map], j),
                }
            } else {
                match out_tree(reads(ts, programmer, Production::Comparison, i)) {
                    Parse::Fail(m, p) => Parse::Fail(m, p),
                    Parse::Done(first, j) => if !(i <= j < ts.len()) {
                        stuck()
                    } else {
                        out_trees(reads(ts, programmer, Production::ArgumentsRest(seq![first]), j))
                    },
                }
            }
        }),
        Production::ArgumentsRest(acc) => into_trees({
            if is_at(ts, i, TokenKind::Comma) {
                match out_tree(reads(ts, programmer, Production::Comparison, i + 1)) {
                    Parse::Fail(m, p) => Parse::Fail(m, p),
                    Parse::Done(next, j) => if !(i < j < ts.len()) {
                        stuck()
                    } else {
                        out_trees(reads(ts, programmer, Production::ArgumentsRest(acc.push(next)), j))
                    },
                }
            } else if !is_at(ts, i, TokenKind::RightParen) {
                fail("expected ')' or ','"@, ts, i)
            } else {
                Parse::Done(acc, i + 1)
            }
        }),
        Production::NamedArguments(position, acc) => into_tree({
            let entry = match kind_at(ts, i) {
                LexedKind::CellReference(key, row, _, _) => Parse::Done((key, Tree::Number(canonical(row as int, 0))), i + 1),
                LexedKind::Identifier(key) => if !is_at(ts, i + 1, TokenKind::Colon) {
                    fail("expected ':' after '"@ + key + "' — named arguments are name: value"@, ts, i + 1)
                } else {
                    match out_tree(reads(ts, programmer, Production::Comparison, i + 2)) {
                        Parse::Fail(m, p) => Parse::Fail(m, p),
                        Parse::Done(value, j) => Parse::Done((key, value), j),
                    }
                },
                _ => fail("expected another name: value argument"@, ts, i),
            };
            match entry {
                Parse::Fail(m, p) => Parse::Fail(m, p),
                Parse::Done((key, value), j) => if !(i < j < ts.len()) {
                    stuck()
                } else if has_key(acc, key) {
                    Parse::Fail("duplicate field '"@ + key + "'"@, position)
                } else if is_at(ts, j, TokenKind::Comma) {
                    out_tree(reads(ts, programmer, Production::NamedArguments(position, acc.push((key, value))), j + 1))
                } else if is_at(ts, j, TokenKind::RightParen) {
                    Parse::Done(Tree::MapLiteral(acc.push((key, value))), j + 1)
                } else {
                    fail("expected ')' or ','"@, ts, j)
                },
            }
        }),
        Production::ArrayLiteral => into_tree({
            if is_at(ts, i, TokenKind::RightBracket) {
                Parse::Done(Tree::ArrayLiteral(Seq::empty()), i + 1)
            } else {
                match out_tree(reads(ts, programmer, Production::Comparison, i)) {
                    Parse::Fail(m, p) => Parse::Fail(m, p),
                    Parse::Done(first, j) => if !(i <= j < ts.len()) {
                        stuck()
                    } else {
                        out_tree(reads(ts, programmer, Production::ArrayRest(seq![first]), j))
                    },
                }
            }
        }),
        Production::ArrayRest(acc) => into_tree({
            if is_at(ts, i, TokenKind::Comma) {
                match out_tree(reads(ts, programmer, Production::Comparison, i + 1)) {
                    Parse::Fail(m, p) => Parse::Fail(m, p),
                    Parse::Done(next, j) => if !(i < j < ts.len()) {
                        stuck()
                    } else {
                        out_tree(reads(ts, programmer, Production::ArrayRest(acc.push(next)), j))
                    },
                }
            } else if !is_at(ts, i, TokenKind::RightBracket) {
                fail("expected ']' or ','"@, ts, i)
            } else {
                Parse::Done(Tree::ArrayLiteral(acc), i + 1)
            }
        }),
        Production::MapLiteral => into_tree({
            if is_at(ts, i, TokenKind::RightBrace) {
                Parse::Done(Tree::MapLiteral(Seq::empty()), i + 1)
            } else {
                out_tree(reads(ts, programmer, Production::MapEntries(position_at(ts, i - 1), Seq::empty()), i))
            }
        }),
        Production::MapEntries(position, acc) => into_tree({
            let entry = match kind_at(ts, i) {
                LexedKind::CellReference(key, row, _, _) => Parse::Done((key, Tree::Number(canonical(row as int, 0))), i + 1),
                LexedKind::Identifier(key) | LexedKind::Str(key) => if !is_at(ts, i + 1, TokenKind::Colon) {
                    fail("expected ':' after key '"@ + key + "'"@, ts, i + 1)
                } else {
                    match out_tree(reads(ts, programmer, Production::Comparison, i + 2)) {
                        Parse::Fail(m, p) => Parse::Fail(m, p),
                        Parse::Done(value, j) => Parse::Done((key, value), j),
                    }
                },
                _ => fail("expected a key — e.g. {name: \"Ada\", age: 36}"@, ts, i),
            };
            match entry {
                Parse::Fail(m, p) => Parse::Fail(m, p),
                Parse::Done((key, value), j) => if !(i < j < ts.len()) {
                    stuck()
                } else if has_key(acc, key) {
                    Parse::Fail("duplicate key '"@ + key + "'"@, position)
                } else if is_at(ts, j, TokenKind::Comma) {
                    out_tree(reads(ts, programmer, Production::MapEntries(position, acc.push((key, value))), j + 1))
                } else if is_at(ts, j, TokenKind::RightBrace) {
                    Parse::Done(Tree::MapLiteral(acc.push((key, value))), j + 1)
                } else {
                    fail("expected '}' or ','"@, ts, j)
                },
            }
        }),
    }
}

/// `x = expr`, `import Name`, a namespace, data, or function definition, or
/// a plain expression.
pub open spec fn statement(ts: Seq<(LexedKind, int, int)>, mode: LanguageMode, i: int) -> Parse<Tree> {
    out_tree(reads(ts, mode == LanguageMode::Programmer, Production::Statement, i))
}

/// `namespace Name { member; member }`: committed only by the exact shape
/// `namespace Name {` (`None` otherwise).
pub open spec fn namespace_definition(ts: Seq<(LexedKind, int, int)>, mode: LanguageMode, i: int) -> Parse<Option<Tree>> {
    out_maybe(reads(ts, mode == LanguageMode::Programmer, Production::NamespaceDefinition, i))
}

/// The members of a namespace body, `;`-separated, through its `}`.
pub open spec fn namespace_members(ts: Seq<(LexedKind, int, int)>, mode: LanguageMode, i: int, name: Seq<char>, name_position: int, acc: Seq<Tree>) -> Parse<Seq<Tree>> {
    out_trees(reads(ts, mode == LanguageMode::Programmer, Production::NamespaceMembers(name, name_position, acc), i))
}

/// `data Name { field: Type, … }`: committed only by the exact shape
/// `data Name {` (`None` otherwise).
pub open spec fn data_definition(ts: Seq<(LexedKind, int, int)>, mode: LanguageMode, i: int) -> Parse<Option<Tree>> {
    out_maybe(reads(ts, mode == LanguageMode::Programmer, Production::DataDefinition, i))
}

/// The fields of a data declaration, `,`-separated, through its `}`.
pub open spec fn data_fields(ts: Seq<(LexedKind, int, int)>, mode: LanguageMode, i: int, name: Seq<char>, acc: Seq<(Seq<char>, FieldTypeModel)>) -> Parse<Seq<(Seq<char>, FieldTypeModel)>> {
    out_fields(reads(ts, mode == LanguageMode::Programmer, Production::DataFields(name, acc), i))
}

/// A field type: a leaf (a scalar or a data type), `[T]`, or `{String: T}`.
pub open spec fn field_type(ts: Seq<(LexedKind, int, int)>, mode: LanguageMode, i: int, field: Seq<char>) -> Parse<FieldTypeModel> {
    out_type(reads(ts, mode == LanguageMode::Programmer, Production::FieldType(field), i))
}

/// `name(p1, p2: Type, …) = body`, where the name may be one of the
/// arithmetic operator symbols. `None` when the shape is not exactly that
/// (`f(x)` stays a call).
pub open spec fn function_definition(ts: Seq<(LexedKind, int, int)>, mode: LanguageMode, i: int) -> Parse<Option<Tree>> {
    out_maybe(reads(ts, mode == LanguageMode::Programmer, Production::FunctionDefinition, i))
}

/// `x -> body` or `(a, b) -> body` (also `() -> body`). `None` when the
/// shape does not end in `->`, so `(a, b)` stays an expression.
pub open spec fn lambda_expression(ts: Seq<(LexedKind, int, int)>, mode: LanguageMode, i: int) -> Parse<Option<Tree>> {
    out_maybe(reads(ts, mode == LanguageMode::Programmer, Production::LambdaExpression, i))
}

/// A lambda's parameters checked (distinct, none reserved) and its body.
pub open spec fn lambda_body(ts: Seq<(LexedKind, int, int)>, mode: LanguageMode, i: int, parameters: Seq<Seq<char>>, position: int) -> Parse<Tree> {
    out_tree(reads(ts, mode == LanguageMode::Programmer, Production::LambdaBody(parameters, position), i))
}

/// One comparison: `band (op band)?`; a second comparison operator is an
/// error. Lambdas are tried first, so `x -> …` works wherever an expression
/// does.
pub open spec fn comparison(ts: Seq<(LexedKind, int, int)>, mode: LanguageMode, i: int) -> Parse<Tree> {
    out_tree(reads(ts, mode == LanguageMode::Programmer, Production::Comparison, i))
}

/// `|` (Programmer mode): bitOr, loosest of the bitwise band.
pub open spec fn bitwise_or(ts: Seq<(LexedKind, int, int)>, mode: LanguageMode, i: int) -> Parse<Tree> {
    out_tree(reads(ts, mode == LanguageMode::Programmer, Production::BitwiseOr, i))
}

/// The `| operand` repetitions after a left operand.
pub open spec fn or_rest(ts: Seq<(LexedKind, int, int)>, mode: LanguageMode, i: int, lhs: Tree) -> Parse<Tree> {
    out_tree(reads(ts, mode == LanguageMode::Programmer, Production::OrRest(lhs), i))
}

/// `^` (Programmer mode): bitXor. In the other modes `^` is power, left
/// for the power level.
pub open spec fn bitwise_xor(ts: Seq<(LexedKind, int, int)>, mode: LanguageMode, i: int) -> Parse<Tree> {
    out_tree(reads(ts, mode == LanguageMode::Programmer, Production::BitwiseXor, i))
}

/// The `^ operand` repetitions after a left operand (Programmer mode).
pub open spec fn xor_rest(ts: Seq<(LexedKind, int, int)>, mode: LanguageMode, i: int, lhs: Tree) -> Parse<Tree> {
    out_tree(reads(ts, mode == LanguageMode::Programmer, Production::XorRest(lhs), i))
}

/// `&` (Programmer mode): bitAnd.
pub open spec fn bitwise_and(ts: Seq<(LexedKind, int, int)>, mode: LanguageMode, i: int) -> Parse<Tree> {
    out_tree(reads(ts, mode == LanguageMode::Programmer, Production::BitwiseAnd, i))
}

/// The `& operand` repetitions after a left operand.
pub open spec fn and_rest(ts: Seq<(LexedKind, int, int)>, mode: LanguageMode, i: int, lhs: Tree) -> Parse<Tree> {
    out_tree(reads(ts, mode == LanguageMode::Programmer, Production::AndRest(lhs), i))
}

/// `<<` / `>>` (Programmer mode): bitShift, `a >> n` being
/// `bitShift(a, -n)`.
pub open spec fn shift(ts: Seq<(LexedKind, int, int)>, mode: LanguageMode, i: int) -> Parse<Tree> {
    out_tree(reads(ts, mode == LanguageMode::Programmer, Production::Shift, i))
}

/// The `<< operand` / `>> operand` repetitions after a left operand.
pub open spec fn shift_rest(ts: Seq<(LexedKind, int, int)>, mode: LanguageMode, i: int, lhs: Tree) -> Parse<Tree> {
    out_tree(reads(ts, mode == LanguageMode::Programmer, Production::ShiftRest(lhs), i))
}

/// `+` and `-`, left-associative.
pub open spec fn additive(ts: Seq<(LexedKind, int, int)>, mode: LanguageMode, i: int) -> Parse<Tree> {
    out_tree(reads(ts, mode == LanguageMode::Programmer, Production::Additive, i))
}

/// The `+ term` / `- term` repetitions after a left operand.
pub open spec fn additive_rest(ts: Seq<(LexedKind, int, int)>, mode: LanguageMode, i: int, lhs: Tree) -> Parse<Tree> {
    out_tree(reads(ts, mode == LanguageMode::Programmer, Production::AdditiveRest(lhs), i))
}

/// `*`, `/`, Programmer-mode `%` (mod), and implicit multiplication
/// (`2(3+4)`, `2x`, `2 A:1`); a number right after a value is an error.
pub open spec fn term(ts: Seq<(LexedKind, int, int)>, mode: LanguageMode, i: int) -> Parse<Tree> {
    out_tree(reads(ts, mode == LanguageMode::Programmer, Production::Term, i))
}

/// The multiplicative repetitions after a left operand.
pub open spec fn term_rest(ts: Seq<(LexedKind, int, int)>, mode: LanguageMode, i: int, lhs: Tree) -> Parse<Tree> {
    out_tree(reads(ts, mode == LanguageMode::Programmer, Production::TermRest(lhs), i))
}

/// Prefix `-`, `+` (no-op), `√` (sqrt), and Programmer-mode `~` (bitNot).
pub open spec fn unary(ts: Seq<(LexedKind, int, int)>, mode: LanguageMode, i: int) -> Parse<Tree> {
    out_tree(reads(ts, mode == LanguageMode::Programmer, Production::Unary, i))
}

/// `base ^ exponent`, right-associative with a signed exponent (`2^-1`);
/// `^` is power outside Programmer mode only.
pub open spec fn power(ts: Seq<(LexedKind, int, int)>, mode: LanguageMode, i: int) -> Parse<Tree> {
    out_tree(reads(ts, mode == LanguageMode::Programmer, Production::Power, i))
}

/// A primary followed by any accessors: `[index]`, `.name`, `.name(args)`,
/// and (outside Programmer mode) postfix `%`.
pub open spec fn postfix(ts: Seq<(LexedKind, int, int)>, mode: LanguageMode, i: int) -> Parse<Tree> {
    out_tree(reads(ts, mode == LanguageMode::Programmer, Production::Postfix, i))
}

/// The accessor repetitions after a primary.
pub open spec fn postfix_rest(ts: Seq<(LexedKind, int, int)>, mode: LanguageMode, i: int, e: Tree) -> Parse<Tree> {
    out_tree(reads(ts, mode == LanguageMode::Programmer, Production::PostfixRest(e), i))
}

/// A literal, a name or call, a cell or named cell (possibly
/// sheet-qualified), a parenthesized expression, an array or map literal,
/// or one of the special forms.
pub open spec fn primary(ts: Seq<(LexedKind, int, int)>, mode: LanguageMode, i: int) -> Parse<Tree> {
    out_tree(reads(ts, mode == LanguageMode::Programmer, Production::Primary, i))
}

/// What follows a plain identifier (at `i`, just past it): the reduction
/// forms `sigma_i=…` / `∑_i=…`, `man NAME`, a call (with `sigma(…)` meaning
/// sum and `if(c, a, b)` the lazy conditional), or a variable.
pub open spec fn identifier_primary(ts: Seq<(LexedKind, int, int)>, mode: LanguageMode, i: int, name: Seq<char>, position: int) -> Parse<Tree> {
    out_tree(reads(ts, mode == LanguageMode::Programmer, Production::IdentifierPrimary(name, position), i))
}

/// An indexed reduction after its index name, at the `=`:
/// `=lower^upper(term)`. The bounds are signed primaries, so `^` stays the
/// separator; the term is parenthesized.
pub open spec fn math_reduction(ts: Seq<(LexedKind, int, int)>, mode: LanguageMode, i: int, operation: ReductionOperation, index: Seq<char>, position: int) -> Parse<Tree> {
    out_tree(reads(ts, mode == LanguageMode::Programmer, Production::MathReduction(operation, index, position), i))
}

/// A reduction bound: an optional `-` and a bound primary.
pub open spec fn signed_primary(ts: Seq<(LexedKind, int, int)>, mode: LanguageMode, i: int) -> Parse<Tree> {
    out_tree(reads(ts, mode == LanguageMode::Programmer, Production::SignedPrimary, i))
}

/// A number, a variable (never a call: a following `(` is the term), a
/// cell, or a parenthesized expression.
pub open spec fn bound_primary(ts: Seq<(LexedKind, int, int)>, mode: LanguageMode, i: int) -> Parse<Tree> {
    out_tree(reads(ts, mode == LanguageMode::Programmer, Production::BoundPrimary, i))
}

/// A namespace-qualified name at a `::`: `A::B::c`, a call when `(`
/// follows. `namespace` is the first name (for the error), `qualified` the
/// name so far.
pub open spec fn qualified_name(ts: Seq<(LexedKind, int, int)>, mode: LanguageMode, i: int, namespace: Seq<char>, qualified: Seq<char>) -> Parse<Tree> {
    out_tree(reads(ts, mode == LanguageMode::Programmer, Production::QualifiedName(namespace, qualified), i))
}

/// After a sheet name, at its `!`: a cell, a range, or a named cell.
pub open spec fn qualified_reference(ts: Seq<(LexedKind, int, int)>, mode: LanguageMode, i: int, sheet: Seq<char>) -> Parse<Tree> {
    out_tree(reads(ts, mode == LanguageMode::Programmer, Production::QualifiedReference(sheet), i))
}

/// A cell (already read), extended to a range by `..` and a second cell.
pub open spec fn cell_reference_or_range(ts: Seq<(LexedKind, int, int)>, mode: LanguageMode, i: int, sheet: Option<Seq<char>>, column: Seq<char>, row: i64) -> Parse<Tree> {
    out_tree(reads(ts, mode == LanguageMode::Programmer, Production::CellReferenceOrRange(sheet, column, row), i))
}

/// The arguments after a `(`, through its `)`: none, named arguments
/// (one map), or `,`-separated expressions.
pub open spec fn argument_list(ts: Seq<(LexedKind, int, int)>, mode: LanguageMode, i: int) -> Parse<Seq<Tree>> {
    out_trees(reads(ts, mode == LanguageMode::Programmer, Production::ArgumentList, i))
}

/// The `, argument` repetitions, through the `)`.
pub open spec fn arguments_rest(ts: Seq<(LexedKind, int, int)>, mode: LanguageMode, i: int, acc: Seq<Tree>) -> Parse<Seq<Tree>> {
    out_trees(reads(ts, mode == LanguageMode::Programmer, Production::ArgumentsRest(acc), i))
}

/// `name: value, …)` — named arguments as one map literal, through the
/// `)`. A compact `key:number` arrives as a cell reference and decomposes
/// into the key and its number. Duplicates are reported at `position`.
pub open spec fn named_arguments(ts: Seq<(LexedKind, int, int)>, mode: LanguageMode, i: int, position: int, acc: Seq<(Seq<char>, Tree)>) -> Parse<Tree> {
    out_tree(reads(ts, mode == LanguageMode::Programmer, Production::NamedArguments(position, acc), i))
}

/// `[a, b, …]` after its `[`.
pub open spec fn array_literal(ts: Seq<(LexedKind, int, int)>, mode: LanguageMode, i: int) -> Parse<Tree> {
    out_tree(reads(ts, mode == LanguageMode::Programmer, Production::ArrayLiteral, i))
}

/// The `, element` repetitions, through the `]`.
pub open spec fn array_rest(ts: Seq<(LexedKind, int, int)>, mode: LanguageMode, i: int, acc: Seq<Tree>) -> Parse<Tree> {
    out_tree(reads(ts, mode == LanguageMode::Programmer, Production::ArrayRest(acc), i))
}

/// `{key: value, …}` after its `{`; keys are names or strings, unique. A
/// compact `{b:1}` arrives as a cell reference and decomposes.
pub open spec fn map_literal(ts: Seq<(LexedKind, int, int)>, mode: LanguageMode, i: int) -> Parse<Tree> {
    out_tree(reads(ts, mode == LanguageMode::Programmer, Production::MapLiteral, i))
}

/// The entries of a map literal, through its `}`; duplicates are reported
/// at the `{` (`position`).
pub open spec fn map_entries(ts: Seq<(LexedKind, int, int)>, mode: LanguageMode, i: int, position: int, acc: Seq<(Seq<char>, Tree)>) -> Parse<Tree> {
    out_tree(reads(ts, mode == LanguageMode::Programmer, Production::MapEntries(position, acc), i))
}

/// A whole line: one statement, then the end.
pub open spec fn parsed(ts: Seq<(LexedKind, int, int)>, mode: LanguageMode) -> Parse<Tree> {
    match statement(ts, mode, 0) {
        Parse::Fail(m, p) => Parse::Fail(m, p),
        Parse::Done(t, j) => if is_at(ts, j, TokenKind::End) {
            Parse::Done(t, j)
        } else {
            fail("unexpected trailing input"@, ts, j)
        },
    }
}


} // verus!
