//! Statement-level productions: assignments, `import`, `namespace` and
//! `data` declarations, field types, lambdas, and user-function
//! definitions.

use vstd::prelude::*;
use super::{Parser, parse_error, yields, yields_option, lexed_kind, is_parse_error, is_reserved, is_reduction_name};
use super::grammar::{self, Parse, kind_at, is_at, position_at, has_duplicate, first_reserved, has_field,
    parameter_names, folds_to, capitalized, reserved};
use crate::ast::{Expression, Parameter, TypeAnnotation, AnnotationModel};
use crate::ast::tree::{Tree, tree_of, trees_of, parameter_of, field_of, lemma_trees_push};
use crate::error::EngineError;
use crate::eval::data_type::{DataField, DataFieldType, FieldTypeModel};
use crate::lexer::{TokenKind, LexedKind};
use crate::text::{to_lowercase, lowercase, eq_ignore_ascii_case, chars_of, is_uppercase, views_of};

verus! {

/// Does `r` report what the grammar says a field type reads?
pub open spec fn yields_type(r: Result<DataFieldType, EngineError>, p: Parse<FieldTypeModel>, end: int) -> bool {
    match p {
        Parse::Done(t, j) => r matches Ok(f) && f@ == t && end == j,
        Parse::Fail(m, pos) => r matches Err(err) && is_parse_error(err, m, pos),
    }
}

/// The operator symbols that can name an overload definition: the
/// arithmetic binary operators (comparisons are not overloadable).
fn operator_definition_name(kind: &TokenKind) -> (r: Option<&'static str>)
    ensures
        match r {
            Some(s) => grammar::operator_name(lexed_kind(*kind)) == Some(s@),
            None => grammar::operator_name(lexed_kind(*kind)) is None,
        },
{
    match kind {
        TokenKind::Plus => Some("+"),
        TokenKind::Minus => Some("-"),
        TokenKind::Star => Some("*"),
        TokenKind::Slash => Some("/"),
        TokenKind::Caret => Some("^"),
        _ => None,
    }
}

/// Does `name` start with an uppercase letter?
fn starts_uppercase(name: &String) -> (r: bool)
    ensures
        r == capitalized(name@),
{
    let chars = chars_of(name.as_str());
    chars.len() > 0 && is_uppercase(chars[0])
}

/// `'message name'`-style text: `prefix` + `name` + `suffix`.
fn framed(prefix: &str, name: &str, suffix: &str) -> (r: String)
    ensures
        r@ == prefix@ + name@ + suffix@,
{
    let mut message = String::from_str(prefix);
    message.append(name);
    message.append(suffix);
    message
}

/// Do two of the names agree once lowercased?
fn duplicate_names(names: &Vec<String>) -> (r: bool)
    ensures
        r == has_duplicate(views_of(names@)),
{
    let ghost v = views_of(names@);
    let mut lowered: Vec<String> = Vec::new();
    let mut i: usize = 0;
    while i < names.len()
        invariant
            i <= names.len(),
            v == views_of(names@),
            lowered@.len() == i,
            forall|k: int| 0 <= k < i ==> #[trigger] lowered@[k]@ == lowercase(v[k]),
        decreases names.len() - i,
    {
        lowered.push(to_lowercase(names[i].as_str()));
        i += 1;
    }
    let mut b: usize = 0;
    while b < lowered.len()
        invariant
            b <= lowered.len(),
            lowered@.len() == names@.len(),
            v == views_of(names@),
            v.len() == names@.len(),
            forall|k: int| 0 <= k < lowered@.len() ==> #[trigger] lowered@[k]@ == lowercase(v[k]),
            forall|x: int, y: int| 0 <= x < y < b ==> lowercase(v[x]) != lowercase(v[y]),
        decreases lowered.len() - b,
    {
        let mut a: usize = 0;
        while a < b
            invariant
                a <= b < lowered.len(),
                v == views_of(names@),
                lowered@.len() == names@.len(),
                v.len() == names@.len(),
                forall|k: int| 0 <= k < lowered@.len() ==> #[trigger] lowered@[k]@ == lowercase(v[k]),
                forall|x: int| 0 <= x < a ==> lowercase(v[x]) != lowercase(v[b as int]),
            decreases b - a,
        {
            if crate::eval::currency::str_equal(lowered[a].as_str(), lowered[b].as_str()) {
                proof {
                    assert(lowered@[a as int]@ == lowercase(v[a as int]));
                    assert(lowered@[b as int]@ == lowercase(v[b as int]));
                    assert(0 <= a < b < v.len() && lowercase(v[a as int]) == lowercase(v[b as int]));
                    assert(has_duplicate(v));
                }
                return true;
            }
            proof {
                assert(lowered@[a as int]@ == lowercase(v[a as int]));
                assert(lowered@[b as int]@ == lowercase(v[b as int]));
            }
            a += 1;
        }
        b += 1;
    }
    false
}

/// The first reserved name, in order.
fn first_reserved_name(names: &Vec<String>) -> (r: Option<String>)
    ensures
        match r {
            Some(n) => first_reserved(views_of(names@)) == Some(n@),
            None => first_reserved(views_of(names@)) is None,
        },
{
    let ghost v = views_of(names@);
    let mut i: usize = 0;
    proof {
        assert(v.skip(0) =~= v);
    }
    while i < names.len()
        invariant
            i <= names.len(),
            v == views_of(names@),
            v.len() == names@.len(),
            first_reserved(v) == first_reserved(v.skip(i as int)),
        decreases names.len() - i,
    {
        proof {
            assert(v.skip(i as int)[0] == names@[i as int]@);
            assert(v.skip(i as int).drop_first() =~= v.skip(i + 1));
        }
        if is_reserved(names[i].as_str()) {
            return Some(names[i].clone());
        }
        i += 1;
    }
    proof {
        assert(v.skip(i as int).len() == 0);
    }
    None
}

/// Is `name` already a field's name, ignoring ASCII letter case?
fn field_named(fields: &Vec<DataField>, name: &String) -> (r: bool)
    ensures
        r == has_field(fields@.map_values(|f: DataField| field_of(f)), name@),
{
    let ghost models = fields@.map_values(|f: DataField| field_of(f));
    let mut k: usize = 0;
    while k < fields.len()
        invariant
            k <= fields.len(),
            models == fields@.map_values(|f: DataField| field_of(f)),
            forall|x: int| 0 <= x < k ==> !folds_to(#[trigger] models[x].0, name@),
        decreases fields.len() - k,
    {
        proof {
            assert(models[k as int].0 == fields@[k as int].name@);
        }
        if eq_ignore_ascii_case(fields[k].name.as_str(), name.as_str()) {
            proof {
                assert(has_field(models, name@));
            }
            return true;
        }
        k += 1;
    }
    false
}

impl Parser {
    /// `x = expr`, `import Name`, a namespace, data, or function
    /// definition, or a plain expression.
    #[verifier::rlimit(60)]
    pub(super) fn statement(&mut self) -> (r: Result<Expression, EngineError>)
        requires
            old(self).wf(),
        ensures
            final(self).moved_from(*old(self)),
            yields(r, grammar::statement(old(self).shape(), old(self).mode, old(self).index as int),
                final(self).index as int),
        decreases old(self).tokens@.len() - old(self).index, 50int,
    {
        if let TokenKind::Identifier(name) = self.kind() {
            let name = name.clone();
            let assign_next = match self.kind_ahead(1) {
                Some(k) => matches!(k, TokenKind::Assign),
                None => false,
            };
            // sigma_i=1^10(…) is a summation, not an assignment.
            if assign_next && !is_reduction_name(name.as_str()) {
                if is_reserved(name.as_str()) {
                    let message = framed("cannot assign to '", name.as_str(), "'");
                    proof {
                        assert(message@ =~= "cannot assign to '"@ + name@ + "'"@);
                    }
                    return Err(parse_error(message, self.position()));
                }
                self.index += 2;
                let value = match self.comparison() {
                    Ok(e) => e,
                    Err(e) => return Err(e),
                };
                return Ok(Expression::Assignment { name, value: Box::new(value) });
            }
            // `import Bits`: only `import` followed by a name commits.
            if eq_ignore_ascii_case(name.as_str(), "import") {
                if let Some(TokenKind::Identifier(namespace)) = self.kind_ahead(1) {
                    let namespace = namespace.clone();
                    self.index += 2;
                    return Ok(Expression::ImportDirective { name: namespace });
                }
            }
        }
        match self.namespace_definition() {
            Err(e) => return Err(e),
            Ok(Some(definition)) => return Ok(definition),
            Ok(None) => {},
        }
        match self.data_definition() {
            Err(e) => return Err(e),
            Ok(Some(definition)) => return Ok(definition),
            Ok(None) => {},
        }
        match self.function_definition() {
            Err(e) => return Err(e),
            Ok(Some(definition)) => return Ok(definition),
            Ok(None) => {},
        }
        self.comparison()
    }

    /// `namespace Bits { data A { … }; f(x) = … }`: a contextual keyword,
    /// committed only by `namespace Name {`. Members are `;`-separated (a
    /// trailing `;` is fine) and there is at least one.
    #[verifier::rlimit(60)]
    fn namespace_definition(&mut self) -> (r: Result<Option<Expression>, EngineError>)
        requires
            old(self).wf(),
        ensures
            final(self).moved_from(*old(self)),
            yields_option(r, grammar::namespace_definition(old(self).shape(), old(self).mode, old(self).index as int),
                final(self).index as int),
            r matches Ok(None) ==> final(self).index == old(self).index,
        decreases old(self).tokens@.len() - old(self).index, 49int,
    {
        let ghost start = *self;
        let keyword = match self.kind() {
            TokenKind::Identifier(keyword) => eq_ignore_ascii_case(keyword.as_str(), "namespace"),
            _ => return Ok(None),
        };
        if !keyword || self.tokens.len() - self.index <= 2 {
            return Ok(None);
        }
        let name = match self.kind_ahead(1) {
            Some(TokenKind::Identifier(name)) => name.clone(),
            _ => return Ok(None),
        };
        let brace = match self.kind_ahead(2) {
            Some(k) => matches!(k, TokenKind::LeftBrace),
            None => false,
        };
        if !brace {
            return Ok(None);
        }
        let name_position = self.position_ahead(1);
        self.index += 3;
        if !starts_uppercase(&name) {
            return Err(
                parse_error(
                    String::from_str("namespace names start with a capital letter — e.g. namespace Bits { … }"),
                    name_position,
                ),
            );
        }
        if is_reserved(name.as_str()) || is_reduction_name(name.as_str()) {
            let message = framed("cannot define '", name.as_str(), "'");
            proof {
                assert(message@ =~= "cannot define '"@ + name@ + "'"@);
            }
            return Err(parse_error(message, name_position));
        }
        let mut members: Vec<Expression> = Vec::new();
        proof {
            assert(trees_of(members@) =~= Seq::<Tree>::empty());
        }
        loop
            invariant
                self.moved_from(start),
                start == *old(self),
                start.wf(),
                self.index > start.index,
                grammar::namespace_definition(start.shape(), start.mode, start.index as int) == match grammar::namespace_members(
                    start.shape(),
                    start.mode,
                    self.index as int,
                    name@,
                    name_position as int,
                    trees_of(members@),
                ) {
                    Parse::Done(ms, j) => Parse::Done(Some(Tree::NamespaceDefinition(name@, ms)), j),
                    Parse::Fail(m, p) => Parse::Fail(m, p),
                },
            decreases self.tokens@.len() - self.index,
        {
            if matches!(self.kind(), TokenKind::RightBrace) {
                self.advance();  // '}'
                if members.len() == 0 {
                    let message = framed(
                        "a namespace needs at least one declaration — e.g. namespace ",
                        name.as_str(),
                        " { data Point { x: Number } }",
                    );
                    return Err(parse_error(message, name_position));
                }
                return Ok(Some(Expression::NamespaceDefinition { name, members }));
            }
            if matches!(self.kind(), TokenKind::End) {
                let mut message = String::from_str("expected '}' to close namespace ");
                message.append(name.as_str());
                return Err(parse_error(message, self.position()));
            }
            let member = match self.statement() {
                Ok(e) => e,
                Err(e) => return Err(e),
            };
            proof {
                lemma_trees_push(members@, member);
            }
            members.push(member);
            if matches!(self.kind(), TokenKind::Semicolon) {
                self.advance();
            } else if !matches!(self.kind(), TokenKind::RightBrace) {
                return Err(
                    parse_error(
                        String::from_str("separate namespace declarations with ';' — e.g. data A { … }; f(x) = …"),
                        self.position(),
                    ),
                );
            }
        }
    }

    /// `data Person { name: String, age: Number }`: a contextual keyword,
    /// committed only by `data Name {`, so `data = 5` stays an assignment.
    #[verifier::rlimit(60)]
    fn data_definition(&mut self) -> (r: Result<Option<Expression>, EngineError>)
        requires
            old(self).wf(),
        ensures
            final(self).moved_from(*old(self)),
            yields_option(r, grammar::data_definition(old(self).shape(), old(self).mode, old(self).index as int),
                final(self).index as int),
            r matches Ok(None) ==> final(self).index == old(self).index,
        decreases old(self).tokens@.len() - old(self).index, 48int,
    {
        let ghost start = *self;
        let keyword = match self.kind() {
            TokenKind::Identifier(keyword) => eq_ignore_ascii_case(keyword.as_str(), "data"),
            _ => return Ok(None),
        };
        if !keyword || self.tokens.len() - self.index <= 2 {
            return Ok(None);
        }
        let name = match self.kind_ahead(1) {
            Some(TokenKind::Identifier(name)) => name.clone(),
            _ => return Ok(None),
        };
        let brace = match self.kind_ahead(2) {
            Some(k) => matches!(k, TokenKind::LeftBrace),
            None => false,
        };
        if !brace {
            return Ok(None);
        }
        let name_position = self.position_ahead(1);
        self.index += 3;
        if !starts_uppercase(&name) {
            return Err(
                parse_error(
                    String::from_str("data type names start with a capital letter — e.g. data Person { … }"),
                    name_position,
                ),
            );
        }
        if is_reserved(name.as_str()) || is_reduction_name(name.as_str()) {
            let message = framed("cannot define '", name.as_str(), "'");
            proof {
                assert(message@ =~= "cannot define '"@ + name@ + "'"@);
            }
            return Err(parse_error(message, name_position));
        }
        let mut fields: Vec<DataField> = Vec::new();
        proof {
            assert(fields@.map_values(|f: DataField| field_of(f)) =~= Seq::<(Seq<char>, FieldTypeModel)>::empty());
        }
        loop
            invariant
                self.moved_from(start),
                start == *old(self),
                start.wf(),
                self.index > start.index,
                grammar::data_definition(start.shape(), start.mode, start.index as int) == match grammar::data_fields(
                    start.shape(),
                    start.mode,
                    self.index as int,
                    name@,
                    fields@.map_values(|f: DataField| field_of(f)),
                ) {
                    Parse::Done(fs, j) => Parse::Done(Some(Tree::DataDefinition(name@, fs)), j),
                    Parse::Fail(m, p) => Parse::Fail(m, p),
                },
            decreases self.tokens@.len() - self.index,
        {
            let ghost models = fields@.map_values(|f: DataField| field_of(f));
            let field_name = match self.kind() {
                TokenKind::Identifier(field_name) => field_name.clone(),
                _ => {
                    if matches!(self.kind(), TokenKind::RightBrace) && fields.len() == 0 {
                        let message = framed("a data type needs at least one field — e.g. data ", name.as_str(),
                            " { name: String }");
                        return Err(parse_error(message, self.position()));
                    }
                    let message = framed("expected a field — e.g. data ", name.as_str(),
                        " { name: String, age: Number }");
                    return Err(parse_error(message, self.position()));
                },
            };
            let field_position = self.position();
            self.advance();
            if !matches!(self.kind(), TokenKind::Colon) {
                let mut message = String::from_str("expected ':' after field '");
                message.append(field_name.as_str());
                message.append("' — e.g. ");
                message.append(field_name.as_str());
                message.append(": Number");
                return Err(parse_error(message, self.position()));
            }
            self.advance();
            let field_type = match self.parse_field_type(&field_name) {
                Ok(t) => t,
                Err(e) => return Err(e),
            };
            if field_named(&fields, &field_name) {
                let message = framed("duplicate field '", field_name.as_str(), "'");
                return Err(parse_error(message, field_position));
            }
            let field = DataField::new(field_name, field_type);
            proof {
                assert(fields@.push(field).map_values(|f: DataField| field_of(f)) =~= models.push(field_of(field)));
            }
            fields.push(field);
            if matches!(self.kind(), TokenKind::Comma) {
                self.advance();
            } else if matches!(self.kind(), TokenKind::RightBrace) {
                self.advance();
                return Ok(Some(Expression::DataDefinition { name, fields }));
            } else {
                return Err(parse_error(String::from_str("expected '}' or ','"), self.position()));
            }
        }
    }

    /// A field type: a leaf (Number/String/Boolean/a data type), a list
    /// `[T]`, or a string-keyed map `{String: T}`, nesting freely.
    #[verifier::rlimit(60)]
    fn parse_field_type(&mut self, field_name: &String) -> (r: Result<DataFieldType, EngineError>)
        requires
            old(self).wf(),
        ensures
            final(self).moved_from(*old(self)),
            yields_type(r, grammar::field_type(old(self).shape(), old(self).mode, old(self).index as int,
                field_name@), final(self).index as int),
        decreases old(self).tokens@.len() - old(self).index, 5int,
    {
        if matches!(self.kind(), TokenKind::LeftBracket) {
            self.advance();
            let element = match self.parse_field_type(field_name) {
                Ok(t) => t,
                Err(e) => return Err(e),
            };
            if !matches!(self.kind(), TokenKind::RightBracket) {
                return Err(
                    parse_error(
                        String::from_str("expected ']' to close the list type — e.g. [String]"),
                        self.position(),
                    ),
                );
            }
            self.advance();
            return Ok(DataFieldType::List(Box::new(element)));
        }
        if matches!(self.kind(), TokenKind::LeftBrace) {
            self.advance();
            let is_string_key = match self.kind() {
                TokenKind::Identifier(key) => eq_ignore_ascii_case(key.as_str(), "string"),
                _ => false,
            };
            if !is_string_key {
                return Err(
                    parse_error(String::from_str("map field keys are String — e.g. {String: Number}"), self.position()),
                );
            }
            self.advance();
            if !matches!(self.kind(), TokenKind::Colon) {
                return Err(
                    parse_error(
                        String::from_str("expected ':' in the map type — e.g. {String: Number}"),
                        self.position(),
                    ),
                );
            }
            self.advance();
            let value_type = match self.parse_field_type(field_name) {
                Ok(t) => t,
                Err(e) => return Err(e),
            };
            if !matches!(self.kind(), TokenKind::RightBrace) {
                return Err(
                    parse_error(
                        String::from_str("expected '}' to close the map type — e.g. {String: Number}"),
                        self.position(),
                    ),
                );
            }
            self.advance();
            return Ok(DataFieldType::StringMap(Box::new(value_type)));
        }
        let leaf = match self.kind() {
            TokenKind::Identifier(written_type) => DataFieldType::parsing(written_type.as_str()),
            _ => None,
        };
        if let Some(field_type) = leaf {
            self.advance();
            return Ok(field_type);
        }
        let message = framed(
            "field types are Number, String, Boolean, a declared data type, or a list/map of those ([T], {String: T}) — e.g. ",
            field_name.as_str(),
            ": Number",
        );
        Err(parse_error(message, self.position()))
    }

    /// Speculatively reads `x -> body` or `(a, b) -> body` (also
    /// `() -> body`). `None`, with the position restored, when the shape
    /// does not end in `->`: `(a, b)` stays an expression, `x` a variable.
    #[verifier::rlimit(60)]
    pub(super) fn lambda_expression(&mut self) -> (r: Result<Option<Expression>, EngineError>)
        requires
            old(self).wf(),
        ensures
            final(self).moved_from(*old(self)),
            yields_option(r, grammar::lambda_expression(old(self).shape(), old(self).mode, old(self).index as int),
                final(self).index as int),
            r matches Ok(None) ==> final(self).index == old(self).index,
        decreases old(self).tokens@.len() - old(self).index, 45int,
    {
        let ghost start = *self;
        let start_index = self.index;
        if let TokenKind::Identifier(name) = self.kind() {
            let name = name.clone();
            let arrow = match self.kind_ahead(1) {
                Some(k) => matches!(k, TokenKind::Arrow),
                None => false,
            };
            if arrow {
                let position = self.position();
                self.index += 2;
                let mut parameters: Vec<String> = Vec::new();
                parameters.push(name);
                proof {
                    assert(views_of(parameters@) =~= seq![name@]);
                }
                return match self.lambda_body(parameters, position) {
                    Ok(lambda) => Ok(Some(lambda)),
                    Err(e) => Err(e),
                };
            }
        }
        if !matches!(self.kind(), TokenKind::LeftParen) {
            return Ok(None);
        }
        let position = self.position();
        self.advance();
        let mut parameters: Vec<String> = Vec::new();
        proof {
            assert(views_of(parameters@) =~= Seq::<Seq<char>>::empty());
        }
        loop
            invariant_except_break
                grammar::lambda_parameters(start.shape(), start.index + 1, Seq::empty())
                    == grammar::lambda_parameters(start.shape(), self.index as int, views_of(parameters@)),
            invariant
                self.moved_from(start),
                start == *old(self),
                start.wf(),
                start_index == start.index,
                self.index > start.index,
                position == position_at(start.shape(), start.index as int),
                is_at(start.shape(), start.index as int, TokenKind::LeftParen),
            ensures
                grammar::lambda_parameters(start.shape(), start.index + 1, Seq::empty()) == Some(
                    (views_of(parameters@), self.index as int),
                ),
            decreases self.tokens@.len() - self.index,
        {
            let ghost before = views_of(parameters@);
            if matches!(self.kind(), TokenKind::RightParen) && parameters.len() == 0 {
                self.advance();
                break;
            }
            let parameter = match self.kind() {
                TokenKind::Identifier(parameter) => parameter.clone(),
                _ => {
                    self.index = start_index;
                    return Ok(None);
                },
            };
            proof {
                assert(views_of(parameters@.push(parameter)) =~= before.push(parameter@));
            }
            parameters.push(parameter);
            self.advance();
            if matches!(self.kind(), TokenKind::Comma) {
                self.advance();
                continue;
            }
            if !matches!(self.kind(), TokenKind::RightParen) {
                self.index = start_index;
                return Ok(None);
            }
            self.advance();
            break;
        }
        if !matches!(self.kind(), TokenKind::Arrow) {
            self.index = start_index;
            return Ok(None);
        }
        self.advance();
        match self.lambda_body(parameters, position) {
            Ok(lambda) => Ok(Some(lambda)),
            Err(e) => Err(e),
        }
    }

    /// A lambda's parameters checked (distinct in any letter case, none
    /// reserved), then its body.
    fn lambda_body(&mut self, parameters: Vec<String>, position: usize) -> (r: Result<Expression, EngineError>)
        requires
            old(self).wf(),
        ensures
            final(self).moved_from(*old(self)),
            yields(r, grammar::lambda_body(old(self).shape(), old(self).mode, old(self).index as int, views_of(
                parameters@,
            ), position as int), final(self).index as int),
        decreases old(self).tokens@.len() - old(self).index, 47int,
    {
        if duplicate_names(&parameters) {
            return Err(parse_error(String::from_str("duplicate parameter name"), position));
        }
        if let Some(parameter) = first_reserved_name(&parameters) {
            let message = framed("cannot use '", parameter.as_str(), "' as a parameter");
            return Err(parse_error(message, position));
        }
        let body = match self.comparison() {
            Ok(e) => e,
            Err(e) => return Err(e),
        };
        Ok(Expression::Lambda { parameters, body: Box::new(body) })
    }

    /// Speculatively reads `name(p1, p2: Type, …) = expr`, the name an
    /// identifier or an arithmetic operator symbol (an overload). `None`,
    /// with the position restored, when the shape is not exactly that: `f(x)`
    /// stays a call.
    #[verifier::rlimit(60)]
    fn function_definition(&mut self) -> (r: Result<Option<Expression>, EngineError>)
        requires
            old(self).wf(),
        ensures
            final(self).moved_from(*old(self)),
            yields_option(r, grammar::function_definition(old(self).shape(), old(self).mode, old(self).index as int),
                final(self).index as int),
            r matches Ok(None) ==> final(self).index == old(self).index,
        decreases old(self).tokens@.len() - old(self).index, 47int,
    {
        let ghost start = *self;
        let start_index = self.index;
        let name: String = match self.kind() {
            TokenKind::Identifier(identifier) => identifier.clone(),
            kind => match operator_definition_name(kind) {
                Some(op) => String::from_str(op),
                None => return Ok(None),
            },
        };
        let paren = match self.kind_ahead(1) {
            Some(k) => matches!(k, TokenKind::LeftParen),
            None => false,
        };
        if !paren {
            return Ok(None);
        }
        let name_position = self.position();
        self.index += 2;
        let mut parameters: Vec<Parameter> = Vec::new();
        proof {
            assert(parameters@.map_values(|p: Parameter| parameter_of(p)) =~= Seq::<
                (Seq<char>, Option<AnnotationModel>),
            >::empty());
        }
        loop
            invariant_except_break
                grammar::definition_parameters(start.shape(), start.index + 2, Seq::empty())
                    == grammar::definition_parameters(start.shape(), self.index as int, parameters@.map_values(
                    |p: Parameter| parameter_of(p),
                )),
            invariant
                self.moved_from(start),
                start == *old(self),
                start.wf(),
                start_index == start.index,
                self.index > start.index + 1,
            ensures
                grammar::definition_parameters(start.shape(), start.index + 2, Seq::empty()) == Some(
                    (parameters@.map_values(|p: Parameter| parameter_of(p)), self.index as int),
                ),
            decreases self.tokens@.len() - self.index,
        {
            let ghost before = parameters@.map_values(|p: Parameter| parameter_of(p));
            if matches!(self.kind(), TokenKind::RightParen) && parameters.len() == 0 {
                self.advance();
                break;
            }
            let parameter = match self.kind() {
                TokenKind::Identifier(parameter) => parameter.clone(),
                _ => {
                    self.index = start_index;
                    return Ok(None);
                },
            };
            self.advance();
            // An optional `: Type` annotation: `dist(p: Point)`.
            let mut annotation: Option<TypeAnnotation> = None;
            if matches!(self.kind(), TokenKind::Colon) {
                self.advance();
                let written_type = match self.kind() {
                    TokenKind::Identifier(written_type) => written_type.clone(),
                    _ => {
                        self.index = start_index;
                        return Ok(None);
                    },
                };
                annotation = Some(TypeAnnotation::parsing(written_type.as_str()));
                self.advance();
            }
            let p = Parameter { name: parameter, annotation };
            proof {
                assert(parameters@.push(p).map_values(|q: Parameter| parameter_of(q)) =~= before.push(
                    parameter_of(p),
                ));
            }
            parameters.push(p);
            if matches!(self.kind(), TokenKind::Comma) {
                self.advance();
                continue;
            }
            if !matches!(self.kind(), TokenKind::RightParen) {
                self.index = start_index;
                return Ok(None);
            }
            self.advance();
            break;
        }
        if !matches!(self.kind(), TokenKind::Assign) {
            self.index = start_index;
            return Ok(None);
        }
        self.advance();
        // Definitely a definition now: validate and read the body.
        if is_reserved(name.as_str()) || is_reduction_name(name.as_str()) {
            let message = framed("cannot define '", name.as_str(), "'");
            proof {
                assert(message@ =~= "cannot define '"@ + name@ + "'"@);
            }
            return Err(parse_error(message, name_position));
        }
        let mut names: Vec<String> = Vec::new();
        let mut k: usize = 0;
        while k < parameters.len()
            invariant
                k <= parameters.len(),
                names@.len() == k,
                forall|x: int| 0 <= x < k ==> #[trigger] names@[x]@ == parameters@[x].name@,
            decreases parameters.len() - k,
        {
            names.push(parameters[k].name.clone());
            k += 1;
        }
        proof {
            assert(views_of(names@) =~= parameter_names(parameters@.map_values(|p: Parameter| parameter_of(p))));
        }
        if duplicate_names(&names) {
            return Err(parse_error(String::from_str("duplicate parameter name"), name_position));
        }
        let body = match self.comparison() {
            Ok(e) => e,
            Err(e) => return Err(e),
        };
        Ok(Some(Expression::FunctionDefinition { name, parameters, body: Box::new(body) }))
    }
}

} // verus!
