//! The grammar as a function from a text and its tokens to declarations,
//! and the parser that computes it.

use crate::ast::{
    scalar_name, EntityView, Enum, EnumView, Multiplicity, Namespace, NamespaceView, Number, Scalar,
};
use crate::dangling::{
    builtin_entities, resolved_entities, resolved_namespace, unknown_entity, DanglingAttribute,
    DanglingAttributeView, DanglingEntity, DanglingEntityView, DanglingNamespace,
    DanglingNamespaceView, DanglingOperation, DanglingOperationView, DanglingParameter,
    DanglingParameterView, DanglingStructure, DanglingStructureView,
};
use crate::error::{ParserError, ParserErrorView, ParserResult};
use crate::grammar::{
    tokenize, tokens_of, tokens_within, Failure, FailureKind, Rule, Token, TokenKind,
};
use crate::text::{push_char, to_chars};
use vstd::prelude::*;

verus! {

/// A source text together with its tokens.
pub ghost struct Source {
    pub input: Seq<char>,
    pub tokens: Seq<Token>,
}

/// The value of a decimal digit.
pub open spec fn digit_value(c: char) -> nat {
    if c == '1' {
        1
    } else if c == '2' {
        2
    } else if c == '3' {
        3
    } else if c == '4' {
        4
    } else if c == '5' {
        5
    } else if c == '6' {
        6
    } else if c == '7' {
        7
    } else if c == '8' {
        8
    } else if c == '9' {
        9
    } else {
        0
    }
}

/// The number that a run of decimal digits stands for.
pub open spec fn digits_value(digits: Seq<char>) -> nat
    decreases digits.len(),
{
    if digits.len() == 0 {
        0
    } else {
        digits_value(digits.drop_last()) * 10 + digit_value(digits.last())
    }
}

/// The multiplicity that one number between braces stands for.
pub open spec fn exactly(n: usize) -> Multiplicity {
    if n == 1 {
        Multiplicity::Single
    } else {
        Multiplicity::Concrete(Number::Discrete(n))
    }
}

/// The multiplicity that two bounds between braces stand for. A missing
/// lower bound is zero, a missing upper bound is no bound; from zero to one
/// is `Optional`.
pub open spec fn between(lower: Option<usize>, upper: Option<usize>) -> Multiplicity {
    let under = match lower {
        Some(n) => n,
        None => 0,
    };
    if under == 0 && upper == Some(1usize) {
        Multiplicity::Optional
    } else {
        Multiplicity::UnderUpper(
            Number::Discrete(under),
            match upper {
                Some(n) => Number::Discrete(n),
                None => Number::Infinity,
            },
        )
    }
}

/// The name of a declaration.
pub open spec fn declared_name(entity: DanglingEntityView) -> Seq<char> {
    match entity {
        DanglingEntityView::Structure(s) => s.name,
        DanglingEntityView::Enum(e) => e.identifier,
    }
}

/// Whether `name` is the name of a built-in type.
pub open spec fn is_builtin_name(name: Seq<char>) -> bool {
    name == scalar_name(Scalar::String) || name == scalar_name(Scalar::Boolean) || name
        == scalar_name(Scalar::Character) || name == scalar_name(Scalar::Double) || name
        == scalar_name(Scalar::Integer)
}

/// Whether `name` is the name of a built-in type or of one of `declared`.
pub open spec fn name_taken(declared: Seq<DanglingEntityView>, name: Seq<char>) -> bool {
    is_builtin_name(name) || exists|i: int|
        0 <= i < declared.len() && declared_name(#[trigger] declared[i]) == name
}

impl Source {
    /// Whether a token of the given kind stands at `pos`.
    pub open spec fn kind_is(self, pos: int, kind: TokenKind) -> bool {
        0 <= pos < self.tokens.len() && self.tokens[pos].kind == kind
    }

    /// The text of the token at `pos`.
    pub open spec fn text(self, pos: int) -> Seq<char> {
        self.input.subrange(self.tokens[pos].start as int, self.tokens[pos].end as int)
    }

    /// Where in the text the token at `pos` starts; past the last token that
    /// is the end of the text.
    pub open spec fn place(self, pos: int) -> usize {
        if 0 <= pos < self.tokens.len() {
            self.tokens[pos].start
        } else {
            self.input.len() as usize
        }
    }

    /// The failure of `rule` at the token at `pos`.
    pub open spec fn mismatch(self, pos: int, rule: Rule) -> Failure {
        Failure { rule, position: self.place(pos), kind: FailureKind::Syntax }
    }

    /// The failure for the number at `pos`, which is too large.
    pub open spec fn too_large(self, pos: int) -> Failure {
        Failure { rule: Rule::number, position: self.place(pos), kind: FailureKind::NumberTooLarge }
    }

    /// The failure for the declaration at `pos`, whose name is taken.
    pub open spec fn duplicate(self, pos: int) -> Failure {
        Failure {
            rule: Rule::entitytype,
            position: self.place(pos),
            kind: FailureKind::DuplicateEntity,
        }
    }

    /// The value of the number at `pos`, if it fits the machine.
    pub open spec fn number(self, pos: int) -> Option<usize> {
        let value = digits_value(self.text(pos));
        if value <= usize::MAX {
            Some(value as usize)
        } else {
            None
        }
    }

    /// A number if one stands at `pos`, and nothing otherwise.
    pub open spec fn bound(self, pos: int) -> Result<(Option<usize>, int), Failure> {
        if self.kind_is(pos, TokenKind::Number) {
            match self.number(pos) {
                Some(n) => Ok((Some(n), pos + 1)),
                None => Err(self.too_large(pos)),
            }
        } else {
            Ok((None, pos))
        }
    }

    /// What stands between the braces of a multiplicity, and the closing
    /// brace: one number, or two bounds, each of which may be left out, with
    /// `..` or a comma between them.
    pub open spec fn braced(self, pos: int) -> Result<(Multiplicity, int), Failure> {
        match self.bound(pos) {
            Err(failure) => Err(failure),
            Ok((lower, middle)) => {
                if lower is Some && self.kind_is(middle, TokenKind::CloseBrace) {
                    Ok((exactly(lower->Some_0), middle + 1))
                } else if self.kind_is(middle, TokenKind::Range) || self.kind_is(
                    middle,
                    TokenKind::Comma,
                ) {
                    match self.bound(middle + 1) {
                        Err(failure) => Err(failure),
                        Ok((upper, close)) => {
                            if self.kind_is(close, TokenKind::CloseBrace) {
                                Ok((between(lower, upper), close + 1))
                            } else {
                                Err(self.mismatch(close, Rule::multimult))
                            }
                        },
                    }
                } else if lower is Some {
                    Err(self.mismatch(middle, Rule::singlemult))
                } else {
                    Err(self.mismatch(middle, Rule::multiplicity))
                }
            },
        }
    }

    /// How many values an attribute holds: `*` is any number, `+` is one
    /// or more, `?` is one or none, braces hold a number or two bounds, and
    /// where none of these stands it is exactly one.
    pub open spec fn multiplicity(self, pos: int) -> Result<(Multiplicity, int), Failure> {
        if self.kind_is(pos, TokenKind::Star) {
            Ok((Multiplicity::UnderUpper(Number::Discrete(0), Number::Infinity), pos + 1))
        } else if self.kind_is(pos, TokenKind::Plus) {
            Ok((Multiplicity::UnderUpper(Number::Discrete(1), Number::Infinity), pos + 1))
        } else if self.kind_is(pos, TokenKind::Question) {
            Ok((Multiplicity::Optional, pos + 1))
        } else if self.kind_is(pos, TokenKind::OpenBrace) {
            self.braced(pos + 1)
        } else {
            Ok((Multiplicity::Single, pos))
        }
    }

    /// An attribute: a name, a colon, the name of a type, and how many.
    pub open spec fn attribute(self, pos: int) -> Result<(DanglingAttributeView, int), Failure> {
        if !self.kind_is(pos, TokenKind::Name) {
            Err(self.mismatch(pos, Rule::feature))
        } else if !self.kind_is(pos + 1, TokenKind::Colon) {
            Err(self.mismatch(pos + 1, Rule::attribute))
        } else if !self.kind_is(pos + 2, TokenKind::Name) {
            Err(self.mismatch(pos + 2, Rule::attribute))
        } else {
            match self.multiplicity(pos + 3) {
                Err(failure) => Err(failure),
                Ok((multiplicity, next)) => Ok(
                    (
                        DanglingAttributeView {
                            name: self.text(pos),
                            entity: self.text(pos + 2),
                            multiplicity,
                        },
                        next,
                    ),
                ),
            }
        }
    }

    /// A parameter: a name, a colon, the name of a type.
    pub open spec fn parameter(self, pos: int) -> Result<(DanglingParameterView, int), Failure> {
        if !self.kind_is(pos, TokenKind::Name) {
            Err(self.mismatch(pos, Rule::parameterlist))
        } else if !self.kind_is(pos + 1, TokenKind::Colon) {
            Err(self.mismatch(pos + 1, Rule::parameter))
        } else if !self.kind_is(pos + 2, TokenKind::Name) {
            Err(self.mismatch(pos + 2, Rule::parameter))
        } else {
            Ok((DanglingParameterView { name: self.text(pos), entity: self.text(pos + 2) }, pos + 3))
        }
    }

    /// Parameters with commas between them, after the parameters `found`.
    pub open spec fn parameters(self, pos: int, found: Seq<DanglingParameterView>) -> Result<
        (Seq<DanglingParameterView>, int),
        Failure,
    >
        decreases self.tokens.len() - pos,
    {
        match self.parameter(pos) {
            Err(failure) => Err(failure),
            Ok((parameter, next)) => {
                if self.kind_is(next, TokenKind::Comma) && pos < next {
                    self.parameters(next + 1, found.push(parameter))
                } else {
                    Ok((found.push(parameter), next))
                }
            },
        }
    }

    /// An operation: a name, the parameters between round brackets, and
    /// after a colon the name of the type of the result, if it has one.
    pub open spec fn operation(self, pos: int) -> Result<(DanglingOperationView, int), Failure> {
        if !self.kind_is(pos, TokenKind::Name) {
            Err(self.mismatch(pos, Rule::feature))
        } else if !self.kind_is(pos + 1, TokenKind::OpenParen) {
            Err(self.mismatch(pos + 1, Rule::operation))
        } else {
            let listed = if self.kind_is(pos + 2, TokenKind::CloseParen) {
                Ok((Seq::empty(), pos + 2))
            } else {
                self.parameters(pos + 2, Seq::empty())
            };
            match listed {
                Err(failure) => Err(failure),
                Ok((parameter, close)) => {
                    if !self.kind_is(close, TokenKind::CloseParen) {
                        Err(self.mismatch(close, Rule::parameterlist))
                    } else if !self.kind_is(close + 1, TokenKind::Colon) {
                        Ok(
                            (
                                DanglingOperationView {
                                    name: self.text(pos),
                                    returns: None,
                                    parameter,
                                },
                                close + 1,
                            ),
                        )
                    } else if !self.kind_is(close + 2, TokenKind::Name) {
                        Err(self.mismatch(close + 2, Rule::operation))
                    } else {
                        Ok(
                            (
                                DanglingOperationView {
                                    name: self.text(pos),
                                    returns: Some(self.text(close + 2)),
                                    parameter,
                                },
                                close + 3,
                            ),
                        )
                    }
                },
            }
        }
    }

    /// Features with commas between them, after the attributes and the
    /// operations found before. A name with a round bracket after it starts
    /// an operation, anything else an attribute.
    pub open spec fn features(
        self,
        pos: int,
        attributes: Seq<DanglingAttributeView>,
        operations: Seq<DanglingOperationView>,
    ) -> Result<((Seq<DanglingAttributeView>, Seq<DanglingOperationView>), int), Failure>
        decreases self.tokens.len() - pos,
    {
        if self.kind_is(pos, TokenKind::Name) && self.kind_is(pos + 1, TokenKind::OpenParen) {
            match self.operation(pos) {
                Err(failure) => Err(failure),
                Ok((operation, next)) => {
                    if self.kind_is(next, TokenKind::Comma) && pos < next {
                        self.features(next + 1, attributes, operations.push(operation))
                    } else {
                        Ok(((attributes, operations.push(operation)), next))
                    }
                },
            }
        } else {
            match self.attribute(pos) {
                Err(failure) => Err(failure),
                Ok((attribute, next)) => {
                    if self.kind_is(next, TokenKind::Comma) && pos < next {
                        self.features(next + 1, attributes.push(attribute), operations)
                    } else {
                        Ok(((attributes.push(attribute), operations), next))
                    }
                },
            }
        }
    }

    /// A structure: its name, after a colon the name of its parent, if it
    /// has one, and between braces its features, if it has any.
    pub open spec fn entity(self, pos: int) -> Result<(DanglingStructureView, int), Failure> {
        if !self.kind_is(pos, TokenKind::Name) {
            Err(self.mismatch(pos, Rule::entitytype))
        } else if self.kind_is(pos + 1, TokenKind::Colon) && !self.kind_is(
            pos + 2,
            TokenKind::Name,
        ) {
            Err(self.mismatch(pos + 2, Rule::parententityname))
        } else {
            let parent = if self.kind_is(pos + 1, TokenKind::Colon) {
                Some(self.text(pos + 2))
            } else {
                None
            };
            let open = if self.kind_is(pos + 1, TokenKind::Colon) {
                pos + 3
            } else {
                pos + 1
            };
            if !self.kind_is(open, TokenKind::OpenBrace) {
                Err(self.mismatch(open, Rule::entity))
            } else {
                let listed = if self.kind_is(open + 1, TokenKind::CloseBrace) {
                    Ok(((Seq::empty(), Seq::empty()), open + 1))
                } else {
                    self.features(open + 1, Seq::empty(), Seq::empty())
                };
                match listed {
                    Err(failure) => Err(failure),
                    Ok(((attributes, operations), close)) => {
                        if self.kind_is(close, TokenKind::CloseBrace) {
                            Ok(
                                (
                                    DanglingStructureView {
                                        name: self.text(pos),
                                        parent,
                                        attributes,
                                        operations,
                                    },
                                    close + 1,
                                ),
                            )
                        } else {
                            Err(self.mismatch(close, Rule::feature))
                        }
                    },
                }
            }
        }
    }

    /// A member of an enumeration: a name, and after `=` its number, if
    /// it is given one.
    pub open spec fn member(self, pos: int) -> Result<((Seq<char>, Option<usize>), int), Failure> {
        if !self.kind_is(pos, TokenKind::Name) {
            Err(self.mismatch(pos, Rule::member))
        } else if !self.kind_is(pos + 1, TokenKind::Equals) {
            Ok(((self.text(pos), None), pos + 1))
        } else if !self.kind_is(pos + 2, TokenKind::Number) {
            Err(self.mismatch(pos + 2, Rule::member))
        } else {
            match self.number(pos + 2) {
                Some(n) => Ok(((self.text(pos), Some(n)), pos + 3)),
                None => Err(self.too_large(pos + 2)),
            }
        }
    }

    /// Members with commas between them, after the members `found`.
    pub open spec fn members(self, pos: int, found: Seq<(Seq<char>, Option<usize>)>) -> Result<
        (Seq<(Seq<char>, Option<usize>)>, int),
        Failure,
    >
        decreases self.tokens.len() - pos,
    {
        match self.member(pos) {
            Err(failure) => Err(failure),
            Ok((member, next)) => {
                if self.kind_is(next, TokenKind::Comma) && pos < next {
                    self.members(next + 1, found.push(member))
                } else {
                    Ok((found.push(member), next))
                }
            },
        }
    }

    /// Whether an enumeration starts at `pos`: the word `enum` with a name
    /// after it.
    pub open spec fn enumeration_starts(self, pos: int) -> bool {
        self.kind_is(pos, TokenKind::Name) && self.text(pos) == seq!['e', 'n', 'u', 'm']
            && self.kind_is(pos + 1, TokenKind::Name)
    }

    /// An enumeration: the word `enum`, a name, and between braces the
    /// members, if it has any.
    pub open spec fn enumeration(self, pos: int) -> Result<(EnumView, int), Failure> {
        if !self.enumeration_starts(pos) {
            Err(self.mismatch(pos, Rule::enumeration))
        } else if !self.kind_is(pos + 2, TokenKind::OpenBrace) {
            Err(self.mismatch(pos + 2, Rule::enumeration))
        } else {
            let listed = if self.kind_is(pos + 3, TokenKind::CloseBrace) {
                Ok((Seq::empty(), pos + 3))
            } else {
                self.members(pos + 3, Seq::empty())
            };
            match listed {
                Err(failure) => Err(failure),
                Ok((values, close)) => {
                    if self.kind_is(close, TokenKind::CloseBrace) {
                        Ok((EnumView { identifier: self.text(pos + 1), values }, close + 1))
                    } else {
                        Err(self.mismatch(close, Rule::member))
                    }
                },
            }
        }
    }

    /// A declaration: an enumeration or a structure.
    pub open spec fn entitytype(self, pos: int) -> Result<(DanglingEntityView, int), Failure> {
        if self.enumeration_starts(pos) {
            match self.enumeration(pos) {
                Err(failure) => Err(failure),
                Ok((enumeration, next)) => Ok((DanglingEntityView::Enum(enumeration), next)),
            }
        } else {
            match self.entity(pos) {
                Err(failure) => Err(failure),
                Ok((structure, next)) => Ok((DanglingEntityView::Structure(structure), next)),
            }
        }
    }

    /// Declarations up to a closing brace, after the declarations `found`. A
    /// declaration whose name is that of a built-in type or of a declaration
    /// before it is a failure.
    pub open spec fn entities(self, pos: int, found: Seq<DanglingEntityView>) -> Result<
        (Seq<DanglingEntityView>, int),
        Failure,
    >
        decreases self.tokens.len() - pos,
    {
        if self.kind_is(pos, TokenKind::CloseBrace) {
            Ok((found, pos))
        } else {
            match self.entitytype(pos) {
                Err(failure) => Err(failure),
                Ok((entity, next)) => {
                    if name_taken(found, declared_name(entity)) {
                        Err(self.duplicate(pos))
                    } else if pos < next {
                        self.entities(next, found.push(entity))
                    } else {
                        Ok((found.push(entity), next))
                    }
                },
            }
        }
    }

    /// A namespace: its dotted name and, between braces, its declarations.
    pub open spec fn namespace(self, pos: int) -> Result<(DanglingNamespaceView, int), Failure> {
        if !self.kind_is(pos, TokenKind::Name) && !self.kind_is(pos, TokenKind::Path) {
            Err(self.mismatch(pos, Rule::namespacename))
        } else if !self.kind_is(pos + 1, TokenKind::OpenBrace) {
            Err(self.mismatch(pos + 1, Rule::namespace))
        } else {
            match self.entities(pos + 2, Seq::empty()) {
                Err(failure) => Err(failure),
                Ok((entities, close)) => {
                    if self.kind_is(close, TokenKind::CloseBrace) {
                        Ok((DanglingNamespaceView { identifier: self.text(pos), entities }, close + 1))
                    } else {
                        Err(self.mismatch(close, Rule::namespace))
                    }
                },
            }
        }
    }

    /// A whole source unit: one namespace, and nothing after it.
    pub open spec fn pakken(self) -> Result<DanglingNamespaceView, Failure> {
        match self.namespace(0) {
            Err(failure) => Err(failure),
            Ok((namespace, end)) => {
                if end == self.tokens.len() {
                    Ok(namespace)
                } else {
                    Err(self.mismatch(end, Rule::pakken))
                }
            },
        }
    }

    /// One structure, and nothing after it.
    pub open spec fn lone_entity(self) -> Result<DanglingStructureView, Failure> {
        match self.entity(0) {
            Err(failure) => Err(failure),
            Ok((structure, end)) => {
                if end == self.tokens.len() {
                    Ok(structure)
                } else {
                    Err(self.mismatch(end, Rule::entitytype))
                }
            },
        }
    }
}

/// The members that a list of members stands for.
pub open spec fn member_views(values: Seq<(String, Option<usize>)>) -> Seq<
    (Seq<char>, Option<usize>),
> {
    crate::ast::member_views(values)
}

/// A source text and its tokens, ready to be parsed.
pub struct Parser<'a> {
    input: &'a Vec<char>,
    tokens: Vec<Token>,
}

impl<'a> View for Parser<'a> {
    type V = Source;

    closed spec fn view(&self) -> Source {
        Source { input: self.input@, tokens: self.tokens@ }
    }
}

fn digit_of(c: char) -> (value: usize)
    ensures
        value == digit_value(c),
        value < 10,
{
    if c == '1' {
        1
    } else if c == '2' {
        2
    } else if c == '3' {
        3
    } else if c == '4' {
        4
    } else if c == '5' {
        5
    } else if c == '6' {
        6
    } else if c == '7' {
        7
    } else if c == '8' {
        8
    } else if c == '9' {
        9
    } else {
        0
    }
}

/// The value of a run of digits is at least the value of any run it starts
/// with.
proof fn lemma_digits_grow(digits: Seq<char>, n: int)
    requires
        0 <= n <= digits.len(),
    ensures
        digits_value(digits.take(n)) <= digits_value(digits),
    decreases digits.len() - n,
{
    if n < digits.len() {
        assert(digits.take(n + 1).drop_last() =~= digits.take(n));
        lemma_digits_grow(digits, n + 1);
    } else {
        assert(digits.take(n) =~= digits);
    }
}

fn is_builtin(name: &String) -> (r: bool)
    ensures
        r == is_builtin_name(name@),
{
    *name == String::from_str("String") || *name == String::from_str("Boolean") || *name
        == String::from_str("Character") || *name == String::from_str("Double") || *name
        == String::from_str("Integer")
}

fn entity_name(entity: &DanglingEntity) -> (name: &String)
    ensures
        name@ == declared_name(entity@),
{
    match entity {
        DanglingEntity::Structure(s) => &s.name,
        DanglingEntity::Enum(e) => &e.identifier,
    }
}

fn is_taken(found: &Vec<DanglingEntity>, name: &String) -> (r: bool)
    ensures
        r == name_taken(crate::dangling::dangling_entity_views(found@), name@),
{
    if is_builtin(name) {
        return true;
    }
    let ghost declared = crate::dangling::dangling_entity_views(found@);
    let mut i: usize = 0;
    while i < found.len()
        invariant
            i <= found.len(),
            declared == crate::dangling::dangling_entity_views(found@),
            !is_builtin_name(name@),
            forall|k: int| 0 <= k < i ==> declared_name(#[trigger] declared[k]) != name@,
        decreases found.len() - i,
    {
        if *entity_name(&found[i]) == *name {
            assert(declared_name(declared[i as int]) == name@);
            return true;
        }
        i = i + 1;
    }
    false
}

impl<'a> Parser<'a> {
    /// Whether every token lies within the text.
    pub open spec fn well_formed(&self) -> bool {
        tokens_within(self@.tokens, self@.input.len() as int)
    }

    /// Splits `input` into tokens and makes it ready to be parsed.
    pub fn new(input: &'a Vec<char>) -> (made: Result<Parser<'a>, Failure>)
        ensures
            match made {
                Ok(parser) => parser.well_formed() && parser@.input == input@ && tokens_of(input@)
                    == Ok::<Seq<Token>, Failure>(parser@.tokens),
                Err(failure) => tokens_of(input@) == Err::<Seq<Token>, Failure>(failure),
            },
    {
        match tokenize(input) {
            Ok(tokens) => Ok(Parser { input, tokens }),
            Err(failure) => Err(failure),
        }
    }

    fn is(&self, pos: usize, ahead: usize, kind: TokenKind) -> (r: bool)
        requires
            pos <= self.tokens.len(),
        ensures
            r == self@.kind_is(pos + ahead, kind),
            r ==> pos + ahead < self.tokens.len(),
    {
        self.tokens.len() - pos > ahead && self.tokens[pos + ahead].kind == kind
    }

    fn place(&self, pos: usize, ahead: usize) -> (place: usize)
        requires
            pos <= self.tokens.len(),
        ensures
            place == self@.place(pos + ahead),
    {
        if self.tokens.len() - pos > ahead {
            self.tokens[pos + ahead].start
        } else {
            self.input.len()
        }
    }

    fn mismatch(&self, pos: usize, ahead: usize, rule: Rule) -> (failure: Failure)
        requires
            pos <= self.tokens.len(),
        ensures
            failure == self@.mismatch(pos + ahead, rule),
    {
        Failure { rule, position: self.place(pos, ahead), kind: FailureKind::Syntax }
    }

    fn too_large(&self, pos: usize) -> (failure: Failure)
        requires
            pos <= self.tokens.len(),
        ensures
            failure == self@.too_large(pos as int),
    {
        Failure {
            rule: Rule::number,
            position: self.place(pos, 0),
            kind: FailureKind::NumberTooLarge,
        }
    }

    fn text(&self, pos: usize) -> (text: String)
        requires
            self.well_formed(),
            pos < self.tokens.len(),
        ensures
            text@ == self@.text(pos as int),
    {
        let token = self.tokens[pos];
        let mut text = String::new();
        let mut i: usize = token.start;
        assert(self.input@.subrange(token.start as int, i as int) =~= Seq::<char>::empty());
        while i < token.end
            invariant
                token.start <= i <= token.end <= self.input.len(),
                text@ == self.input@.subrange(token.start as int, i as int),
            decreases token.end - i,
        {
            push_char(&mut text, self.input[i]);
            i = i + 1;
            assert(self.input@.subrange(token.start as int, i as int) =~= self.input@.subrange(
                token.start as int,
                i - 1,
            ).push(self.input@[i - 1]));
        }
        text
    }

    fn number(&self, pos: usize) -> (value: Option<usize>)
        requires
            self.well_formed(),
            pos < self.tokens.len(),
        ensures
            value == self@.number(pos as int),
    {
        let token = self.tokens[pos];
        let ghost digits = self@.text(pos as int);
        let mut value: usize = 0;
        let mut i: usize = token.start;
        assert(digits.take(0) =~= Seq::<char>::empty());
        while i < token.end
            invariant
                token.start <= i <= token.end <= self.input.len(),
                digits == self@.text(pos as int),
                digits == self.input@.subrange(token.start as int, token.end as int),
                value == digits_value(digits.take(i - token.start)),
            decreases token.end - i,
        {
            let digit = digit_of(self.input[i]);
            proof {
                let n = i - token.start;
                assert(digits.take(n + 1).drop_last() =~= digits.take(n));
                assert(digits.take(n + 1).last() == self.input@[i as int]);
                lemma_digits_grow(digits, n + 1);
                assert(digits_value(digits.take(n + 1)) == digits_value(digits.take(n)) * 10
                    + digit_value(digits.take(n + 1).last()));
            }
            if value > (usize::MAX - digit) / 10 {
                assert(value * 10 + digit > usize::MAX) by (nonlinear_arith)
                    requires
                        value > (usize::MAX - digit) / 10,
                        digit < 10,
                ;
                return None;
            }
            assert(value * 10 + digit <= usize::MAX) by (nonlinear_arith)
                requires
                    value <= (usize::MAX - digit) / 10,
                    digit < 10,
            ;
            value = value * 10 + digit;
            i = i + 1;
        }
        assert(digits.take(token.end - token.start) =~= digits);
        Some(value)
    }

    fn bound(&self, pos: usize) -> (found: Result<(Option<usize>, usize), Failure>)
        requires
            self.well_formed(),
            pos <= self.tokens.len(),
        ensures
            match found {
                Ok((value, next)) => self@.bound(pos as int) == Ok::<(Option<usize>, int), Failure>(
                    (value, next as int),
                ) && pos <= next <= self.tokens.len(),
                Err(failure) => self@.bound(pos as int) == Err::<(Option<usize>, int), Failure>(
                    failure,
                ),
            },
    {
        if self.is(pos, 0, TokenKind::Number) {
            match self.number(pos) {
                Some(n) => Ok((Some(n), pos + 1)),
                None => Err(self.too_large(pos)),
            }
        } else {
            Ok((None, pos))
        }
    }

    fn braced(&self, pos: usize) -> (found: Result<(Multiplicity, usize), Failure>)
        requires
            self.well_formed(),
            pos <= self.tokens.len(),
        ensures
            match found {
                Ok((value, next)) => self@.braced(pos as int) == Ok::<(Multiplicity, int), Failure>(
                    (value, next as int),
                ) && pos < next <= self.tokens.len(),
                Err(failure) => self@.braced(pos as int) == Err::<(Multiplicity, int), Failure>(
                    failure,
                ),
            },
    {
        let (lower, middle) = match self.bound(pos) {
            Ok(found) => found,
            Err(failure) => {
                return Err(failure);
            },
        };
        if lower.is_some() && self.is(middle, 0, TokenKind::CloseBrace) {
            let n = lower.unwrap();
            let value = if n == 1 {
                Multiplicity::Single
            } else {
                Multiplicity::Concrete(Number::Discrete(n))
            };
            Ok((value, middle + 1))
        } else if self.is(middle, 0, TokenKind::Range) || self.is(middle, 0, TokenKind::Comma) {
            let (upper, close) = match self.bound(middle + 1) {
                Ok(found) => found,
                Err(failure) => {
                    return Err(failure);
                },
            };
            if self.is(close, 0, TokenKind::CloseBrace) {
                Ok((range(lower, upper), close + 1))
            } else {
                Err(self.mismatch(close, 0, Rule::multimult))
            }
        } else if lower.is_some() {
            Err(self.mismatch(middle, 0, Rule::singlemult))
        } else {
            Err(self.mismatch(middle, 0, Rule::multiplicity))
        }
    }

    fn multiplicity(&self, pos: usize) -> (found: Result<(Multiplicity, usize), Failure>)
        requires
            self.well_formed(),
            pos <= self.tokens.len(),
        ensures
            match found {
                Ok((value, next)) => self@.multiplicity(pos as int) == Ok::<
                    (Multiplicity, int),
                    Failure,
                >((value, next as int)) && pos <= next <= self.tokens.len(),
                Err(failure) => self@.multiplicity(pos as int) == Err::<
                    (Multiplicity, int),
                    Failure,
                >(failure),
            },
    {
        if self.is(pos, 0, TokenKind::Star) {
            Ok((Multiplicity::UnderUpper(Number::Discrete(0), Number::Infinity), pos + 1))
        } else if self.is(pos, 0, TokenKind::Plus) {
            Ok((Multiplicity::UnderUpper(Number::Discrete(1), Number::Infinity), pos + 1))
        } else if self.is(pos, 0, TokenKind::Question) {
            Ok((Multiplicity::Optional, pos + 1))
        } else if self.is(pos, 0, TokenKind::OpenBrace) {
            self.braced(pos + 1)
        } else {
            Ok((Multiplicity::Single, pos))
        }
    }

    fn attribute(&self, pos: usize) -> (found: Result<(DanglingAttribute, usize), Failure>)
        requires
            self.well_formed(),
            pos <= self.tokens.len(),
        ensures
            match found {
                Ok((value, next)) => self@.attribute(pos as int) == Ok::<
                    (DanglingAttributeView, int),
                    Failure,
                >((value@, next as int)) && pos < next <= self.tokens.len(),
                Err(failure) => self@.attribute(pos as int) == Err::<
                    (DanglingAttributeView, int),
                    Failure,
                >(failure),
            },
    {
        if !self.is(pos, 0, TokenKind::Name) {
            Err(self.mismatch(pos, 0, Rule::feature))
        } else if !self.is(pos, 1, TokenKind::Colon) {
            Err(self.mismatch(pos, 1, Rule::attribute))
        } else if !self.is(pos, 2, TokenKind::Name) {
            Err(self.mismatch(pos, 2, Rule::attribute))
        } else {
            match self.multiplicity(pos + 3) {
                Err(failure) => Err(failure),
                Ok((multiplicity, next)) => Ok(
                    (
                        DanglingAttribute {
                            name: self.text(pos),
                            entity: self.text(pos + 2),
                            multiplicity,
                        },
                        next,
                    ),
                ),
            }
        }
    }

    fn parameter(&self, pos: usize) -> (found: Result<(DanglingParameter, usize), Failure>)
        requires
            self.well_formed(),
            pos <= self.tokens.len(),
        ensures
            match found {
                Ok((value, next)) => self@.parameter(pos as int) == Ok::<
                    (DanglingParameterView, int),
                    Failure,
                >((value@, next as int)) && pos < next <= self.tokens.len(),
                Err(failure) => self@.parameter(pos as int) == Err::<
                    (DanglingParameterView, int),
                    Failure,
                >(failure),
            },
    {
        if !self.is(pos, 0, TokenKind::Name) {
            Err(self.mismatch(pos, 0, Rule::parameterlist))
        } else if !self.is(pos, 1, TokenKind::Colon) {
            Err(self.mismatch(pos, 1, Rule::parameter))
        } else if !self.is(pos, 2, TokenKind::Name) {
            Err(self.mismatch(pos, 2, Rule::parameter))
        } else {
            Ok((DanglingParameter { name: self.text(pos), entity: self.text(pos + 2) }, pos + 3))
        }
    }

    fn parameters(&self, pos: usize) -> (found: Result<(Vec<DanglingParameter>, usize), Failure>)
        requires
            self.well_formed(),
            pos <= self.tokens.len(),
        ensures
            match found {
                Ok((values, next)) => self@.parameters(pos as int, Seq::empty()) == Ok::<
                    (Seq<DanglingParameterView>, int),
                    Failure,
                >((crate::dangling::dangling_parameter_views(values@), next as int)) && pos < next
                    <= self.tokens.len(),
                Err(failure) => self@.parameters(pos as int, Seq::empty()) == Err::<
                    (Seq<DanglingParameterView>, int),
                    Failure,
                >(failure),
            },
    {
        let mut values: Vec<DanglingParameter> = Vec::new();
        let mut at = pos;
        assert(crate::dangling::dangling_parameter_views(values@) =~= Seq::empty());
        loop
            invariant
                self.well_formed(),
                pos <= at <= self.tokens.len(),
                self@.parameters(pos as int, Seq::empty()) == self@.parameters(
                    at as int,
                    crate::dangling::dangling_parameter_views(values@),
                ),
            decreases self.tokens.len() - at,
        {
            let ghost before = crate::dangling::dangling_parameter_views(values@);
            match self.parameter(at) {
                Err(failure) => {
                    return Err(failure);
                },
                Ok((value, next)) => {
                    values.push(value);
                    assert(crate::dangling::dangling_parameter_views(values@) =~= before.push(
                        value@,
                    ));
                    if self.is(next, 0, TokenKind::Comma) {
                        at = next + 1;
                    } else {
                        return Ok((values, next));
                    }
                },
            }
        }
    }

    fn operation(&self, pos: usize) -> (found: Result<(DanglingOperation, usize), Failure>)
        requires
            self.well_formed(),
            pos <= self.tokens.len(),
        ensures
            match found {
                Ok((value, next)) => self@.operation(pos as int) == Ok::<
                    (DanglingOperationView, int),
                    Failure,
                >((value@, next as int)) && pos < next <= self.tokens.len(),
                Err(failure) => self@.operation(pos as int) == Err::<
                    (DanglingOperationView, int),
                    Failure,
                >(failure),
            },
    {
        if !self.is(pos, 0, TokenKind::Name) {
            return Err(self.mismatch(pos, 0, Rule::feature));
        }
        if !self.is(pos, 1, TokenKind::OpenParen) {
            return Err(self.mismatch(pos, 1, Rule::operation));
        }
        let (parameter, close) = if self.is(pos, 2, TokenKind::CloseParen) {
            let none: Vec<DanglingParameter> = Vec::new();
            assert(crate::dangling::dangling_parameter_views(none@) =~= Seq::empty());
            (none, pos + 2)
        } else {
            match self.parameters(pos + 2) {
                Ok(found) => found,
                Err(failure) => {
                    return Err(failure);
                },
            }
        };
        if !self.is(close, 0, TokenKind::CloseParen) {
            Err(self.mismatch(close, 0, Rule::parameterlist))
        } else if !self.is(close, 1, TokenKind::Colon) {
            Ok((DanglingOperation { name: self.text(pos), returns: None, parameter }, close + 1))
        } else if !self.is(close, 2, TokenKind::Name) {
            Err(self.mismatch(close, 2, Rule::operation))
        } else {
            Ok(
                (
                    DanglingOperation {
                        name: self.text(pos),
                        returns: Some(self.text(close + 2)),
                        parameter,
                    },
                    close + 3,
                ),
            )
        }
    }

    fn features(&self, pos: usize) -> (found: Result<
        (Vec<DanglingAttribute>, Vec<DanglingOperation>, usize),
        Failure,
    >)
        requires
            self.well_formed(),
            pos <= self.tokens.len(),
        ensures
            match found {
                Ok((attributes, operations, next)) => self@.features(
                    pos as int,
                    Seq::empty(),
                    Seq::empty(),
                ) == Ok::<
                    ((Seq<DanglingAttributeView>, Seq<DanglingOperationView>), int),
                    Failure,
                >(
                    (
                        (
                            crate::dangling::dangling_attribute_views(attributes@),
                            crate::dangling::dangling_operation_views(operations@),
                        ),
                        next as int,
                    ),
                ) && pos < next <= self.tokens.len(),
                Err(failure) => self@.features(pos as int, Seq::empty(), Seq::empty()) == Err::<
                    ((Seq<DanglingAttributeView>, Seq<DanglingOperationView>), int),
                    Failure,
                >(failure),
            },
    {
        let mut attributes: Vec<DanglingAttribute> = Vec::new();
        let mut operations: Vec<DanglingOperation> = Vec::new();
        let mut at = pos;
        assert(crate::dangling::dangling_attribute_views(attributes@) =~= Seq::empty());
        assert(crate::dangling::dangling_operation_views(operations@) =~= Seq::empty());
        loop
            invariant
                self.well_formed(),
                pos <= at <= self.tokens.len(),
                self@.features(pos as int, Seq::empty(), Seq::empty()) == self@.features(
                    at as int,
                    crate::dangling::dangling_attribute_views(attributes@),
                    crate::dangling::dangling_operation_views(operations@),
                ),
            decreases self.tokens.len() - at,
        {
            let ghost attributes_before = crate::dangling::dangling_attribute_views(attributes@);
            let ghost operations_before = crate::dangling::dangling_operation_views(operations@);
            let next = if self.is(at, 0, TokenKind::Name) && self.is(at, 1, TokenKind::OpenParen) {
                match self.operation(at) {
                    Err(failure) => {
                        return Err(failure);
                    },
                    Ok((value, next)) => {
                        operations.push(value);
                        assert(crate::dangling::dangling_operation_views(operations@)
                            =~= operations_before.push(value@));
                        next
                    },
                }
            } else {
                match self.attribute(at) {
                    Err(failure) => {
                        return Err(failure);
                    },
                    Ok((value, next)) => {
                        attributes.push(value);
                        assert(crate::dangling::dangling_attribute_views(attributes@)
                            =~= attributes_before.push(value@));
                        next
                    },
                }
            };
            if self.is(next, 0, TokenKind::Comma) {
                at = next + 1;
            } else {
                return Ok((attributes, operations, next));
            }
        }
    }

    fn entity(&self, pos: usize) -> (found: Result<(DanglingStructure, usize), Failure>)
        requires
            self.well_formed(),
            pos <= self.tokens.len(),
        ensures
            match found {
                Ok((value, next)) => self@.entity(pos as int) == Ok::<
                    (DanglingStructureView, int),
                    Failure,
                >((value@, next as int)) && pos < next <= self.tokens.len(),
                Err(failure) => self@.entity(pos as int) == Err::<
                    (DanglingStructureView, int),
                    Failure,
                >(failure),
            },
    {
        if !self.is(pos, 0, TokenKind::Name) {
            return Err(self.mismatch(pos, 0, Rule::entitytype));
        }
        let inherits = self.is(pos, 1, TokenKind::Colon);
        if inherits && !self.is(pos, 2, TokenKind::Name) {
            return Err(self.mismatch(pos, 2, Rule::parententityname));
        }
        let parent = if inherits {
            Some(self.text(pos + 2))
        } else {
            None
        };
        let open = if inherits {
            pos + 3
        } else {
            pos + 1
        };
        if !self.is(open, 0, TokenKind::OpenBrace) {
            return Err(self.mismatch(open, 0, Rule::entity));
        }
        let (attributes, operations, close) = if self.is(open, 1, TokenKind::CloseBrace) {
            let no_attributes: Vec<DanglingAttribute> = Vec::new();
            let no_operations: Vec<DanglingOperation> = Vec::new();
            assert(crate::dangling::dangling_attribute_views(no_attributes@) =~= Seq::empty());
            assert(crate::dangling::dangling_operation_views(no_operations@) =~= Seq::empty());
            (no_attributes, no_operations, open + 1)
        } else {
            match self.features(open + 1) {
                Ok(found) => found,
                Err(failure) => {
                    return Err(failure);
                },
            }
        };
        if self.is(close, 0, TokenKind::CloseBrace) {
            Ok(
                (
                    DanglingStructure { name: self.text(pos), parent, attributes, operations },
                    close + 1,
                ),
            )
        } else {
            Err(self.mismatch(close, 0, Rule::feature))
        }
    }

    fn member(&self, pos: usize) -> (found: Result<((String, Option<usize>), usize), Failure>)
        requires
            self.well_formed(),
            pos <= self.tokens.len(),
        ensures
            match found {
                Ok((value, next)) => self@.member(pos as int) == Ok::<
                    ((Seq<char>, Option<usize>), int),
                    Failure,
                >(((value.0@, value.1), next as int)) && pos < next <= self.tokens.len(),
                Err(failure) => self@.member(pos as int) == Err::<
                    ((Seq<char>, Option<usize>), int),
                    Failure,
                >(failure),
            },
    {
        if !self.is(pos, 0, TokenKind::Name) {
            Err(self.mismatch(pos, 0, Rule::member))
        } else if !self.is(pos, 1, TokenKind::Equals) {
            Ok(((self.text(pos), None), pos + 1))
        } else if !self.is(pos, 2, TokenKind::Number) {
            Err(self.mismatch(pos, 2, Rule::member))
        } else {
            match self.number(pos + 2) {
                Some(n) => Ok(((self.text(pos), Some(n)), pos + 3)),
                None => Err(self.too_large(pos + 2)),
            }
        }
    }

    fn members(&self, pos: usize) -> (found: Result<(Vec<(String, Option<usize>)>, usize), Failure>)
        requires
            self.well_formed(),
            pos <= self.tokens.len(),
        ensures
            match found {
                Ok((values, next)) => self@.members(pos as int, Seq::empty()) == Ok::<
                    (Seq<(Seq<char>, Option<usize>)>, int),
                    Failure,
                >((member_views(values@), next as int)) && pos < next <= self.tokens.len(),
                Err(failure) => self@.members(pos as int, Seq::empty()) == Err::<
                    (Seq<(Seq<char>, Option<usize>)>, int),
                    Failure,
                >(failure),
            },
    {
        let mut values: Vec<(String, Option<usize>)> = Vec::new();
        let mut at = pos;
        assert(member_views(values@) =~= Seq::empty());
        loop
            invariant
                self.well_formed(),
                pos <= at <= self.tokens.len(),
                self@.members(pos as int, Seq::empty()) == self@.members(
                    at as int,
                    member_views(values@),
                ),
            decreases self.tokens.len() - at,
        {
            let ghost before = member_views(values@);
            match self.member(at) {
                Err(failure) => {
                    return Err(failure);
                },
                Ok((value, next)) => {
                    let ghost added = (value.0@, value.1);
                    values.push(value);
                    assert(member_views(values@) =~= before.push(added));
                    if self.is(next, 0, TokenKind::Comma) {
                        at = next + 1;
                    } else {
                        return Ok((values, next));
                    }
                },
            }
        }
    }

    fn enumeration_starts(&self, pos: usize) -> (r: bool)
        requires
            self.well_formed(),
            pos <= self.tokens.len(),
        ensures
            r == self@.enumeration_starts(pos as int),
    {
        if !self.is(pos, 0, TokenKind::Name) || !self.is(pos, 1, TokenKind::Name) {
            return false;
        }
        let token = self.tokens[pos];
        let ghost word = self@.text(pos as int);
        assert(word.len() == token.end - token.start);
        assert(seq!['e', 'n', 'u', 'm'].len() == 4);
        if token.end - token.start != 4 {
            return false;
        }
        assert(word[0] == self.input@[token.start as int]);
        assert(word[1] == self.input@[token.start + 1]);
        assert(word[2] == self.input@[token.start + 2]);
        assert(word[3] == self.input@[token.start + 3]);
        let r = self.input[token.start] == 'e' && self.input[token.start + 1] == 'n'
            && self.input[token.start + 2] == 'u' && self.input[token.start + 3] == 'm';
        assert(r ==> word =~= seq!['e', 'n', 'u', 'm']);
        r
    }

    fn enumeration(&self, pos: usize) -> (found: Result<(Enum, usize), Failure>)
        requires
            self.well_formed(),
            pos <= self.tokens.len(),
        ensures
            match found {
                Ok((value, next)) => self@.enumeration(pos as int) == Ok::<(EnumView, int), Failure>(
                    (value@, next as int),
                ) && pos < next <= self.tokens.len(),
                Err(failure) => self@.enumeration(pos as int) == Err::<(EnumView, int), Failure>(
                    failure,
                ),
            },
    {
        if !self.enumeration_starts(pos) {
            return Err(self.mismatch(pos, 0, Rule::enumeration));
        }
        if !self.is(pos, 2, TokenKind::OpenBrace) {
            return Err(self.mismatch(pos, 2, Rule::enumeration));
        }
        let (values, close) = if self.is(pos, 3, TokenKind::CloseBrace) {
            let none: Vec<(String, Option<usize>)> = Vec::new();
            assert(member_views(none@) =~= Seq::empty());
            (none, pos + 3)
        } else {
            match self.members(pos + 3) {
                Ok(found) => found,
                Err(failure) => {
                    return Err(failure);
                },
            }
        };
        if self.is(close, 0, TokenKind::CloseBrace) {
            Ok((Enum { identifier: self.text(pos + 1), values }, close + 1))
        } else {
            Err(self.mismatch(close, 0, Rule::member))
        }
    }

    fn entitytype(&self, pos: usize) -> (found: Result<(DanglingEntity, usize), Failure>)
        requires
            self.well_formed(),
            pos <= self.tokens.len(),
        ensures
            match found {
                Ok((value, next)) => self@.entitytype(pos as int) == Ok::<
                    (DanglingEntityView, int),
                    Failure,
                >((value@, next as int)) && pos < next <= self.tokens.len(),
                Err(failure) => self@.entitytype(pos as int) == Err::<
                    (DanglingEntityView, int),
                    Failure,
                >(failure),
            },
    {
        if self.enumeration_starts(pos) {
            match self.enumeration(pos) {
                Err(failure) => Err(failure),
                Ok((enumeration, next)) => Ok((DanglingEntity::Enum(enumeration), next)),
            }
        } else {
            match self.entity(pos) {
                Err(failure) => Err(failure),
                Ok((structure, next)) => Ok((DanglingEntity::Structure(structure), next)),
            }
        }
    }

    fn entities(&self, pos: usize) -> (found: Result<(Vec<DanglingEntity>, usize), Failure>)
        requires
            self.well_formed(),
            pos <= self.tokens.len(),
        ensures
            match found {
                Ok((values, next)) => self@.entities(pos as int, Seq::empty()) == Ok::<
                    (Seq<DanglingEntityView>, int),
                    Failure,
                >((crate::dangling::dangling_entity_views(values@), next as int)) && pos <= next
                    <= self.tokens.len(),
                Err(failure) => self@.entities(pos as int, Seq::empty()) == Err::<
                    (Seq<DanglingEntityView>, int),
                    Failure,
                >(failure),
            },
    {
        let mut values: Vec<DanglingEntity> = Vec::new();
        let mut at = pos;
        assert(crate::dangling::dangling_entity_views(values@) =~= Seq::empty());
        loop
            invariant
                self.well_formed(),
                pos <= at <= self.tokens.len(),
                self@.entities(pos as int, Seq::empty()) == self@.entities(
                    at as int,
                    crate::dangling::dangling_entity_views(values@),
                ),
            decreases self.tokens.len() - at,
        {
            let ghost before = crate::dangling::dangling_entity_views(values@);
            if self.is(at, 0, TokenKind::CloseBrace) {
                return Ok((values, at));
            }
            match self.entitytype(at) {
                Err(failure) => {
                    return Err(failure);
                },
                Ok((value, next)) => {
                    if is_taken(&values, entity_name(&value)) {
                        return Err(
                            Failure {
                                rule: Rule::entitytype,
                                position: self.place(at, 0),
                                kind: FailureKind::DuplicateEntity,
                            },
                        );
                    }
                    values.push(value);
                    assert(crate::dangling::dangling_entity_views(values@) =~= before.push(value@));
                    at = next;
                },
            }
        }
    }

    fn namespace(&self, pos: usize) -> (found: Result<(DanglingNamespace, usize), Failure>)
        requires
            self.well_formed(),
            pos <= self.tokens.len(),
        ensures
            match found {
                Ok((value, next)) => self@.namespace(pos as int) == Ok::<
                    (DanglingNamespaceView, int),
                    Failure,
                >((value@, next as int)) && pos < next <= self.tokens.len(),
                Err(failure) => self@.namespace(pos as int) == Err::<
                    (DanglingNamespaceView, int),
                    Failure,
                >(failure),
            },
    {
        if !self.is(pos, 0, TokenKind::Name) && !self.is(pos, 0, TokenKind::Path) {
            return Err(self.mismatch(pos, 0, Rule::namespacename));
        }
        if !self.is(pos, 1, TokenKind::OpenBrace) {
            return Err(self.mismatch(pos, 1, Rule::namespace));
        }
        match self.entities(pos + 2) {
            Err(failure) => Err(failure),
            Ok((entities, close)) => {
                if self.is(close, 0, TokenKind::CloseBrace) {
                    Ok((DanglingNamespace { identifier: self.text(pos), entities }, close + 1))
                } else {
                    Err(self.mismatch(close, 0, Rule::namespace))
                }
            },
        }
    }

    /// The namespace that the whole source holds.
    pub fn pakken(&self) -> (found: Result<DanglingNamespace, Failure>)
        requires
            self.well_formed(),
        ensures
            match found {
                Ok(value) => self@.pakken() == Ok::<DanglingNamespaceView, Failure>(value@),
                Err(failure) => self@.pakken() == Err::<DanglingNamespaceView, Failure>(failure),
            },
    {
        match self.namespace(0) {
            Err(failure) => Err(failure),
            Ok((namespace, end)) => {
                if end == self.tokens.len() {
                    Ok(namespace)
                } else {
                    Err(self.mismatch(end, 0, Rule::pakken))
                }
            },
        }
    }

    /// The structure that the whole source holds.
    pub fn lone_entity(&self) -> (found: Result<DanglingStructure, Failure>)
        requires
            self.well_formed(),
        ensures
            match found {
                Ok(value) => self@.lone_entity() == Ok::<DanglingStructureView, Failure>(value@),
                Err(failure) => self@.lone_entity() == Err::<DanglingStructureView, Failure>(
                    failure,
                ),
            },
    {
        match self.entity(0) {
            Err(failure) => Err(failure),
            Ok((structure, end)) => {
                if end == self.tokens.len() {
                    Ok(structure)
                } else {
                    Err(self.mismatch(end, 0, Rule::entitytype))
                }
            },
        }
    }
}

fn range(lower: Option<usize>, upper: Option<usize>) -> (value: Multiplicity)
    ensures
        value == between(lower, upper),
{
    let under = match lower {
        Some(n) => n,
        None => 0,
    };
    let one = match upper {
        Some(n) => n == 1,
        None => false,
    };
    if under == 0 && one {
        Multiplicity::Optional
    } else {
        Multiplicity::UnderUpper(
            Number::Discrete(under),
            match upper {
                Some(n) => Number::Discrete(n),
                None => Number::Infinity,
            },
        )
    }
}

/// The line and the column, both counted from one, of the character at
/// `position`.
pub open spec fn line_column(input: Seq<char>, position: int) -> (nat, nat)
    decreases position,
{
    if position <= 0 {
        (1, 1)
    } else {
        let before = line_column(input, position - 1);
        if position - 1 < input.len() && input[position - 1] == '\n' {
            (before.0 + 1, 1)
        } else {
            (before.0, before.1 + 1)
        }
    }
}

/// Neither the line nor the column is more than one past the position.
pub proof fn lemma_line_column(input: Seq<char>, position: int)
    requires
        0 <= position,
    ensures
        1 <= line_column(input, position).0 <= position + 1,
        1 <= line_column(input, position).1 <= position + 1,
    decreases position,
{
    if position > 0 {
        lemma_line_column(input, position - 1);
    }
}

/// The error that reports `failure` in `input`: where it is, by line and
/// column, and for what is not a matter of the grammar, why. A place past
/// the end of the text counts as the end.
pub open spec fn reported(input: Seq<char>, failure: Failure) -> ParserErrorView {
    let position = if failure.position <= input.len() {
        failure.position as int
    } else {
        input.len() as int
    };
    let place = line_column(input, position);
    match failure.kind {
        FailureKind::Syntax => ParserErrorView::ParsingError(place.0 as usize, place.1 as usize),
        FailureKind::NumberTooLarge => ParserErrorView::CustomError(
            place.0 as usize,
            place.1 as usize,
            "number too large"@,
        ),
        FailureKind::DuplicateEntity => ParserErrorView::CustomError(
            place.0 as usize,
            place.1 as usize,
            "entity declared twice"@,
        ),
    }
}

/// The namespace that `input` holds by the grammar, or where and why it
/// holds none.
pub open spec fn syntax_of(input: Seq<char>) -> Result<DanglingNamespaceView, Failure> {
    match tokens_of(input) {
        Err(failure) => Err(failure),
        Ok(tokens) => (Source { input, tokens }).pakken(),
    }
}

/// The structure that `input` holds by the grammar, or where and why it
/// holds none.
pub open spec fn structure_syntax_of(input: Seq<char>) -> Result<DanglingStructureView, Failure> {
    match tokens_of(input) {
        Err(failure) => Err(failure),
        Ok(tokens) => (Source { input, tokens }).lone_entity(),
    }
}

/// Whether a text is too long for a place in it to be counted.
pub open spec fn too_long(input: Seq<char>) -> bool {
    input.len() >= usize::MAX
}

/// What parsing `input` gives: the namespace it holds, or the error that
/// reports why it holds none.
pub open spec fn parsed(input: Seq<char>) -> Result<DanglingNamespaceView, ParserErrorView> {
    if too_long(input) {
        Err(ParserErrorView::Unhandled)
    } else {
        match syntax_of(input) {
            Ok(namespace) => Ok(namespace),
            Err(failure) => Err(reported(input, failure)),
        }
    }
}

/// What parsing `input` as one structure gives.
pub open spec fn parsed_structure(input: Seq<char>) -> Result<
    DanglingStructureView,
    ParserErrorView,
> {
    if too_long(input) {
        Err(ParserErrorView::Unhandled)
    } else {
        match structure_syntax_of(input) {
            Ok(structure) => Ok(structure),
            Err(failure) => Err(reported(input, failure)),
        }
    }
}

/// What parsing and resolving `input` gives: the model, or the error of
/// the first of the two steps that fails.
pub open spec fn model_of(input: Seq<char>) -> Result<NamespaceView, ParserErrorView> {
    match parsed(input) {
        Err(error) => Err(error),
        Ok(dangling) => match resolved_namespace(dangling) {
            Ok(namespace) => Ok(namespace),
            Err(name) => Err(unknown_entity(name)),
        },
    }
}

fn locate(input: &Vec<char>, position: usize) -> (place: (usize, usize))
    requires
        position <= input.len() < usize::MAX,
    ensures
        place.0 == line_column(input@, position as int).0,
        place.1 == line_column(input@, position as int).1,
{
    let mut line: usize = 1;
    let mut column: usize = 1;
    let mut i: usize = 0;
    while i < position
        invariant
            i <= position <= input.len() < usize::MAX,
            line == line_column(input@, i as int).0,
            column == line_column(input@, i as int).1,
        decreases position - i,
    {
        proof {
            lemma_line_column(input@, i as int);
        }
        if input[i] == '\n' {
            line = line + 1;
            column = 1;
        } else {
            column = column + 1;
        }
        i = i + 1;
    }
    (line, column)
}

fn report(input: &Vec<char>, failure: Failure) -> (error: ParserError)
    requires
        input.len() < usize::MAX,
    ensures
        error@ == reported(input@, failure),
{
    let position = if failure.position <= input.len() {
        failure.position
    } else {
        input.len()
    };
    let (line, column) = locate(input, position);
    match failure.kind {
        FailureKind::Syntax => ParserError::ParsingError(line, column),
        FailureKind::NumberTooLarge => ParserError::CustomError(
            line,
            column,
            String::from_str("number too large"),
        ),
        FailureKind::DuplicateEntity => ParserError::CustomError(
            line,
            column,
            String::from_str("entity declared twice"),
        ),
    }
}

/// Finds the namespace that `code` holds by the grammar, or where and why
/// it holds none: the rule that does not match and the place of the
/// character at which it does not.
pub fn parse_source(code: &str) -> (found: Result<DanglingNamespace, Failure>)
    ensures
        match found {
            Ok(namespace) => syntax_of(code@) == Ok::<DanglingNamespaceView, Failure>(namespace@),
            Err(failure) => syntax_of(code@) == Err::<DanglingNamespaceView, Failure>(failure),
        },
{
    let input = to_chars(code);
    match Parser::new(&input) {
        Err(failure) => Err(failure),
        Ok(parser) => parser.pakken(),
    }
}

/// Parses a namespace. The types that it mentions stay names: nothing is
/// looked up.
///
/// A source that does not follow the grammar is reported with the line and
/// the column at which it does not, both counted from one.
pub fn parse(code: &str) -> (found: ParserResult<DanglingNamespace>)
    ensures
        match found {
            Ok(namespace) => parsed(code@) == Ok::<DanglingNamespaceView, ParserErrorView>(
                namespace@,
            ),
            Err(error) => parsed(code@) == Err::<DanglingNamespaceView, ParserErrorView>(error@),
        },
{
    let input = to_chars(code);
    if input.len() == usize::MAX {
        return Err(ParserError::Unhandled);
    }
    match Parser::new(&input) {
        Err(failure) => Err(report(&input, failure)),
        Ok(parser) => match parser.pakken() {
            Ok(namespace) => Ok(namespace),
            Err(failure) => Err(report(&input, failure)),
        },
    }
}

/// Parses one structure.
pub fn parse_structure(code: &str) -> (found: ParserResult<DanglingStructure>)
    ensures
        match found {
            Ok(structure) => parsed_structure(code@) == Ok::<
                DanglingStructureView,
                ParserErrorView,
            >(structure@),
            Err(error) => parsed_structure(code@) == Err::<DanglingStructureView, ParserErrorView>(
                error@,
            ),
        },
{
    let input = to_chars(code);
    if input.len() == usize::MAX {
        return Err(ParserError::Unhandled);
    }
    match Parser::new(&input) {
        Err(failure) => Err(report(&input, failure)),
        Ok(parser) => match parser.lone_entity() {
            Ok(structure) => Ok(structure),
            Err(failure) => Err(report(&input, failure)),
        },
    }
}

/// Checks that `code` follows the grammar.
pub fn lex(code: &str) -> (checked: ParserResult<()>)
    ensures
        match checked {
            Ok(_) => parsed(code@) is Ok,
            Err(error) => parsed(code@) == Err::<DanglingNamespaceView, ParserErrorView>(error@),
        },
{
    match parse(code) {
        Ok(_) => Ok(()),
        Err(error) => Err(error),
    }
}

/// Parses a namespace and resolves it.
///
/// In the model that comes out, every reference points to an entity of the
/// model, declared no later than the structure that refers to it, and no two
/// entities have the same name.
pub fn parse_model(code: &str) -> (found: ParserResult<Namespace>)
    ensures
        match found {
            Ok(namespace) => model_of(code@) == Ok::<NamespaceView, ParserErrorView>(namespace@)
                && namespace@.linked() && namespace@.in_declaration_order()
                && namespace@.unique_names(),
            Err(error) => model_of(code@) == Err::<NamespaceView, ParserErrorView>(error@),
        },
{
    match parse(code) {
        Err(error) => Err(error),
        Ok(dangling) => {
            let resolved = dangling.resolve();
            proof {
                if resolved is Ok {
                    lemma_model_names_unique(code@);
                }
            }
            resolved
        },
    }
}

/// Whether no two of `declared` have the same name, and none the name of a
/// built-in type.
pub open spec fn distinct_names(declared: Seq<DanglingEntityView>) -> bool {
    &&& forall|i: int|
        0 <= i < declared.len() ==> !is_builtin_name(declared_name(#[trigger] declared[i]))
    &&& forall|i: int, j: int|
        0 <= i < j < declared.len() ==> declared_name(#[trigger] declared[i]) != declared_name(
            #[trigger] declared[j],
        )
}

/// The declarations that the grammar accepts after declarations of distinct
/// names have distinct names together with those.
pub proof fn lemma_entities_distinct(source: Source, pos: int, found: Seq<DanglingEntityView>)
    requires
        distinct_names(found),
        source.entities(pos, found) is Ok,
    ensures
        distinct_names(source.entities(pos, found)->Ok_0.0),
    decreases source.tokens.len() - pos,
{
    if !source.kind_is(pos, TokenKind::CloseBrace) {
        match source.entitytype(pos) {
            Err(_) => {},
            Ok((entity, next)) => {
                let more = found.push(entity);
                assert forall|i: int, j: int| 0 <= i < j < more.len() implies declared_name(
                    #[trigger] more[i],
                ) != declared_name(#[trigger] more[j]) by {
                    if j == found.len() {
                        assert(more[i] == found[i]);
                    }
                }
                if pos < next {
                    lemma_entities_distinct(source, next, more);
                }
            },
        }
    }
}

/// In a namespace that the grammar accepts, no two declarations have the same
/// name, and none has the name of a built-in type.
pub proof fn lemma_parsed_names_distinct(input: Seq<char>)
    requires
        parsed(input) is Ok,
    ensures
        distinct_names(parsed(input)->Ok_0.entities),
{
    let tokens = tokens_of(input)->Ok_0;
    let source = Source { input, tokens };
    lemma_entities_distinct(source, 2, Seq::empty());
}

/// The entities that resolving adds keep the names of their declarations,
/// in order, after the entities that were there.
pub proof fn lemma_resolved_names(dangling: Seq<DanglingEntityView>, known: Seq<EntityView>)
    requires
        resolved_entities(dangling, known) is Ok,
    ensures
        ({
            let entities = resolved_entities(dangling, known)->Ok_0;
            &&& entities.len() == known.len() + dangling.len()
            &&& forall|i: int| 0 <= i < known.len() ==> #[trigger] entities[i] == known[i]
            &&& forall|i: int|
                0 <= i < dangling.len() ==> (#[trigger] entities[known.len() + i]).name()
                    == declared_name(dangling[i])
        }),
    decreases dangling.len(),
{
    if dangling.len() > 0 {
        let rest = dangling.skip(1);
        let more = match dangling[0] {
            DanglingEntityView::Enum(enumeration) => known.push(EntityView::Enum(enumeration)),
            DanglingEntityView::Structure(structure) => known.push(
                EntityView::Structure(
                    structure.linked(known.push(crate::dangling::announced(structure.name))),
                ),
            ),
        };
        lemma_resolved_names(rest, more);
        let entities = resolved_entities(dangling, known)->Ok_0;
        assert forall|i: int| 0 <= i < known.len() implies #[trigger] entities[i] == known[i] by {
            assert(more[i] == known[i]);
        }
        assert forall|i: int| 0 <= i < dangling.len() implies (#[trigger] entities[known.len()
            + i]).name() == declared_name(dangling[i]) by {
            if i == 0 {
                assert(entities[known.len() as int] == more[known.len() as int]);
            } else {
                assert(rest[i - 1] == dangling[i]);
                assert(entities[more.len() + (i - 1)].name() == declared_name(rest[i - 1]));
            }
        }
    }
}

/// In the model of a source, no two entities have the same name.
pub proof fn lemma_model_names_unique(input: Seq<char>)
    requires
        model_of(input) is Ok,
    ensures
        model_of(input)->Ok_0.unique_names(),
{
    let dangling = parsed(input)->Ok_0;
    let known = builtin_entities();
    let namespace = model_of(input)->Ok_0;
    lemma_parsed_names_distinct(input);
    lemma_resolved_names(dangling.entities, known);
    reveal_strlit("String");
    reveal_strlit("Boolean");
    reveal_strlit("Character");
    reveal_strlit("Double");
    reveal_strlit("Integer");
    let entities = namespace.entities;
    assert forall|i: int, j: int| 0 <= i < j < entities.len() implies (#[trigger] entities[i]).name()
        != (#[trigger] entities[j]).name() by {
        if j < 5 {
            assert(entities[i] == known[i]);
            assert(entities[j] == known[j]);
            assert(known[i].name()[0] != known[j].name()[0]);
        } else if i < 5 {
            assert(entities[i] == known[i]);
            assert(entities[known.len() + (j - 5)].name() == declared_name(
                dangling.entities[j - 5],
            ));
            assert(is_builtin_name(known[i].name()));
        } else {
            assert(entities[known.len() + (i - 5)].name() == declared_name(
                dangling.entities[i - 5],
            ));
            assert(entities[known.len() + (j - 5)].name() == declared_name(
                dangling.entities[j - 5],
            ));
        }
    }
}

} // verus!
