//! Declarations as they are parsed, with types by name, and their
//! resolution into the model.

use crate::ast::{
    entity_position, lemma_below_more, lemma_entity_position, Attribute, AttributeView, Entity,
    EntityId, EntityView, Enum, EnumView, Multiplicity, Namespace, NamespaceView, Operation,
    OperationView, Parameter, ParameterView, Scalar, Structure, StructureView,
};
use crate::error::{ParserError, ParserErrorView, ParserResult};
use vstd::prelude::*;

verus! {

/// A structure as it was parsed: the types are still names.
#[derive(Debug, PartialEq, Eq)]
pub struct DanglingStructure {
    pub name: String,
    pub parent: Option<String>,
    pub attributes: Vec<DanglingAttribute>,
    pub operations: Vec<DanglingOperation>,
}

/// An attribute as it was parsed.
#[derive(Debug, PartialEq, Eq)]
pub struct DanglingAttribute {
    pub name: String,
    pub entity: String,
    pub multiplicity: Multiplicity,
}

/// A parameter as it was parsed.
#[derive(Debug, PartialEq, Eq)]
pub struct DanglingParameter {
    pub name: String,
    pub entity: String,
}

/// An operation as it was parsed.
#[derive(Debug, PartialEq, Eq)]
pub struct DanglingOperation {
    pub name: String,
    pub returns: Option<String>,
    pub parameter: Vec<DanglingParameter>,
}

/// A declaration as it was parsed. An enumeration refers to no other type,
/// so it is complete already.
#[derive(Debug, PartialEq, Eq)]
pub enum DanglingEntity {
    Structure(DanglingStructure),
    Enum(Enum),
}

/// A namespace as it was parsed: its name and its declarations in order.
#[derive(Debug, PartialEq, Eq)]
pub struct DanglingNamespace {
    pub identifier: String,
    pub entities: Vec<DanglingEntity>,
}

/// What a [`DanglingAttribute`] stands for.
pub ghost struct DanglingAttributeView {
    pub name: Seq<char>,
    pub entity: Seq<char>,
    pub multiplicity: Multiplicity,
}

/// What a [`DanglingParameter`] stands for.
pub ghost struct DanglingParameterView {
    pub name: Seq<char>,
    pub entity: Seq<char>,
}

/// What a [`DanglingOperation`] stands for.
pub ghost struct DanglingOperationView {
    pub name: Seq<char>,
    pub returns: Option<Seq<char>>,
    pub parameter: Seq<DanglingParameterView>,
}

/// What a [`DanglingStructure`] stands for.
pub ghost struct DanglingStructureView {
    pub name: Seq<char>,
    pub parent: Option<Seq<char>>,
    pub attributes: Seq<DanglingAttributeView>,
    pub operations: Seq<DanglingOperationView>,
}

/// What a [`DanglingEntity`] stands for.
pub ghost enum DanglingEntityView {
    Structure(DanglingStructureView),
    Enum(EnumView),
}

/// What a [`DanglingNamespace`] stands for.
pub ghost struct DanglingNamespaceView {
    pub identifier: Seq<char>,
    pub entities: Seq<DanglingEntityView>,
}

/// The name that an optional text stands for.
pub open spec fn optional_name(name: Option<String>) -> Option<Seq<char>> {
    match name {
        Some(name) => Some(name@),
        None => None,
    }
}

/// What a list of attributes stands for.
pub open spec fn dangling_attribute_views(attributes: Seq<DanglingAttribute>) -> Seq<
    DanglingAttributeView,
> {
    Seq::new(attributes.len(), |i: int| attributes[i]@)
}

/// What a list of parameters stands for.
pub open spec fn dangling_parameter_views(parameters: Seq<DanglingParameter>) -> Seq<
    DanglingParameterView,
> {
    Seq::new(parameters.len(), |i: int| parameters[i]@)
}

/// What a list of operations stands for.
pub open spec fn dangling_operation_views(operations: Seq<DanglingOperation>) -> Seq<
    DanglingOperationView,
> {
    Seq::new(operations.len(), |i: int| operations[i]@)
}

/// What a list of entities stands for.
pub open spec fn dangling_entity_views(entities: Seq<DanglingEntity>) -> Seq<DanglingEntityView> {
    Seq::new(entities.len(), |i: int| entities[i]@)
}

impl View for DanglingAttribute {
    type V = DanglingAttributeView;

    open spec fn view(&self) -> DanglingAttributeView {
        DanglingAttributeView {
            name: self.name@,
            entity: self.entity@,
            multiplicity: self.multiplicity,
        }
    }
}

impl View for DanglingParameter {
    type V = DanglingParameterView;

    open spec fn view(&self) -> DanglingParameterView {
        DanglingParameterView { name: self.name@, entity: self.entity@ }
    }
}

impl View for DanglingOperation {
    type V = DanglingOperationView;

    open spec fn view(&self) -> DanglingOperationView {
        DanglingOperationView {
            name: self.name@,
            returns: optional_name(self.returns),
            parameter: dangling_parameter_views(self.parameter@),
        }
    }
}

impl View for DanglingStructure {
    type V = DanglingStructureView;

    open spec fn view(&self) -> DanglingStructureView {
        DanglingStructureView {
            name: self.name@,
            parent: optional_name(self.parent),
            attributes: dangling_attribute_views(self.attributes@),
            operations: dangling_operation_views(self.operations@),
        }
    }
}

impl View for DanglingEntity {
    type V = DanglingEntityView;

    open spec fn view(&self) -> DanglingEntityView {
        match self {
            DanglingEntity::Structure(s) => DanglingEntityView::Structure(s@),
            DanglingEntity::Enum(e) => DanglingEntityView::Enum(e@),
        }
    }
}

impl View for DanglingNamespace {
    type V = DanglingNamespaceView;

    open spec fn view(&self) -> DanglingNamespaceView {
        DanglingNamespaceView {
            identifier: self.identifier@,
            entities: dangling_entity_views(self.entities@),
        }
    }
}

/// The first of `names` that is the name of none of `entities`.
pub open spec fn first_unknown(names: Seq<Seq<char>>, entities: Seq<EntityView>) -> Option<
    Seq<char>,
>
    decreases names.len(),
{
    if names.len() == 0 {
        None
    } else if entity_position(entities, names[0]) is None {
        Some(names[0])
    } else {
        first_unknown(names.skip(1), entities)
    }
}

/// The place of the first of `entities` that is called `name`; meant for a
/// name that is known.
pub open spec fn place(entities: Seq<EntityView>, name: Seq<char>) -> EntityId {
    match entity_position(entities, name) {
        Some(i) => i as usize,
        None => 0,
    }
}

/// The place that an optional name refers to.
pub open spec fn optional_place(entities: Seq<EntityView>, name: Option<Seq<char>>) -> Option<
    EntityId,
> {
    match name {
        Some(name) => Some(place(entities, name)),
        None => None,
    }
}

/// The names, in order, that an optional name holds.
pub open spec fn optional_reference(name: Option<Seq<char>>) -> Seq<Seq<char>> {
    match name {
        Some(name) => seq![name],
        None => Seq::empty(),
    }
}

impl DanglingAttributeView {
    /// The attribute with the name of its type replaced by the place of
    /// that type among `entities`.
    pub open spec fn linked(self, entities: Seq<EntityView>) -> AttributeView {
        AttributeView {
            name: self.name,
            entity: place(entities, self.entity),
            multiplicity: self.multiplicity,
        }
    }
}

impl DanglingParameterView {
    /// The parameter with the name of its type replaced by the place of that
    /// type among `entities`.
    pub open spec fn linked(self, entities: Seq<EntityView>) -> ParameterView {
        ParameterView { name: self.name, entity: place(entities, self.entity) }
    }
}

/// The names of the types of `parameters`, in order.
pub open spec fn parameter_references(parameters: Seq<DanglingParameterView>) -> Seq<Seq<char>> {
    Seq::new(parameters.len(), |i: int| parameters[i].entity)
}

/// The names of the types of `attributes`, in order.
pub open spec fn attribute_references(attributes: Seq<DanglingAttributeView>) -> Seq<Seq<char>> {
    Seq::new(attributes.len(), |i: int| attributes[i].entity)
}

/// The names that `operations` refer to, operation by operation.
pub open spec fn operation_references(operations: Seq<DanglingOperationView>) -> Seq<Seq<char>>
    decreases operations.len(),
{
    if operations.len() == 0 {
        Seq::empty()
    } else {
        operation_references(operations.drop_last()) + operations.last().references()
    }
}

impl DanglingOperationView {
    /// The names that the operation refers to, in the order in which they
    /// are resolved: the types of the parameters, then that of the result.
    pub open spec fn references(self) -> Seq<Seq<char>> {
        parameter_references(self.parameter) + optional_reference(self.returns)
    }

    /// The operation with every name of a type replaced by the place of that
    /// type among `entities`.
    pub open spec fn linked(self, entities: Seq<EntityView>) -> OperationView {
        OperationView {
            name: self.name,
            returns: optional_place(entities, self.returns),
            parameter: Seq::new(
                self.parameter.len(),
                |i: int| self.parameter[i].linked(entities),
            ),
        }
    }
}

impl DanglingStructureView {
    /// The names that the structure refers to, in the order in which they are
    /// resolved: the attributes, then the operations, each with its
    /// parameters and then its result, then the parent.
    pub open spec fn references(self) -> Seq<Seq<char>> {
        attribute_references(self.attributes) + operation_references(self.operations)
            + optional_reference(self.parent)
    }

    /// The structure with every name of a type replaced by the place of that
    /// type among `entities`.
    pub open spec fn linked(self, entities: Seq<EntityView>) -> StructureView {
        StructureView {
            name: self.name,
            parent: optional_place(entities, self.parent),
            attributes: Seq::new(
                self.attributes.len(),
                |i: int| self.attributes[i].linked(entities),
            ),
            operations: Seq::new(
                self.operations.len(),
                |i: int| self.operations[i].linked(entities),
            ),
        }
    }
}

/// In a list of names put together from two, the first unknown name is that
/// of the first list, or else that of the second.
pub proof fn lemma_first_unknown_add(
    a: Seq<Seq<char>>,
    b: Seq<Seq<char>>,
    entities: Seq<EntityView>,
)
    ensures
        first_unknown(a + b, entities) == match first_unknown(a, entities) {
            Some(name) => Some(name),
            None => first_unknown(b, entities),
        },
    decreases a.len(),
{
    if a.len() == 0 {
        assert(a + b =~= b);
    } else {
        assert((a + b)[0] == a[0]);
        assert((a + b).skip(1) =~= a.skip(1) + b);
        lemma_first_unknown_add(a.skip(1), b, entities);
    }
}

/// Where no name is unknown, every name has a place among the entities.
pub proof fn lemma_all_known(names: Seq<Seq<char>>, entities: Seq<EntityView>)
    requires
        first_unknown(names, entities) is None,
    ensures
        forall|i: int|
            0 <= i < names.len() ==> (#[trigger] place(entities, names[i])) < entities.len()
                && entity_position(entities, names[i]) is Some,
    decreases names.len(),
{
    if names.len() > 0 {
        lemma_entity_position(entities, names[0]);
        lemma_all_known(names.skip(1), entities);
        assert forall|i: int| 0 <= i < names.len() implies (#[trigger] place(entities, names[i]))
            < entities.len() && entity_position(entities, names[i]) is Some by {
            if i > 0 {
                assert(names.skip(1)[i - 1] == names[i]);
            }
        }
    }
}

/// The error for a name that refers to nothing.
pub open spec fn unknown_entity(name: Seq<char>) -> ParserErrorView {
    ParserErrorView::UnknownEntity(name)
}

/// Looks `identifier` up among the entities of `namespace`.
///
/// A name that no entity of the namespace has is an error, and nothing
/// else is.
pub fn resolve(identifier: &str, namespace: &Namespace) -> (found: ParserResult<EntityId>)
    ensures
        match found {
            Ok(entity) => entity_position(namespace@.entities, identifier@) == Some(entity as int)
                && entity == place(namespace@.entities, identifier@) && entity
                < namespace@.entities.len(),
            Err(error) => entity_position(namespace@.entities, identifier@) is None && error@
                == unknown_entity(identifier@),
        },
{
    proof {
        lemma_entity_position(namespace@.entities, identifier@);
    }
    if let Some(entity) = namespace.find_entity(String::from_str(identifier)) {
        Ok(entity)
    } else {
        Err(ParserError::UnknownEntity(String::from_str(identifier)))
    }
}

/// Turning names of types into the places of those types.
pub trait Undangle {
    type Undangled;

    /// The value with every name replaced by the place of the entity of that
    /// name in `namespace`, or the error for the first name that no entity
    /// has.
    fn undangle(&self, namespace: &Namespace) -> ParserResult<Self::Undangled>;
}

impl Undangle for DanglingParameter {
    type Undangled = Parameter;

    fn undangle(&self, namespace: &Namespace) -> (resolved: ParserResult<Parameter>)
        ensures
            match resolved {
                Ok(parameter) => entity_position(namespace@.entities, self@.entity) is Some
                    && parameter@ == self@.linked(namespace@.entities),
                Err(error) => entity_position(namespace@.entities, self@.entity) is None && error@
                    == unknown_entity(self@.entity),
            },
    {
        match resolve(self.entity.as_str(), namespace) {
            Ok(entity) => Ok(Parameter { name: self.name.clone(), entity }),
            Err(error) => Err(error),
        }
    }
}

impl Undangle for DanglingAttribute {
    type Undangled = Attribute;

    fn undangle(&self, namespace: &Namespace) -> (resolved: ParserResult<Attribute>)
        ensures
            match resolved {
                Ok(attribute) => entity_position(namespace@.entities, self@.entity) is Some
                    && attribute@ == self@.linked(namespace@.entities),
                Err(error) => entity_position(namespace@.entities, self@.entity) is None && error@
                    == unknown_entity(self@.entity),
            },
    {
        match resolve(self.entity.as_str(), namespace) {
            Ok(entity) => Ok(
                Attribute { name: self.name.clone(), entity, multiplicity: self.multiplicity },
            ),
            Err(error) => Err(error),
        }
    }
}

impl Undangle for DanglingOperation {
    type Undangled = Operation;

    fn undangle(&self, namespace: &Namespace) -> (resolved: ParserResult<Operation>)
        ensures
            match resolved {
                Ok(operation) => first_unknown(self@.references(), namespace@.entities) is None
                    && operation@ == self@.linked(namespace@.entities),
                Err(error) => first_unknown(self@.references(), namespace@.entities) matches Some(
                    name,
                ) && error@ == unknown_entity(name),
            },
    {
        let ghost entities = namespace@.entities;
        let ghost names = parameter_references(self@.parameter);
        let ghost result = optional_reference(self@.returns);
        let mut parameter: Vec<Parameter> = Vec::new();
        let mut i: usize = 0;
        proof {
            lemma_first_unknown_add(names, result, entities);
            assert(names.skip(0) =~= names);
        }
        while i < self.parameter.len()
            invariant
                i <= self.parameter.len(),
                entities == namespace@.entities,
                names == parameter_references(self@.parameter),
                first_unknown(names, entities) == first_unknown(names.skip(i as int), entities),
                parameter@.len() == i,
                forall|k: int|
                    0 <= k < i ==> (#[trigger] parameter@[k])@ == self@.parameter[k].linked(
                        entities,
                    ),
            decreases self.parameter.len() - i,
        {
            let ghost rest = names.skip(i as int);
            assert(rest[0] == self.parameter@[i as int]@.entity);
            assert(rest.skip(1) =~= names.skip(i + 1));
            proof {
                lemma_first_unknown_add(names, optional_reference(self@.returns), entities);
            }
            match self.parameter[i].undangle(namespace) {
                Ok(resolved) => {
                    parameter.push(resolved);
                },
                Err(error) => {
                    return Err(error);
                },
            }
            i = i + 1;
        }
        proof {
            lemma_first_unknown_add(names, result, entities);
            assert(names.skip(i as int) =~= Seq::<Seq<char>>::empty());
        }
        let result_type = match &self.returns {
            Some(name) => {
                assert(result =~= seq![name@]);
                assert(result.skip(1) =~= Seq::<Seq<char>>::empty());
                match resolve(name.as_str(), namespace) {
                    Ok(entity) => Some(entity),
                    Err(error) => {
                        return Err(error);
                    },
                }
            },
            None => None,
        };
        let operation = Operation { name: self.name.clone(), returns: result_type, parameter };
        assert(operation@.parameter =~= self@.linked(entities).parameter);
        Ok(operation)
    }
}

impl Undangle for DanglingStructure {
    type Undangled = Structure;

    /// Resolves the attributes, then the operations, each with its parameters
    /// and then its result, then the parent, and stops at the first name that
    /// no entity of `namespace` has.
    fn undangle(&self, namespace: &Namespace) -> (resolved: ParserResult<Structure>)
        ensures
            match resolved {
                Ok(structure) => first_unknown(self@.references(), namespace@.entities) is None
                    && structure@ == self@.linked(namespace@.entities),
                Err(error) => first_unknown(self@.references(), namespace@.entities) matches Some(
                    name,
                ) && error@ == unknown_entity(name),
            },
    {
        let ghost entities = namespace@.entities;
        let ghost first = attribute_references(self@.attributes);
        let ghost second = operation_references(self@.operations);
        let ghost third = optional_reference(self@.parent);
        proof {
            lemma_first_unknown_add(first + second, third, entities);
            lemma_first_unknown_add(first, second, entities);
            assert(first.skip(0) =~= first);
        }
        let mut attributes: Vec<Attribute> = Vec::new();
        let mut i: usize = 0;
        while i < self.attributes.len()
            invariant
                i <= self.attributes.len(),
                entities == namespace@.entities,
                first == attribute_references(self@.attributes),
                first_unknown(first, entities) == first_unknown(first.skip(i as int), entities),
                attributes@.len() == i,
                forall|k: int|
                    0 <= k < i ==> (#[trigger] attributes@[k])@ == self@.attributes[k].linked(
                        entities,
                    ),
            decreases self.attributes.len() - i,
        {
            let ghost rest = first.skip(i as int);
            assert(rest[0] == self.attributes@[i as int]@.entity);
            assert(rest.skip(1) =~= first.skip(i + 1));
            proof {
                lemma_first_unknown_add(
                    first + operation_references(self@.operations),
                    optional_reference(self@.parent),
                    entities,
                );
                lemma_first_unknown_add(first, operation_references(self@.operations), entities);
            }
            match self.attributes[i].undangle(namespace) {
                Ok(resolved) => {
                    attributes.push(resolved);
                },
                Err(error) => {
                    return Err(error);
                },
            }
            i = i + 1;
        }
        let mut operations: Vec<Operation> = Vec::new();
        let mut j: usize = 0;
        assert(self@.operations.take(0) =~= Seq::<DanglingOperationView>::empty());
        assert(first.skip(i as int) =~= Seq::<Seq<char>>::empty());
        while j < self.operations.len()
            invariant
                j <= self.operations.len(),
                entities == namespace@.entities,
                first == attribute_references(self@.attributes),
                first_unknown(first, entities) is None,
                attributes@.len() == self.attributes.len(),
                forall|k: int|
                    0 <= k < attributes@.len() ==> (#[trigger] attributes@[k])@
                        == self@.attributes[k].linked(entities),
                first_unknown(operation_references(self@.operations.take(j as int)), entities)
                    is None,
                operations@.len() == j,
                forall|k: int|
                    0 <= k < j ==> (#[trigger] operations@[k])@ == self@.operations[k].linked(
                        entities,
                    ),
            decreases self.operations.len() - j,
        {
            let ghost done = self@.operations.take(j as int);
            let ghost next = self@.operations.take(j + 1);
            proof {
                assert(next.drop_last() =~= done);
                assert(next.last() == self.operations@[j as int]@);
                lemma_first_unknown_add(
                    operation_references(done),
                    next.last().references(),
                    entities,
                );
            }
            match self.operations[j].undangle(namespace) {
                Ok(resolved) => {
                    operations.push(resolved);
                },
                Err(error) => {
                    proof {
                        lemma_unknown_stays(self@.operations, j + 1, entities);
                        lemma_first_unknown_add(
                            first + operation_references(self@.operations),
                            optional_reference(self@.parent),
                            entities,
                        );
                        lemma_first_unknown_add(
                            first,
                            operation_references(self@.operations),
                            entities,
                        );
                    }
                    return Err(error);
                },
            }
            j = j + 1;
        }
        assert(self@.operations.take(j as int) =~= self@.operations);
        proof {
            lemma_first_unknown_add(first + second, third, entities);
            lemma_first_unknown_add(first, second, entities);
        }
        let parent = match &self.parent {
            Some(name) => {
                assert(third =~= seq![name@]);
                assert(third.skip(1) =~= Seq::<Seq<char>>::empty());
                match resolve(name.as_str(), namespace) {
                    Ok(entity) => Some(entity),
                    Err(error) => {
                        return Err(error);
                    },
                }
            },
            None => None,
        };
        let structure = Structure { name: self.name.clone(), parent, attributes, operations };
        assert(structure@.attributes =~= self@.linked(entities).attributes);
        assert(structure@.operations =~= self@.linked(entities).operations);
        Ok(structure)
    }
}

/// A name that is unknown among the first operations is the first unknown
/// name of all of them.
proof fn lemma_unknown_stays(
    operations: Seq<DanglingOperationView>,
    n: int,
    entities: Seq<EntityView>,
)
    requires
        0 <= n <= operations.len(),
        first_unknown(operation_references(operations.take(n)), entities) is Some,
    ensures
        first_unknown(operation_references(operations), entities) == first_unknown(
            operation_references(operations.take(n)),
            entities,
        ),
    decreases operations.len() - n,
{
    if n < operations.len() {
        assert(operations.take(n + 1).drop_last() =~= operations.take(n));
        lemma_first_unknown_add(
            operation_references(operations.take(n)),
            operations.take(n + 1).last().references(),
            entities,
        );
        lemma_unknown_stays(operations, n + 1, entities);
    } else {
        assert(operations.take(n) =~= operations);
    }
}

/// The built-in types, in the order in which every namespace holds them
/// before its own entities.
pub open spec fn builtin_entities() -> Seq<EntityView> {
    seq![
        EntityView::Scalar(Scalar::String),
        EntityView::Scalar(Scalar::Boolean),
        EntityView::Scalar(Scalar::Character),
        EntityView::Scalar(Scalar::Double),
        EntityView::Scalar(Scalar::Integer),
    ]
}

/// A structure of which only the name is known yet. It takes the place of a
/// structure while that structure is resolved, so that the structure can
/// refer to itself.
pub open spec fn announced(name: Seq<char>) -> EntityView {
    EntityView::Structure(
        StructureView {
            name,
            parent: None,
            attributes: Seq::empty(),
            operations: Seq::empty(),
        },
    )
}

/// The entities that resolving the declarations `dangling` one after the
/// other adds to the entities `known`, or the first name that cannot be
/// resolved.
///
/// A structure is resolved among the entities before it and itself, so it
/// can refer to those and to no later one.
pub open spec fn resolved_entities(
    dangling: Seq<DanglingEntityView>,
    known: Seq<EntityView>,
) -> Result<Seq<EntityView>, Seq<char>>
    decreases dangling.len(),
{
    if dangling.len() == 0 {
        Ok(known)
    } else {
        match dangling[0] {
            DanglingEntityView::Enum(enumeration) => resolved_entities(
                dangling.skip(1),
                known.push(EntityView::Enum(enumeration)),
            ),
            DanglingEntityView::Structure(structure) => {
                let scope = known.push(announced(structure.name));
                match first_unknown(structure.references(), scope) {
                    Some(name) => Err(name),
                    None => resolved_entities(
                        dangling.skip(1),
                        known.push(EntityView::Structure(structure.linked(scope))),
                    ),
                }
            },
        }
    }
}

/// The namespace that `dangling` resolves to, or the first name in it that
/// cannot be resolved.
pub open spec fn resolved_namespace(dangling: DanglingNamespaceView) -> Result<
    NamespaceView,
    Seq<char>,
> {
    match resolved_entities(dangling.entities, builtin_entities()) {
        Ok(entities) => Ok(NamespaceView { identifier: dangling.identifier, entities }),
        Err(name) => Err(name),
    }
}

/// A structure in which no name is unknown refers, once resolved, only to
/// places that hold an entity.
pub proof fn lemma_linked_below(structure: DanglingStructureView, entities: Seq<EntityView>)
    requires
        first_unknown(structure.references(), entities) is None,
    ensures
        structure.linked(entities).linked_below(entities.len() as int),
{
    let first = attribute_references(structure.attributes);
    let second = operation_references(structure.operations);
    let third = optional_reference(structure.parent);
    lemma_first_unknown_add(first + second, third, entities);
    lemma_first_unknown_add(first, second, entities);
    lemma_all_known(first, entities);
    lemma_all_known(third, entities);
    let linked = structure.linked(entities);
    assert forall|i: int| 0 <= i < linked.attributes.len() implies (
    #[trigger] linked.attributes[i]).entity < entities.len() by {
        assert(first[i] == structure.attributes[i].entity);
        assert(place(entities, first[i]) < entities.len());
    }
    assert forall|i: int| 0 <= i < linked.operations.len() implies (
    #[trigger] linked.operations[i]).linked_below(entities.len() as int) by {
        lemma_operation_known(structure.operations, i, entities);
        let operation = structure.operations[i];
        let names = parameter_references(operation.parameter);
        let result = optional_reference(operation.returns);
        lemma_first_unknown_add(names, result, entities);
        lemma_all_known(names, entities);
        lemma_all_known(result, entities);
        assert forall|k: int| 0 <= k < linked.operations[i].parameter.len() implies (
        #[trigger] linked.operations[i].parameter[k]).entity < entities.len() by {
            assert(names[k] == operation.parameter[k].entity);
            assert(place(entities, names[k]) < entities.len());
        }
        if let Some(name) = operation.returns {
            assert(result[0] == name);
            assert(place(entities, result[0]) < entities.len());
        }
    }
    if let Some(name) = structure.parent {
        assert(third[0] == name);
        assert(place(entities, third[0]) < entities.len());
    }
}

/// Where no name of a list of operations is unknown, none of any one of
/// them is.
proof fn lemma_operation_known(
    operations: Seq<DanglingOperationView>,
    i: int,
    entities: Seq<EntityView>,
)
    requires
        0 <= i < operations.len(),
        first_unknown(operation_references(operations), entities) is None,
    ensures
        first_unknown(operations[i].references(), entities) is None,
    decreases operations.len(),
{
    lemma_first_unknown_add(
        operation_references(operations.drop_last()),
        operations.last().references(),
        entities,
    );
    if i < operations.len() - 1 {
        lemma_operation_known(operations.drop_last(), i, entities);
    }
}

fn builtin_namespace(identifier: String) -> (namespace: Namespace)
    ensures
        namespace@ == (NamespaceView { identifier: identifier@, entities: builtin_entities() }),
{
    let mut namespace = Namespace::new(identifier);
    namespace.add_entity(Entity::Scalar(Scalar::String));
    namespace.add_entity(Entity::Scalar(Scalar::Boolean));
    namespace.add_entity(Entity::Scalar(Scalar::Character));
    namespace.add_entity(Entity::Scalar(Scalar::Double));
    namespace.add_entity(Entity::Scalar(Scalar::Integer));
    assert(namespace@.entities =~= builtin_entities());
    namespace
}

fn clone_enum(enumeration: &Enum) -> (copy: Enum)
    ensures
        copy@ == enumeration@,
{
    let mut values: Vec<(String, Option<usize>)> = Vec::new();
    let mut i: usize = 0;
    while i < enumeration.values.len()
        invariant
            i <= enumeration.values.len(),
            values@.len() == i,
            forall|k: int|
                0 <= k < i ==> (#[trigger] values@[k]).0@ == enumeration.values@[k].0@
                    && values@[k].1 == enumeration.values@[k].1,
        decreases enumeration.values.len() - i,
    {
        let member = &enumeration.values[i];
        values.push((member.0.clone(), member.1));
        i = i + 1;
    }
    let copy = Enum { identifier: enumeration.identifier.clone(), values };
    assert(copy@.values =~= enumeration@.values);
    copy
}

impl DanglingNamespace {
    /// Resolves the declarations in the order in which they stand, after the
    /// built-in types.
    ///
    /// Each structure may refer to the built-in types, to the entities
    /// declared before it and to itself. A reference to an entity that is
    /// declared later is an error like any other unknown name: the
    /// declarations are resolved in one pass. The first name that cannot be
    /// resolved ends the resolution with the error for that name, and nothing
    /// of the structure that holds it is kept. In the namespace that comes
    /// out, every reference points to an entity of that namespace, declared
    /// no later than the structure that refers to it.
    pub fn resolve(&self) -> (resolved: ParserResult<Namespace>)
        ensures
            match resolved {
                Ok(namespace) => resolved_namespace(self@) == Ok::<NamespaceView, Seq<char>>(
                    namespace@,
                ) && namespace@.linked() && namespace@.in_declaration_order(),
                Err(error) => resolved_namespace(self@) matches Err(name) && error@
                    == unknown_entity(name),
            },
    {
        let mut namespace = builtin_namespace(self.identifier.clone());
        let ghost all = self@.entities;
        let mut i: usize = 0;
        assert(all.skip(0) =~= all);
        while i < self.entities.len()
            invariant
                i <= self.entities.len(),
                all == self@.entities,
                namespace@.identifier == self@.identifier,
                resolved_entities(all, builtin_entities()) == resolved_entities(
                    all.skip(i as int),
                    namespace@.entities,
                ),
                namespace@.in_declaration_order(),
            decreases self.entities.len() - i,
        {
            let ghost rest = all.skip(i as int);
            let ghost known = namespace@.entities;
            assert(rest[0] == self.entities@[i as int]@);
            assert(rest.skip(1) =~= all.skip(i + 1));
            match &self.entities[i] {
                DanglingEntity::Enum(enumeration) => {
                    namespace.add_entity(Entity::Enum(clone_enum(enumeration)));
                },
                DanglingEntity::Structure(structure) => {
                    let announcement = Structure {
                        name: structure.name.clone(),
                        parent: None,
                        attributes: Vec::new(),
                        operations: Vec::new(),
                    };
                    assert(announcement@.attributes =~= Seq::empty());
                    assert(announcement@.operations =~= Seq::empty());
                    namespace.add_entity(Entity::Structure(announcement));
                    let ghost scope = namespace@.entities;
                    assert(scope == known.push(announced(structure@.name)));
                    match structure.undangle(&namespace) {
                        Ok(linked) => {
                            proof {
                                lemma_linked_below(structure@, namespace@.entities);
                            }
                            namespace.entities.pop();
                            assert(namespace@.entities =~= scope.drop_last());
                            assert(scope.drop_last() =~= known);
                            namespace.add_entity(Entity::Structure(linked));
                        },
                        Err(error) => {
                            return Err(error);
                        },
                    }
                },
            }
            assert forall|k: int| 0 <= k < namespace@.entities.len() implies (
            #[trigger] namespace@.entities[k]).linked_below(k + 1) by {
                if k < known.len() {
                    assert(namespace@.entities[k] == known[k]);
                }
            }
            i = i + 1;
        }
        proof {
            lemma_order_links(namespace@);
        }
        Ok(namespace)
    }
}

/// In a namespace whose entities refer only to themselves and to entities
/// declared before them, every reference points to an entity of the
/// namespace.
pub proof fn lemma_order_links(namespace: NamespaceView)
    requires
        namespace.in_declaration_order(),
    ensures
        namespace.linked(),
{
    assert forall|i: int| 0 <= i < namespace.entities.len() implies (
    #[trigger] namespace.entities[i]).linked_below(namespace.entities.len() as int) by {
        lemma_below_more(namespace.entities[i], i + 1, namespace.entities.len() as int);
    }
}

} // verus!
