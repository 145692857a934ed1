//! The model: a namespace of entities that refer to one another by place.

use vstd::prelude::*;

verus! {

/// The name of a namespace or of an entity.
pub type Identifier = String;

/// The place of an entity in the list of entities of its namespace.
pub type EntityId = usize;

/// Everything that one source unit declares, under its dotted name.
///
/// Entities refer to one another by their place in `entities`, so an entity
/// may refer to itself and two entities to each other.
#[derive(Debug, PartialEq, Eq)]
pub struct Namespace {
    pub identifier: Identifier,
    pub entities: Vec<Entity>,
}

/// The built-in types.
#[derive(Debug, Clone, Copy, PartialEq, Eq, Structural)]
pub enum Scalar {
    String,
    Integer,
    Double,
    Boolean,
    Character,
}

/// An enumeration: its name and its members in order, each with the
/// number it was given, if any.
#[derive(Debug, PartialEq, Eq)]
pub struct Enum {
    pub identifier: Identifier,
    pub values: Vec<(String, Option<usize>)>,
}

/// A structure: its name, the entity it inherits from, if any, and its
/// attributes and operations in order.
#[derive(Debug, PartialEq, Eq)]
pub struct Structure {
    pub name: String,
    pub parent: Option<EntityId>,
    pub attributes: Vec<Attribute>,
    pub operations: Vec<Operation>,
}

/// A type of the model.
#[derive(Debug, PartialEq, Eq)]
pub enum Entity {
    Structure(Structure),
    Scalar(Scalar),
    Enum(Enum),
}

/// How many values an attribute holds.
#[derive(Debug, Clone, Copy, PartialEq, Eq, Structural)]
pub enum Multiplicity {
    /// Exactly that many.
    Concrete(Number),
    /// Between the first and the second.
    UnderUpper(Number, Number),
    /// Exactly one.
    Single,
    /// One or none.
    Optional,
}

/// A bound of a multiplicity.
#[derive(Debug, Clone, Copy, PartialEq, Eq, Structural)]
pub enum Number {
    Discrete(usize),
    Infinity,
    NegativeInfinity,
}

/// A named value of a structure.
#[derive(Debug, PartialEq, Eq)]
pub struct Attribute {
    pub name: String,
    pub entity: EntityId,
    pub multiplicity: Multiplicity,
}

/// A named argument of an operation.
#[derive(Debug, PartialEq, Eq)]
pub struct Parameter {
    pub name: String,
    pub entity: EntityId,
}

/// An operation of a structure; without `returns` it gives nothing back.
#[derive(Debug, PartialEq, Eq)]
pub struct Operation {
    pub name: String,
    pub returns: Option<EntityId>,
    pub parameter: Vec<Parameter>,
}

/// What a [`Enum`] stands for.
pub ghost struct EnumView {
    pub identifier: Seq<char>,
    pub values: Seq<(Seq<char>, Option<usize>)>,
}

/// What a [`Attribute`] stands for.
pub ghost struct AttributeView {
    pub name: Seq<char>,
    pub entity: EntityId,
    pub multiplicity: Multiplicity,
}

/// What a [`Parameter`] stands for.
pub ghost struct ParameterView {
    pub name: Seq<char>,
    pub entity: EntityId,
}

/// What a [`Operation`] stands for.
pub ghost struct OperationView {
    pub name: Seq<char>,
    pub returns: Option<EntityId>,
    pub parameter: Seq<ParameterView>,
}

/// What a [`Structure`] stands for.
pub ghost struct StructureView {
    pub name: Seq<char>,
    pub parent: Option<EntityId>,
    pub attributes: Seq<AttributeView>,
    pub operations: Seq<OperationView>,
}

/// What a [`Entity`] stands for.
pub ghost enum EntityView {
    Structure(StructureView),
    Scalar(Scalar),
    Enum(EnumView),
}

/// What a [`Namespace`] stands for.
pub ghost struct NamespaceView {
    pub identifier: Seq<char>,
    pub entities: Seq<EntityView>,
}

/// The members that a list of members stands for.
pub open spec fn member_views(values: Seq<(String, Option<usize>)>) -> Seq<
    (Seq<char>, Option<usize>),
> {
    Seq::new(values.len(), |i: int| (values[i].0@, values[i].1))
}

/// What a list of attributes stands for.
pub open spec fn attribute_views(attributes: Seq<Attribute>) -> Seq<AttributeView> {
    Seq::new(attributes.len(), |i: int| attributes[i]@)
}

/// What a list of parameters stands for.
pub open spec fn parameter_views(parameters: Seq<Parameter>) -> Seq<ParameterView> {
    Seq::new(parameters.len(), |i: int| parameters[i]@)
}

/// What a list of operations stands for.
pub open spec fn operation_views(operations: Seq<Operation>) -> Seq<OperationView> {
    Seq::new(operations.len(), |i: int| operations[i]@)
}

/// What a list of entities stands for.
pub open spec fn entity_views(entities: Seq<Entity>) -> Seq<EntityView> {
    Seq::new(entities.len(), |i: int| entities[i]@)
}

impl View for Enum {
    type V = EnumView;

    open spec fn view(&self) -> EnumView {
        EnumView { identifier: self.identifier@, values: member_views(self.values@) }
    }
}

impl View for Attribute {
    type V = AttributeView;

    open spec fn view(&self) -> AttributeView {
        AttributeView { name: self.name@, entity: self.entity, multiplicity: self.multiplicity }
    }
}

impl View for Parameter {
    type V = ParameterView;

    open spec fn view(&self) -> ParameterView {
        ParameterView { name: self.name@, entity: self.entity }
    }
}

impl View for Operation {
    type V = OperationView;

    open spec fn view(&self) -> OperationView {
        OperationView {
            name: self.name@,
            returns: self.returns,
            parameter: parameter_views(self.parameter@),
        }
    }
}

impl View for Structure {
    type V = StructureView;

    open spec fn view(&self) -> StructureView {
        StructureView {
            name: self.name@,
            parent: self.parent,
            attributes: attribute_views(self.attributes@),
            operations: operation_views(self.operations@),
        }
    }
}

impl View for Entity {
    type V = EntityView;

    open spec fn view(&self) -> EntityView {
        match self {
            Entity::Structure(s) => EntityView::Structure(s@),
            Entity::Scalar(s) => EntityView::Scalar(*s),
            Entity::Enum(e) => EntityView::Enum(e@),
        }
    }
}

impl View for Namespace {
    type V = NamespaceView;

    open spec fn view(&self) -> NamespaceView {
        NamespaceView { identifier: self.identifier@, entities: entity_views(self.entities@) }
    }
}

/// The name of a built-in type.
pub open spec fn scalar_name(scalar: Scalar) -> Seq<char> {
    match scalar {
        Scalar::String => "String"@,
        Scalar::Integer => "Integer"@,
        Scalar::Double => "Double"@,
        Scalar::Boolean => "Boolean"@,
        Scalar::Character => "Character"@,
    }
}

impl EntityView {
    /// The name under which the entity is found.
    pub open spec fn name(self) -> Seq<char> {
        match self {
            EntityView::Structure(s) => s.name,
            EntityView::Scalar(s) => scalar_name(s),
            EntityView::Enum(e) => e.identifier,
        }
    }

    /// Whether every entity that this one refers to has a place below `bound`.
    pub open spec fn linked_below(self, bound: int) -> bool {
        match self {
            EntityView::Structure(s) => s.linked_below(bound),
            _ => true,
        }
    }
}

impl OperationView {
    /// Whether the entities of the parameters and of the result have a place
    /// below `bound`.
    pub open spec fn linked_below(self, bound: int) -> bool {
        &&& forall|i: int| 0 <= i < self.parameter.len() ==> (#[trigger] self.parameter[i]).entity < bound
        &&& self.returns matches Some(entity) ==> entity < bound
    }
}

impl StructureView {
    /// Whether every entity that the structure refers to (by an attribute, by
    /// a parameter or the result of an operation, or as its parent) has a
    /// place below `bound`.
    pub open spec fn linked_below(self, bound: int) -> bool {
        &&& forall|i: int|
            0 <= i < self.attributes.len() ==> (#[trigger] self.attributes[i]).entity < bound
        &&& forall|i: int|
            0 <= i < self.operations.len() ==> (#[trigger] self.operations[i]).linked_below(bound)
        &&& self.parent matches Some(entity) ==> entity < bound
    }
}

/// The place of the first of `entities` that is called `identifier`.
pub open spec fn entity_position(entities: Seq<EntityView>, identifier: Seq<char>) -> Option<int>
    decreases entities.len(),
{
    if entities.len() == 0 {
        None
    } else if entities.last().name() == identifier && entity_position(
        entities.drop_last(),
        identifier,
    ) is None {
        Some(entities.len() - 1)
    } else {
        entity_position(entities.drop_last(), identifier)
    }
}

/// The place found holds an entity of that name, no entity before it has the
/// name, and no place is found only where no entity has the name.
pub proof fn lemma_entity_position(entities: Seq<EntityView>, identifier: Seq<char>)
    ensures
        match entity_position(entities, identifier) {
            Some(i) => 0 <= i < entities.len() && entities[i].name() == identifier && forall|j: int|
                0 <= j < i ==> (#[trigger] entities[j]).name() != identifier,
            None => forall|j: int|
                0 <= j < entities.len() ==> (#[trigger] entities[j]).name() != identifier,
        },
    decreases entities.len(),
{
    if entities.len() > 0 {
        let init = entities.drop_last();
        lemma_entity_position(init, identifier);
        assert forall|j: int| 0 <= j < init.len() implies init[j] == entities[j] by {}
        match entity_position(init, identifier) {
            Some(i) => {
                assert(entities[i] == init[i]);
                assert forall|j: int| 0 <= j < i implies (#[trigger] entities[j]).name()
                    != identifier by {
                    assert(init[j] == entities[j]);
                }
            },
            None => {
                assert forall|j: int| 0 <= j < entities.len() - 1 implies (
                #[trigger] entities[j]).name() != identifier by {
                    assert(init[j] == entities[j]);
                }
            },
        }
    }
}

impl NamespaceView {
    /// Whether every reference of every entity points to an entity of this
    /// namespace.
    pub open spec fn linked(self) -> bool {
        forall|i: int|
            0 <= i < self.entities.len() ==> (#[trigger] self.entities[i]).linked_below(
                self.entities.len() as int,
            )
    }

    /// Whether every entity refers only to itself and to entities declared
    /// before it.
    pub open spec fn in_declaration_order(self) -> bool {
        forall|i: int|
            0 <= i < self.entities.len() ==> (#[trigger] self.entities[i]).linked_below(i + 1)
    }

    /// Whether no two entities have the same name.
    pub open spec fn unique_names(self) -> bool {
        forall|i: int, j: int|
            0 <= i < j < self.entities.len() ==> (#[trigger] self.entities[i]).name() != (
            #[trigger] self.entities[j]).name()
    }
}

/// Something that is found by its name.
pub trait Identifying {
    /// The name.
    spec fn identifier_spec(&self) -> Seq<char>;

    /// The name.
    fn identifier(&self) -> (identifier: Identifier)
        ensures
            identifier@ == self.identifier_spec(),
    ;
}

impl Identifying for Scalar {
    open spec fn identifier_spec(&self) -> Seq<char> {
        scalar_name(*self)
    }

    fn identifier(&self) -> (identifier: Identifier) {
        match self {
            Scalar::String => String::from_str("String"),
            Scalar::Integer => String::from_str("Integer"),
            Scalar::Double => String::from_str("Double"),
            Scalar::Boolean => String::from_str("Boolean"),
            Scalar::Character => String::from_str("Character"),
        }
    }
}

impl Identifying for Enum {
    open spec fn identifier_spec(&self) -> Seq<char> {
        self.identifier@
    }

    fn identifier(&self) -> (identifier: Identifier) {
        self.identifier.clone()
    }
}

impl Identifying for Structure {
    open spec fn identifier_spec(&self) -> Seq<char> {
        self.name@
    }

    fn identifier(&self) -> (identifier: Identifier) {
        self.name.clone()
    }
}

impl Identifying for Entity {
    open spec fn identifier_spec(&self) -> Seq<char> {
        self@.name()
    }

    fn identifier(&self) -> (identifier: Identifier) {
        match self {
            Entity::Structure(s) => s.identifier(),
            Entity::Scalar(s) => s.identifier(),
            Entity::Enum(e) => e.identifier(),
        }
    }
}

impl Namespace {
    /// The place of the first entity that is called `identifier`.
    ///
    /// The entities are searched in the order in which they were added. A
    /// namespace holds few entities, so no index by name is kept beside the
    /// list.
    pub fn find_entity(&self, identifier: Identifier) -> (found: Option<EntityId>)
        ensures
            match found {
                Some(place) => entity_position(self@.entities, identifier@) == Some(place as int),
                None => entity_position(self@.entities, identifier@) is None,
            },
    {
        let ghost all = self@.entities;
        let mut i: usize = 0;
        assert(all.take(0) =~= Seq::<EntityView>::empty());
        while i < self.entities.len()
            invariant
                i <= self.entities.len(),
                all == self@.entities,
                entity_position(all.take(i as int), identifier@) is None,
            decreases self.entities.len() - i,
        {
            assert(all.take(i + 1).drop_last() =~= all.take(i as int));
            assert(all.take(i + 1).last() == self.entities@[i as int]@);
            if self.entities[i].identifier() == identifier {
                proof {
                    lemma_position_stays(all, identifier@, i + 1);
                }
                return Some(i);
            }
            i = i + 1;
        }
        assert(all.take(i as int) =~= all);
        None
    }

    /// A namespace that holds no entities yet.
    pub fn new(identifier: Identifier) -> (namespace: Namespace)
        ensures
            namespace@ == (NamespaceView { identifier: identifier@, entities: Seq::empty() }),
            namespace@.linked(),
            namespace@.unique_names(),
    {
        let namespace = Namespace { identifier, entities: Vec::new() };
        assert(namespace@.entities =~= Seq::empty());
        namespace
    }

    /// Gives `entity` the next place in the namespace.
    ///
    /// The references of the namespace stay within it where they were and
    /// the entity refers to itself and to entities of the namespace only, and
    /// the names stay apart where they were and no entity has the name of the
    /// new one.
    pub fn add_entity(&mut self, entity: Entity)
        ensures
            final(self)@ == (NamespaceView {
                entities: old(self)@.entities.push(entity@),
                ..old(self)@
            }),
            old(self)@.linked() && entity@.linked_below(old(self)@.entities.len() as int + 1)
                ==> final(self)@.linked(),
            old(self)@.unique_names() && entity_position(old(self)@.entities, entity@.name())
                is None ==> final(self)@.unique_names(),
    {
        self.entities.push(entity);
        assert(self@.entities =~= old(self)@.entities.push(entity@));
        proof {
            let before = old(self)@.entities;
            let after = self@.entities;
            lemma_entity_position(before, entity@.name());
            if old(self)@.linked() && entity@.linked_below(before.len() as int + 1) {
                assert forall|i: int| 0 <= i < after.len() implies (#[trigger] after[i]).linked_below(
                    after.len() as int,
                ) by {
                    if i < before.len() {
                        assert(after[i] == before[i]);
                        lemma_below_more(before[i], before.len() as int, after.len() as int);
                    }
                }
            }
            if old(self)@.unique_names() && entity_position(before, entity@.name()) is None {
                assert forall|i: int, j: int| 0 <= i < j < after.len() implies (
                #[trigger] after[i]).name() != (#[trigger] after[j]).name() by {
                    assert(after[i] == before[i]);
                    if j < before.len() {
                        assert(after[j] == before[j]);
                    }
                }
            }
        }
    }
}

/// What refers only to places below a bound refers only to places below any
/// greater bound.
pub proof fn lemma_below_more(entity: EntityView, bound: int, more: int)
    requires
        entity.linked_below(bound),
        bound <= more,
    ensures
        entity.linked_below(more),
{
    if let EntityView::Structure(s) = entity {
        assert forall|i: int| 0 <= i < s.operations.len() implies (
        #[trigger] s.operations[i]).linked_below(more) by {
            assert(s.operations[i].linked_below(bound));
        }
    }
}

/// A place that is found among the first entities is found among all.
pub proof fn lemma_position_stays(entities: Seq<EntityView>, identifier: Seq<char>, n: int)
    requires
        0 <= n <= entities.len(),
        entity_position(entities.take(n), identifier) is Some,
    ensures
        entity_position(entities, identifier) == entity_position(entities.take(n), identifier),
    decreases entities.len() - n,
{
    if n < entities.len() {
        assert(entities.take(n + 1).drop_last() =~= entities.take(n));
        lemma_position_stays(entities, identifier, n + 1);
    } else {
        assert(entities.take(n) =~= entities);
    }
}

impl Multiplicity {
    /// Whether a value may be missing: for `Optional`, for exactly zero, and
    /// for a range that starts at zero.
    pub open spec fn nullable(self) -> bool {
        match self {
            Multiplicity::Optional => true,
            Multiplicity::Concrete(Number::Discrete(n)) => n == 0,
            Multiplicity::UnderUpper(Number::Discrete(under), _) => under == 0,
            _ => false,
        }
    }

    /// Whether the values form a collection: for a range only.
    pub open spec fn list(self) -> bool {
        self is UnderUpper
    }

    /// Whether a value may be missing.
    pub fn is_nullable(&self) -> (nullable: bool)
        ensures
            nullable == self.nullable(),
    {
        match self {
            Multiplicity::Optional => true,
            Multiplicity::Concrete(Number::Discrete(n)) => *n == 0,
            Multiplicity::UnderUpper(Number::Discrete(under), _) => *under == 0,
            _ => false,
        }
    }

    /// Whether the values form a collection.
    pub fn is_list(&self) -> (list: bool)
        ensures
            list == self.list(),
    {
        match self {
            Multiplicity::UnderUpper(_, _) => true,
            _ => false,
        }
    }
}

} // verus!
