//! The target that writes TypeScript declarations.

use crate::ast::{
    AttributeView, Entity, EntityView, Identifying, Namespace, NamespaceView, Operation,
    OperationView, ParameterView, Scalar, Structure, StructureView,
};
use crate::buffer::{entry_lines, line_start, push_entries, Buffer};
use crate::code::{
    fragment_views, CodeFragment, CodeFragmentView, CodePage, CodePageView, GeneratedCode,
    GeneratedCodeView,
};
use crate::error::{PakError, PakErrorView, PakResult};
use crate::filestructure::{tree_views, FileStructure, FileStructureView};
use crate::generator::{Transform, Within};
use crate::parser::{model_of, parse_model};
use crate::target::Target;
use crate::text::{join, joined, string_views};
use crate::Generate;
use vstd::prelude::*;

verus! {

/// The target that writes TypeScript declarations.
#[derive(Debug, Default)]
pub struct TypeScriptTarget {}

/// The declarations of a model, in the order in which they are written.
#[derive(Debug, PartialEq, Eq)]
pub struct Declaration {
    pub typed: Vec<Typed>,
}

/// What an entity becomes.
#[derive(Debug, PartialEq, Eq)]
pub enum Typed {
    Class(Class),
    Interface(Interface),
    /// A built-in type, under the name that TypeScript has for it.
    Scalar(String),
    /// Several declarations for one entity.
    Vec(Vec<Typed>),
    Nothing,
}

/// An interface.
#[derive(Debug, PartialEq, Eq)]
pub struct Interface {
    pub name: String,
    pub extends: Option<Vec<String>>,
    pub attributes: Vec<String>,
    pub operations: Vec<String>,
}

/// A class.
#[derive(Debug, PartialEq, Eq)]
pub struct Class {
    pub name: String,
    pub extends: Option<String>,
    pub implements: Option<Vec<String>>,
    pub attributes: Vec<String>,
    pub operations: Vec<String>,
}

/// What a [`Interface`] stands for.
pub ghost struct InterfaceView {
    pub name: Seq<char>,
    pub extends: Option<Seq<Seq<char>>>,
    pub attributes: Seq<Seq<char>>,
    pub operations: Seq<Seq<char>>,
}

/// What a [`Class`] stands for.
pub ghost struct ClassView {
    pub name: Seq<char>,
    pub extends: Option<Seq<char>>,
    pub implements: Option<Seq<Seq<char>>>,
    pub attributes: Seq<Seq<char>>,
    pub operations: Seq<Seq<char>>,
}

/// What a [`Typed`] stands for.
pub ghost enum TypedView {
    Class(ClassView),
    Interface(InterfaceView),
    Scalar(Seq<char>),
    Vec(Seq<TypedView>),
    Nothing,
}

/// What an optional list of strings stands for.
pub open spec fn optional_views(names: Option<Vec<String>>) -> Option<Seq<Seq<char>>> {
    match names {
        Some(names) => Some(string_views(names@)),
        None => None,
    }
}

impl View for Interface {
    type V = InterfaceView;

    open spec fn view(&self) -> InterfaceView {
        InterfaceView {
            name: self.name@,
            extends: optional_views(self.extends),
            attributes: string_views(self.attributes@),
            operations: string_views(self.operations@),
        }
    }
}

impl View for Class {
    type V = ClassView;

    open spec fn view(&self) -> ClassView {
        ClassView {
            name: self.name@,
            extends: match self.extends {
                Some(name) => Some(name@),
                None => None,
            },
            implements: optional_views(self.implements),
            attributes: string_views(self.attributes@),
            operations: string_views(self.operations@),
        }
    }
}

/// What a list of values stands for.
pub open spec fn typed_views(typed: Seq<Typed>) -> Seq<TypedView>
    decreases typed,
{
    Seq::new(
        typed.len(),
        |i: int|
            if 0 <= i < typed.len() {
                typed[i]@
            } else {
                TypedView::Nothing
            },
    )
}

impl View for Typed {
    type V = TypedView;

    open spec fn view(&self) -> TypedView
        decreases self,
    {
        match self {
            Typed::Class(class) => TypedView::Class(class@),
            Typed::Interface(interface) => TypedView::Interface(interface@),
            Typed::Scalar(name) => TypedView::Scalar(name@),
            Typed::Vec(typed) => TypedView::Vec(typed_views(typed@)),
            Typed::Nothing => TypedView::Nothing,
        }
    }
}

impl View for Declaration {
    type V = Seq<TypedView>;

    open spec fn view(&self) -> Seq<TypedView> {
        typed_views(self.typed@)
    }
}

impl TypedView {
    /// Whether the value has a name: a class, an interface and a built-in
    /// type have one, and several declarations have that of the first, if
    /// that has one.
    pub open spec fn named(self) -> bool
        decreases self,
    {
        match self {
            TypedView::Class(_) => true,
            TypedView::Interface(_) => true,
            TypedView::Scalar(_) => true,
            TypedView::Vec(typed) => typed.len() > 0 && typed[0].named(),
            TypedView::Nothing => false,
        }
    }

    /// The name of a value that has one.
    pub open spec fn identifier(self) -> Seq<char>
        decreases self,
    {
        match self {
            TypedView::Class(class) => class.name,
            TypedView::Interface(interface) => interface.name,
            TypedView::Scalar(name) => name,
            TypedView::Vec(typed) => if typed.len() > 0 {
                typed[0].identifier()
            } else {
                Seq::empty()
            },
            TypedView::Nothing => Seq::empty(),
        }
    }
}

impl Typed {
    /// The name of the value.
    pub fn identifier(&self) -> (name: String)
        requires
            self@.named(),
        ensures
            name@ == self@.identifier(),
        decreases self,
    {
        match self {
            Typed::Class(class) => class.name.clone(),
            Typed::Scalar(scalar) => scalar.clone(),
            Typed::Interface(interface) => interface.name.clone(),
            Typed::Vec(typed) => {
                assert(typed_views(typed@)[0] == typed@[0]@);
                assert(decreases_to!(*self => self->Vec_0));
                assert(decreases_to!(*typed => typed[0]));
                typed[0].identifier()
            },
            Typed::Nothing => String::new(),
        }
    }

    /// Whether the value stands for a type by itself: a class and a built-in
    /// type do.
    pub fn is_some(&self) -> (some: bool)
        ensures
            some == (self@ is Class || self@ is Scalar),
    {
        match self {
            Typed::Class(_) => true,
            Typed::Scalar(_) => true,
            _ => false,
        }
    }
}

/// The name that TypeScript has for a built-in type.
pub open spec fn scalar_type(scalar: Scalar) -> Seq<char> {
    match scalar {
        Scalar::String => "string"@,
        Scalar::Double => "number"@,
        Scalar::Integer => "number"@,
        Scalar::Character => "char"@,
        Scalar::Boolean => "bool"@,
    }
}

/// The name under which an entity is referred to as the type of a
/// parameter: a built-in type by the name that TypeScript has for it,
/// anything else by its own.
pub open spec fn referred_name(entity: EntityView) -> Seq<char> {
    match entity {
        EntityView::Scalar(scalar) => scalar_type(scalar),
        _ => entity.name(),
    }
}

/// A parameter as it is written.
pub open spec fn parameter_text(namespace: NamespaceView, parameter: ParameterView) -> Seq<char> {
    parameter.name + ": "@ + referred_name(namespace.entities[parameter.entity as int])
}

/// The parameters of an operation as they are written, with a comma
/// between each two.
pub open spec fn parameters_text(namespace: NamespaceView, operation: OperationView) -> Seq<char> {
    joined(
        Seq::new(
            operation.parameter.len(),
            |i: int| parameter_text(namespace, operation.parameter[i]),
        ),
        ","@,
    )
}

/// An attribute as it is written in an interface: its name and the name
/// of its entity.
pub open spec fn attribute_text(namespace: NamespaceView, attribute: AttributeView) -> Seq<char> {
    attribute.name + ": "@ + namespace.entities[attribute.entity as int].name()
}

/// An operation as it is written in an interface.
pub open spec fn signature_text(namespace: NamespaceView, operation: OperationView) -> Seq<char> {
    operation.name + "("@ + parameters_text(namespace, operation) + ");"@
}

/// What is written for the result of an operation of a class: the type where
/// it is a built-in one, and nothing otherwise.
pub open spec fn result_text(namespace: NamespaceView, operation: OperationView) -> Seq<char> {
    match operation.returns {
        Some(entity) => match namespace.entities[entity as int] {
            EntityView::Scalar(scalar) => ": "@ + scalar_type(scalar),
            _ => Seq::empty(),
        },
        None => Seq::empty(),
    }
}

/// The body of an operation of a class: a reminder, and a result where the
/// operation has one.
pub open spec fn body_text(operation: OperationView) -> Seq<char> {
    line_start(1) + "// TODO implement"@ + if operation.returns is Some {
        line_start(1) + "return undefined;"@
    } else {
        Seq::empty()
    }
}

/// An operation as it is written in a class.
pub open spec fn method_text(namespace: NamespaceView, operation: OperationView) -> Seq<char> {
    "public "@ + operation.name + "("@ + parameters_text(namespace, operation) + ")"@
        + result_text(namespace, operation) + " {"@ + body_text(operation) + line_start(0) + "}"@
        + line_start(0)
}

/// The name of the interface of a structure.
pub open spec fn interface_name(name: Seq<char>) -> Seq<char> {
    "I"@ + name
}

/// The interface that a structure becomes.
pub open spec fn interface_of(namespace: NamespaceView, structure: StructureView) -> InterfaceView {
    InterfaceView {
        name: interface_name(structure.name),
        extends: None,
        attributes: Seq::new(
            structure.attributes.len(),
            |i: int| attribute_text(namespace, structure.attributes[i]),
        ),
        operations: Seq::new(
            structure.operations.len(),
            |i: int| signature_text(namespace, structure.operations[i]),
        ),
    }
}

/// The class that a structure becomes: it extends the class of the parent
/// and implements the interface of the structure.
pub open spec fn class_of(namespace: NamespaceView, structure: StructureView) -> ClassView {
    ClassView {
        name: structure.name,
        extends: match structure.parent {
            Some(parent) => Some(namespace.entities[parent as int].name()),
            None => None,
        },
        implements: Some(seq![interface_name(structure.name)]),
        attributes: Seq::new(
            structure.attributes.len(),
            |i: int| "public "@ + attribute_text(namespace, structure.attributes[i]),
        ),
        operations: Seq::new(
            structure.operations.len(),
            |i: int| method_text(namespace, structure.operations[i]),
        ),
    }
}

/// What an entity becomes: a structure a class and an interface, a built-in
/// type its name in TypeScript, an enumeration nothing.
pub open spec fn typed_of(namespace: NamespaceView, entity: EntityView) -> TypedView {
    match entity {
        EntityView::Structure(structure) => TypedView::Vec(
            seq![
                TypedView::Class(class_of(namespace, structure)),
                TypedView::Interface(interface_of(namespace, structure)),
            ],
        ),
        EntityView::Scalar(scalar) => TypedView::Scalar(scalar_type(scalar)),
        EntityView::Enum(_) => TypedView::Nothing,
    }
}

/// What `entities` become, one after the other; what stands for several
/// declarations is taken apart.
pub open spec fn declarations_of(namespace: NamespaceView, entities: Seq<EntityView>) -> Seq<
    TypedView,
>
    decreases entities.len(),
{
    if entities.len() == 0 {
        Seq::empty()
    } else {
        declarations_of(namespace, entities.drop_last()) + match typed_of(
            namespace,
            entities.last(),
        ) {
            TypedView::Vec(typed) => typed,
            other => seq![other],
        }
    }
}

/// The words that precede a list of names, and the names with a comma
/// and a blank between each two; nothing where there is no list.
pub open spec fn clause(word: Seq<char>, names: Option<Seq<Seq<char>>>) -> Seq<char> {
    match names {
        Some(names) => word + joined(names, ", "@),
        None => Seq::empty(),
    }
}

/// The code of a class.
pub open spec fn class_code(class: ClassView) -> GeneratedCodeView {
    GeneratedCodeView {
        code: "export class "@ + class.name + match class.extends {
            Some(parent) => " extends "@ + parent,
            None => Seq::empty(),
        } + clause(" implements "@, class.implements) + " {"@ + entry_lines(
            class.attributes,
            ";"@,
        ) + entry_lines(class.operations, Seq::empty()) + line_start(0) + "}"@,
        id: class.name,
    }
}

/// The code of an interface.
pub open spec fn interface_code(interface: InterfaceView) -> GeneratedCodeView {
    GeneratedCodeView {
        code: "export interface "@ + interface.name + clause(" extends "@, interface.extends)
            + " {"@ + entry_lines(interface.attributes, ";"@) + entry_lines(
            interface.operations,
            Seq::empty(),
        ) + line_start(0) + "}"@,
        id: interface.name,
    }
}

/// The fragments for `typed`: the code of each class and each interface,
/// in order.
pub open spec fn declaration_fragments(typed: Seq<TypedView>) -> Seq<CodeFragmentView>
    decreases typed.len(),
{
    if typed.len() == 0 {
        Seq::empty()
    } else {
        match typed.last() {
            TypedView::Class(class) => declaration_fragments(typed.drop_last()).push(
                CodeFragmentView::Generated(class_code(class)),
            ),
            TypedView::Interface(interface) => declaration_fragments(typed.drop_last()).push(
                CodeFragmentView::Generated(interface_code(interface)),
            ),
            _ => declaration_fragments(typed.drop_last()),
        }
    }
}

/// The page of the declarations.
pub open spec fn declaration_page(typed: Seq<TypedView>) -> CodePageView {
    CodePageView { fragments: declaration_fragments(typed), comment_string: "//"@ }
}

/// The files of the target: one file of declarations in a directory.
pub open spec fn declaration_tree(page: CodePageView) -> FileStructureView {
    FileStructureView::Dir("typescript"@, seq![FileStructureView::File("global.d.ts"@, page)])
}

fn push_clause(buffer: &mut Buffer, word: &str, names: &Option<Vec<String>>)
    requires
        old(buffer)@.indents == 0,
    ensures
        final(buffer)@.indents == 0,
        final(buffer)@.text == old(buffer)@.text + clause(word@, optional_views(*names)),
{
    if let Some(names) = names {
        buffer.push(word);
        buffer.push(join(names, ", ").as_str());
        assert(buffer@.text =~= old(buffer)@.text + clause(word@, Some(string_views(names@))));
    } else {
        assert(buffer@.text =~= old(buffer)@.text + Seq::<char>::empty());
    }
}

fn push_body(buffer: &mut Buffer, attributes: &Vec<String>, operations: &Vec<String>)
    requires
        old(buffer)@.indents == 0,
    ensures
        final(buffer)@.indents == 0,
        final(buffer)@.text == old(buffer)@.text + " {"@ + entry_lines(
            string_views(attributes@),
            ";"@,
        ) + entry_lines(string_views(operations@), Seq::empty()) + line_start(0) + "}"@,
{
    proof {
        reveal_strlit(";");
        reveal_strlit("");
    }
    buffer.push(" {");
    buffer.indent();
    push_entries(buffer, attributes, ";");
    push_entries(buffer, operations, "");
    buffer.unindent();
    buffer.new_line();
    buffer.push("}");
    assert(""@ =~= Seq::<char>::empty());
    assert(buffer@.text =~= old(buffer)@.text + " {"@ + entry_lines(
        string_views(attributes@),
        ";"@,
    ) + entry_lines(string_views(operations@), Seq::empty()) + line_start(0) + "}"@);
}

impl Generate for Class {
    open spec fn generated(&self) -> GeneratedCodeView {
        class_code(self@)
    }

    /// The class as it is written: its name, what it extends and implements,
    /// and between braces a line for each attribute and the operations.
    fn generate(&self) -> (code: GeneratedCode) {
        let mut buf = Buffer::default();
        buf.push("export class ");
        buf.push(self.name.as_str());
        if let Some(extends) = &self.extends {
            buf.push(" extends ");
            buf.push(extends.as_str());
        }
        let ghost head = buf@.text;
        assert(head =~= "export class "@ + self@.name + match self@.extends {
            Some(parent) => " extends "@ + parent,
            None => Seq::empty(),
        });
        push_clause(&mut buf, " implements ", &self.implements);
        let ghost clauses = buf@.text;
        assert(clauses == head + clause(" implements "@, self@.implements));
        push_body(&mut buf, &self.attributes, &self.operations);
        assert(buf@.text == clauses + " {"@ + entry_lines(self@.attributes, ";"@) + entry_lines(
            self@.operations,
            Seq::empty(),
        ) + line_start(0) + "}"@);
        assert(buf@.text == class_code(self@).code);
        let code = GeneratedCode { id: self.name.clone(), code: buf.flush() };
        assert(code@ == class_code(self@));
        code
    }
}

impl Generate for Interface {
    open spec fn generated(&self) -> GeneratedCodeView {
        interface_code(self@)
    }

    /// The interface as it is written: its name, what it extends, and
    /// between braces a line for each attribute and each operation.
    fn generate(&self) -> (code: GeneratedCode) {
        let mut buf = Buffer::default();
        buf.push("export interface ");
        buf.push(self.name.as_str());
        let ghost head = buf@.text;
        assert(head =~= "export interface "@ + self@.name);
        push_clause(&mut buf, " extends ", &self.extends);
        let ghost clauses = buf@.text;
        assert(clauses == head + clause(" extends "@, self@.extends));
        push_body(&mut buf, &self.attributes, &self.operations);
        assert(buf@.text == clauses + " {"@ + entry_lines(self@.attributes, ";"@) + entry_lines(
            self@.operations,
            Seq::empty(),
        ) + line_start(0) + "}"@);
        assert(buf@.text == interface_code(self@).code);
        let code = GeneratedCode { id: self.name.clone(), code: buf.flush() };
        assert(code@ == interface_code(self@));
        code
    }
}

impl Declaration {
    /// The page of the declarations: a fragment for each class and each
    /// interface.
    pub fn generate(&self) -> (page: CodePage)
        ensures
            page@ == declaration_page(self@),
    {
        let mut fragments: Vec<CodeFragment> = Vec::new();
        let ghost all = typed_views(self.typed@);
        let mut i: usize = 0;
        assert(all.take(0) =~= Seq::<TypedView>::empty());
        assert(fragment_views(fragments@) =~= declaration_fragments(all.take(0)));
        while i < self.typed.len()
            invariant
                i <= self.typed.len(),
                all == typed_views(self.typed@),
                fragment_views(fragments@) == declaration_fragments(all.take(i as int)),
            decreases self.typed.len() - i,
        {
            assert(all.take(i + 1).drop_last() =~= all.take(i as int));
            assert(all.take(i + 1).last() == self.typed@[i as int]@);
            let ghost before = fragment_views(fragments@);
            if let Typed::Class(class) = &self.typed[i] {
                let fragment = class.generate().to_fragment();
                fragments.push(fragment);
                assert(fragment_views(fragments@) =~= before.push(fragment@));
            } else if let Typed::Interface(interface) = &self.typed[i] {
                let fragment = interface.generate().to_fragment();
                fragments.push(fragment);
                assert(fragment_views(fragments@) =~= before.push(fragment@));
            }
            i = i + 1;
        }
        assert(all.take(i as int) =~= all);
        CodePage { comment_string: "//", fragments }
    }
}

fn scalar_type_name(scalar: &Scalar) -> (name: &'static str)
    ensures
        name@ == scalar_type(*scalar),
{
    match scalar {
        Scalar::String => "string",
        Scalar::Double => "number",
        Scalar::Integer => "number",
        Scalar::Character => "char",
        Scalar::Boolean => "bool",
    }
}

fn referred(entity: &Entity) -> (name: String)
    ensures
        name@ == referred_name(entity@),
{
    match entity {
        Entity::Scalar(scalar) => String::from_str(scalar_type_name(scalar)),
        other => other.identifier(),
    }
}

fn parameters_of(namespace: &Namespace, operation: &Operation) -> (text: String)
    requires
        operation@.linked_below(namespace@.entities.len() as int),
    ensures
        text@ == parameters_text(namespace@, operation@),
{
    let mut parts: Vec<String> = Vec::new();
    let mut i: usize = 0;
    while i < operation.parameter.len()
        invariant
            i <= operation.parameter.len(),
            operation@.linked_below(namespace@.entities.len() as int),
            parts@.len() == i,
            forall|k: int|
                0 <= k < i ==> (#[trigger] parts@[k])@ == parameter_text(
                    namespace@,
                    operation@.parameter[k],
                ),
        decreases operation.parameter.len() - i,
    {
        let parameter = &operation.parameter[i];
        assert(operation@.parameter[i as int] == parameter@);
        assert(namespace@.entities[parameter.entity as int]
            == namespace.entities@[parameter.entity as int]@);
        let mut part = parameter.name.clone();
        part.append(": ");
        part.append(referred(&namespace.entities[parameter.entity]).as_str());
        parts.push(part);
        i = i + 1;
    }
    assert(string_views(parts@) =~= Seq::new(
        operation@.parameter.len(),
        |i: int| parameter_text(namespace@, operation@.parameter[i]),
    ));
    join(&parts, ",")
}

fn attribute_of(namespace: &Namespace, attribute: &crate::ast::Attribute) -> (text: String)
    requires
        attribute.entity < namespace@.entities.len(),
    ensures
        text@ == attribute_text(namespace@, attribute@),
{
    assert(namespace@.entities[attribute.entity as int]
        == namespace.entities@[attribute.entity as int]@);
    let mut buf = Buffer::default();
    buf.push(attribute.name.as_str());
    buf.push(": ");
    buf.push(namespace.entities[attribute.entity].identifier().as_str());
    assert(buf@.text =~= attribute_text(namespace@, attribute@));
    buf.flush()
}

fn method_of(namespace: &Namespace, operation: &Operation) -> (text: String)
    requires
        operation@.linked_below(namespace@.entities.len() as int),
    ensures
        text@ == method_text(namespace@, operation@),
{
    let mut buf = Buffer::default();
    buf.push("public ");
    buf.push(operation.name.as_str());
    buf.push("(");
    buf.push(parameters_of(namespace, operation).as_str());
    buf.push(")");
    let ghost head = buf@.text;
    assert(head =~= "public "@ + operation@.name + "("@ + parameters_text(
        namespace@,
        operation@,
    ) + ")"@);
    if let Some(entity) = operation.returns {
        assert(namespace@.entities[entity as int] == namespace.entities@[entity as int]@);
        if let Entity::Scalar(scalar) = &namespace.entities[entity] {
            buf.push(": ");
            buf.push(scalar_type_name(scalar));
        }
    }
    assert(buf@.text =~= head + result_text(namespace@, operation@));
    proof {
        reveal_strlit("// TODO implement");
        reveal_strlit("return undefined;");
    }
    buf.push(" {");
    buf.indent();
    buf.new_line();
    buf.push("// TODO implement");
    if operation.returns.is_some() {
        buf.new_line();
        buf.push("return undefined;");
    }
    assert(buf@.text =~= head + result_text(namespace@, operation@) + " {"@ + body_text(
        operation@,
    ));
    buf.unindent();
    buf.new_line();
    buf.push("}");
    buf.new_line();
    assert(buf@.text =~= method_text(namespace@, operation@));
    buf.flush()
}

fn signature_of(namespace: &Namespace, operation: &Operation) -> (text: String)
    requires
        operation@.linked_below(namespace@.entities.len() as int),
    ensures
        text@ == signature_text(namespace@, operation@),
{
    let mut buf = Buffer::default();
    buf.push(operation.name.as_str());
    buf.push("(");
    buf.push(parameters_of(namespace, operation).as_str());
    buf.push(");");
    assert(buf@.text =~= signature_text(namespace@, operation@));
    buf.flush()
}

impl<'a> Transform<Within<'a, Structure>> for Interface {
    open spec fn accepts(model: &Within<'a, Structure>) -> bool {
        model.part@.linked_below(model.namespace@.entities.len() as int)
    }

    /// The interface that a structure becomes: a line for each operation
    /// and each attribute, under the name of the structure with an `I`
    /// before it.
    fn transform(model: &Within<'a, Structure>) -> (interface: Interface)
        ensures
            interface@ == interface_of(model.namespace@, model.part@),
    {
        let namespace = model.namespace;
        let structure = model.part;
        let mut ops: Vec<String> = Vec::new();
        let mut i: usize = 0;
        while i < structure.operations.len()
            invariant
                i <= structure.operations.len(),
                structure@.linked_below(namespace@.entities.len() as int),
                ops@.len() == i,
                forall|k: int|
                    0 <= k < i ==> (#[trigger] ops@[k])@ == signature_text(
                        namespace@,
                        structure@.operations[k],
                    ),
            decreases structure.operations.len() - i,
        {
            assert(structure@.operations[i as int] == structure.operations@[i as int]@);
            ops.push(signature_of(namespace, &structure.operations[i]));
            i = i + 1;
        }
        let mut attrs: Vec<String> = Vec::new();
        let mut j: usize = 0;
        while j < structure.attributes.len()
            invariant
                j <= structure.attributes.len(),
                structure@.linked_below(namespace@.entities.len() as int),
                attrs@.len() == j,
                forall|k: int|
                    0 <= k < j ==> (#[trigger] attrs@[k])@ == attribute_text(
                        namespace@,
                        structure@.attributes[k],
                    ),
            decreases structure.attributes.len() - j,
        {
            assert(structure@.attributes[j as int] == structure.attributes@[j as int]@);
            attrs.push(attribute_of(namespace, &structure.attributes[j]));
            j = j + 1;
        }
        let interface = Interface {
            name: String::from_str("I").concat(structure.name.as_str()),
            operations: ops,
            attributes: attrs,
            extends: None,
        };
        assert(interface@.attributes =~= interface_of(namespace@, structure@).attributes);
        assert(interface@.operations =~= interface_of(namespace@, structure@).operations);
        interface
    }
}

impl<'a> Transform<Within<'a, Structure>> for Class {
    open spec fn accepts(model: &Within<'a, Structure>) -> bool {
        model.part@.linked_below(model.namespace@.entities.len() as int)
    }

    /// The class that a structure becomes: it extends the parent of the
    /// structure, implements the interface of the structure, and holds a
    /// public field for each attribute and a public method without a body of
    /// its own for each operation.
    fn transform(model: &Within<'a, Structure>) -> (class: Class)
        ensures
            class@ == class_of(model.namespace@, model.part@),
    {
        let namespace = model.namespace;
        let structure = model.part;
        let mut ops: Vec<String> = Vec::new();
        let mut i: usize = 0;
        while i < structure.operations.len()
            invariant
                i <= structure.operations.len(),
                structure@.linked_below(namespace@.entities.len() as int),
                ops@.len() == i,
                forall|k: int|
                    0 <= k < i ==> (#[trigger] ops@[k])@ == method_text(
                        namespace@,
                        structure@.operations[k],
                    ),
            decreases structure.operations.len() - i,
        {
            assert(structure@.operations[i as int] == structure.operations@[i as int]@);
            ops.push(method_of(namespace, &structure.operations[i]));
            i = i + 1;
        }
        let mut attrs: Vec<String> = Vec::new();
        let mut j: usize = 0;
        while j < structure.attributes.len()
            invariant
                j <= structure.attributes.len(),
                structure@.linked_below(namespace@.entities.len() as int),
                attrs@.len() == j,
                forall|k: int|
                    0 <= k < j ==> (#[trigger] attrs@[k])@ == "public "@ + attribute_text(
                        namespace@,
                        structure@.attributes[k],
                    ),
            decreases structure.attributes.len() - j,
        {
            assert(structure@.attributes[j as int] == structure.attributes@[j as int]@);
            let mut buf = Buffer::default();
            buf.push("public ");
            buf.push(attribute_of(namespace, &structure.attributes[j]).as_str());
            assert(buf@.text =~= "public "@ + attribute_text(
                namespace@,
                structure@.attributes[j as int],
            ));
            attrs.push(buf.flush());
            j = j + 1;
        }
        let extends = match structure.parent {
            Some(parent) => {
                assert(namespace@.entities[parent as int] == namespace.entities@[parent as int]@);
                Some(namespace.entities[parent].identifier())
            },
            None => None,
        };
        let mut implements: Vec<String> = Vec::new();
        implements.push(String::from_str("I").concat(structure.name.as_str()));
        assert(string_views(implements@) =~= seq![interface_name(structure@.name)]);
        let class = Class {
            name: structure.identifier(),
            extends,
            operations: ops,
            attributes: attrs,
            implements: Some(implements),
        };
        assert(class@.attributes =~= class_of(namespace@, structure@).attributes);
        assert(class@.operations =~= class_of(namespace@, structure@).operations);
        class
    }
}

impl<'a> Transform<Within<'a, Entity>> for Typed {
    open spec fn accepts(model: &Within<'a, Entity>) -> bool {
        model.part@.linked_below(model.namespace@.entities.len() as int)
    }

    /// What an entity becomes: a structure a class and an interface, a
    /// built-in type its name in TypeScript, an enumeration nothing.
    fn transform(model: &Within<'a, Entity>) -> (typed: Typed)
        ensures
            typed@ == typed_of(model.namespace@, model.part@),
    {
        let namespace = model.namespace;
        let entity = model.part;
        match entity {
            Entity::Structure(structure) => {
                let scoped = Within { namespace, part: structure };
                let mut both: Vec<Typed> = Vec::new();
                both.push(Typed::Class(Class::transform(&scoped)));
                both.push(Typed::Interface(Interface::transform(&scoped)));
                assert(typed_views(both@) =~= seq![
                    TypedView::Class(class_of(namespace@, structure@)),
                    TypedView::Interface(interface_of(namespace@, structure@)),
                ]);
                Typed::Vec(both)
            },
            Entity::Scalar(scalar) => Typed::Scalar(String::from_str(scalar_type_name(scalar))),
            _ => Typed::Nothing,
        }
    }
}

impl Transform<Namespace> for Declaration {
    open spec fn accepts(model: &Namespace) -> bool {
        model@.linked()
    }

    /// The declarations for `model`: for each entity what it becomes, a
    /// class and an interface one after the other.
    fn transform(model: &Namespace) -> (declaration: Declaration)
        ensures
            declaration@ == declarations_of(model@, model@.entities),
    {
        assert(model@.linked());
        let mut flattened: Vec<Typed> = Vec::new();
        let ghost all = model@.entities;
        let mut i: usize = 0;
        assert(all.take(0) =~= Seq::<EntityView>::empty());
        assert(typed_views(flattened@) =~= declarations_of(model@, all.take(0)));
        while i < model.entities.len()
            invariant
                i <= model.entities.len(),
                all == model@.entities,
                model@.linked(),
                typed_views(flattened@) == declarations_of(model@, all.take(i as int)),
            decreases model.entities.len() - i,
        {
            assert(all.take(i + 1).drop_last() =~= all.take(i as int));
            assert(all.take(i + 1).last() == model.entities@[i as int]@);
            assert(model@.entities[i as int] == model.entities@[i as int]@);
            let ghost before = typed_views(flattened@);
            let tp = Typed::transform(&Within { namespace: model, part: &model.entities[i] });
            if let Typed::Vec(several) = tp {
                let ghost views = typed_views(several@);
                let mut several = several;
                let mut k: usize = 0;
                let ghost count = several.len();
                assert(before + views.take(0) =~= before);
                while several.len() > 0
                    invariant
                        k + several.len() == count,
                        count == views.len(),
                        typed_views(several@) == views.skip(k as int),
                        typed_views(flattened@) == before + views.take(k as int),
                    decreases several.len(),
                {
                    let ghost rest = typed_views(several@);
                    let ghost sofar = typed_views(flattened@);
                    let first = several.remove(0);
                    assert(first@ == rest[0]);
                    assert(typed_views(several@) =~= rest.skip(1));
                    assert(rest.skip(1) =~= views.skip(k + 1));
                    flattened.push(first);
                    assert(typed_views(flattened@) =~= sofar.push(first@));
                    assert(sofar.push(first@) =~= before + views.take(k + 1));
                    k = k + 1;
                }
                assert(views.take(k as int) =~= views);
            } else {
                flattened.push(tp);
                assert(typed_views(flattened@) =~= before + seq![tp@]);
            }
            i = i + 1;
        }
        assert(all.take(i as int) =~= all);
        Declaration { typed: flattened }
    }
}

/// What the target makes of the source of a model: the declarations for
/// the model that the source holds, or the error of parsing it.
pub open spec fn declarations_from(source: Seq<char>) -> Result<FileStructureView, PakErrorView> {
    match model_of(source) {
        Ok(namespace) => Ok(
            declaration_tree(declaration_page(declarations_of(namespace, namespace.entities))),
        ),
        Err(error) => Err(PakErrorView::ParserError(error.message())),
    }
}

impl Target for TypeScriptTarget {
    open spec fn name_spec(&self) -> Seq<char> {
        "typescript"@
    }

    open spec fn generated_from(&self, source: Seq<char>) -> Result<
        FileStructureView,
        PakErrorView,
    > {
        declarations_from(source)
    }

    fn name(&self) -> (name: &'static str) {
        "typescript"
    }

    /// Parses and resolves the model and writes its declarations into the
    /// file `global.d.ts` of the directory `typescript`.
    fn generate_from(&self, source: &str) -> (generated: PakResult<FileStructure>) {
        let namespace = match parse_model(source) {
            Ok(namespace) => namespace,
            Err(error) => {
                return Err(PakError::from_parser(&error));
            },
        };
        let transformed = Declaration::transform(&namespace);
        let schema = transformed.generate();
        let mut content: Vec<FileStructure> = Vec::new();
        content.push(FileStructure::File(String::from_str("global.d.ts"), schema));
        assert(tree_views(content@) =~= seq![FileStructureView::File("global.d.ts"@, schema@)]);
        Ok(FileStructure::Dir(String::from_str("typescript"), content))
    }
}

} // verus!
