//! The target that writes a GraphQL schema.

use crate::ast::{
    AttributeView, Entity, EntityView, Identifying, Namespace, NamespaceView, Structure,
    StructureView,
};
use crate::buffer::{block, line_start, write_block, Buffer};
use crate::code::{
    CodeFragmentView, CodePage, CodePageView, GeneratedCode, GeneratedCodeView,
};
use crate::error::{PakError, PakErrorView, PakResult};
use crate::filestructure::{tree_views, FileStructure, FileStructureView};
use crate::generator::{Transform, Within};
use crate::parser::{model_of, parse_model};
use crate::target::Target;
use crate::text::{join, joined, string_views};
use crate::Generate;
use vstd::prelude::*;

verus! {

/// The target that writes a GraphQL schema.
#[derive(Debug, Default)]
pub struct GraphQLTarget {}

/// A schema document: the types, and the queries and mutations for them.
#[derive(Debug, PartialEq, Eq)]
pub struct Document {
    pub types: Vec<Typed>,
    pub schema: Schema,
}

/// The queries of a schema, one line each.
#[derive(Debug, PartialEq, Eq)]
pub struct Query {
    pub queries: Vec<String>,
}

/// The mutations of a schema, one line each.
#[derive(Debug, PartialEq, Eq)]
pub struct Mutation {
    pub mutations: Vec<String>,
}

/// The entry points of a schema.
#[derive(Debug, PartialEq, Eq)]
pub struct Schema {
    pub query: Query,
    pub mutation: Mutation,
}

/// An object type.
#[derive(Debug, PartialEq, Eq)]
pub struct Type {
    pub name: String,
    pub fields: Vec<Field>,
}

/// What an entity becomes: a type, or nothing for what is no structure.
#[derive(Debug, PartialEq, Eq)]
pub enum Typed {
    Type(Type),
    Nothing,
}

/// A field of an object type, with its type as it is written.
#[derive(Debug, PartialEq, Eq)]
pub struct Field {
    pub name: String,
    pub typ: String,
}

/// What a [`Field`] stands for.
pub ghost struct FieldView {
    pub name: Seq<char>,
    pub typ: Seq<char>,
}

/// What a [`Type`] stands for.
pub ghost struct TypeView {
    pub name: Seq<char>,
    pub fields: Seq<FieldView>,
}

/// What a [`Typed`] stands for.
pub ghost enum TypedView {
    Type(TypeView),
    Nothing,
}

/// What a [`Schema`] stands for: its queries and its mutations.
pub ghost struct SchemaView {
    pub query: Seq<Seq<char>>,
    pub mutation: Seq<Seq<char>>,
}

/// What a [`Document`] stands for.
pub ghost struct DocumentView {
    pub types: Seq<TypedView>,
    pub schema: SchemaView,
}

/// What a list of fields stands for.
pub open spec fn field_views(fields: Seq<Field>) -> Seq<FieldView> {
    Seq::new(fields.len(), |i: int| fields[i]@)
}

/// What a list of values stands for.
pub open spec fn typed_views(types: Seq<Typed>) -> Seq<TypedView> {
    Seq::new(types.len(), |i: int| types[i]@)
}

impl View for Field {
    type V = FieldView;

    open spec fn view(&self) -> FieldView {
        FieldView { name: self.name@, typ: self.typ@ }
    }
}

impl View for Type {
    type V = TypeView;

    open spec fn view(&self) -> TypeView {
        TypeView { name: self.name@, fields: field_views(self.fields@) }
    }
}

impl View for Typed {
    type V = TypedView;

    open spec fn view(&self) -> TypedView {
        match self {
            Typed::Type(t) => TypedView::Type(t@),
            Typed::Nothing => TypedView::Nothing,
        }
    }
}

impl View for Query {
    type V = Seq<Seq<char>>;

    open spec fn view(&self) -> Seq<Seq<char>> {
        string_views(self.queries@)
    }
}

impl View for Mutation {
    type V = Seq<Seq<char>>;

    open spec fn view(&self) -> Seq<Seq<char>> {
        string_views(self.mutations@)
    }
}

impl View for Schema {
    type V = SchemaView;

    open spec fn view(&self) -> SchemaView {
        SchemaView { query: self.query@, mutation: self.mutation@ }
    }
}

impl View for Document {
    type V = DocumentView;

    open spec fn view(&self) -> DocumentView {
        DocumentView { types: typed_views(self.types@), schema: self.schema@ }
    }
}

/// The type of a field as it is written: the name of the entity, between
/// square brackets and with `!` after it where the attribute holds a
/// collection, and with `!` at the end unless a value may be missing.
pub open spec fn field_type(name: Seq<char>, list: bool, nullable: bool) -> Seq<char> {
    let inner = if list {
        "["@ + name + "!]"@
    } else {
        name
    };
    if nullable {
        inner
    } else {
        inner + "!"@
    }
}

/// The field that an attribute becomes.
pub open spec fn field_of(namespace: NamespaceView, attribute: AttributeView) -> FieldView {
    FieldView {
        name: attribute.name,
        typ: field_type(
            namespace.entities[attribute.entity as int].name(),
            attribute.multiplicity.list(),
            attribute.multiplicity.nullable(),
        ),
    }
}

/// The type that a structure becomes: a field for each attribute.
pub open spec fn type_of(namespace: NamespaceView, structure: StructureView) -> TypeView {
    TypeView {
        name: structure.name,
        fields: Seq::new(
            structure.attributes.len(),
            |i: int| field_of(namespace, structure.attributes[i]),
        ),
    }
}

/// What an entity becomes.
pub open spec fn typed_of(namespace: NamespaceView, entity: EntityView) -> TypedView {
    match entity {
        EntityView::Structure(structure) => TypedView::Type(type_of(namespace, structure)),
        _ => TypedView::Nothing,
    }
}

/// The query for a type: all its values.
pub open spec fn query_for(name: Seq<char>) -> Seq<char> {
    "query"@ + name + ": ["@ + name + "!]"@
}

/// A field as a parameter, and as a line of a type.
pub open spec fn field_text(field: FieldView) -> Seq<char> {
    field.name + ": "@ + field.typ
}

/// The mutation for a type: creating a value from its fields.
pub open spec fn mutation_for(t: TypeView) -> Seq<char> {
    "create"@ + t.name + "("@ + joined(
        Seq::new(t.fields.len(), |i: int| field_text(t.fields[i])),
        ", "@,
    ) + "): ["@ + t.name + "!]"@
}

/// The queries for `types`: one for each type, in order.
pub open spec fn queries_of(types: Seq<TypedView>) -> Seq<Seq<char>>
    decreases types.len(),
{
    if types.len() == 0 {
        Seq::empty()
    } else {
        match types.last() {
            TypedView::Type(t) => queries_of(types.drop_last()).push(query_for(t.name)),
            TypedView::Nothing => queries_of(types.drop_last()),
        }
    }
}

/// The mutations for `types`: one for each type, in order.
pub open spec fn mutations_of(types: Seq<TypedView>) -> Seq<Seq<char>>
    decreases types.len(),
{
    if types.len() == 0 {
        Seq::empty()
    } else {
        match types.last() {
            TypedView::Type(t) => mutations_of(types.drop_last()).push(mutation_for(t)),
            TypedView::Nothing => mutations_of(types.drop_last()),
        }
    }
}

/// The document that a model becomes.
pub open spec fn document_of(namespace: NamespaceView) -> DocumentView {
    let types = Seq::new(
        namespace.entities.len(),
        |i: int| typed_of(namespace, namespace.entities[i]),
    );
    DocumentView {
        types,
        schema: SchemaView { query: queries_of(types), mutation: mutations_of(types) },
    }
}

/// The code of a type.
pub open spec fn type_code(t: TypeView) -> GeneratedCodeView {
    GeneratedCodeView {
        code: block(
            "type "@ + t.name + " {"@,
            Seq::new(t.fields.len(), |i: int| field_text(t.fields[i])),
            ","@,
        ),
        id: t.name,
    }
}

/// The text of the queries.
pub open spec fn query_text(queries: Seq<Seq<char>>) -> Seq<char> {
    block("type Query {"@, queries, ","@)
}

/// The text of the mutations.
pub open spec fn mutation_text(mutations: Seq<Seq<char>>) -> Seq<char> {
    block("type Mutation {"@, mutations, ","@)
}

/// The code of the entry points: the schema itself, the mutations and the
/// queries.
pub open spec fn schema_code(schema: SchemaView) -> GeneratedCodeView {
    GeneratedCodeView {
        code: "schema {"@ + line_start(1) + "query: Query,"@ + line_start(1)
            + "mutation: Mutation,"@ + line_start(0) + "}"@ + line_start(0) + line_start(0)
            + mutation_text(schema.mutation) + line_start(0) + query_text(schema.query),
        id: "schema"@,
    }
}

/// The fragments for `types`: the code of each type, in order.
pub open spec fn type_fragments(types: Seq<TypedView>) -> Seq<CodeFragmentView>
    decreases types.len(),
{
    if types.len() == 0 {
        Seq::empty()
    } else {
        match types.last() {
            TypedView::Type(t) => type_fragments(types.drop_last()).push(
                CodeFragmentView::Generated(type_code(t)),
            ),
            TypedView::Nothing => type_fragments(types.drop_last()),
        }
    }
}

/// The page of a document: a fragment for each type, then one for the
/// entry points.
pub open spec fn document_page(document: DocumentView) -> CodePageView {
    CodePageView {
        fragments: type_fragments(document.types).push(
            CodeFragmentView::Generated(schema_code(document.schema)),
        ),
        comment_string: "#"@,
    }
}

/// The files of the target: one schema in a directory.
pub open spec fn schema_tree(page: CodePageView) -> FileStructureView {
    FileStructureView::Dir(
        "graphql"@,
        seq![FileStructureView::File("schema.graphqls"@, page)],
    )
}

impl Field {
    /// The field as it is written: the name, a colon, the type.
    pub fn generate(&self) -> (text: String)
        ensures
            text@ == field_text(self@),
    {
        let mut buffer = Buffer::default();
        buffer.push(self.name.as_str());
        buffer.push(": ");
        buffer.push(self.typ.as_str());
        assert(buffer@.text =~= field_text(self@));
        buffer.flush()
    }
}

fn field_texts(fields: &Vec<Field>) -> (texts: Vec<String>)
    ensures
        string_views(texts@) == Seq::new(
            fields@.len(),
            |i: int| field_text(field_views(fields@)[i]),
        ),
{
    let mut texts: Vec<String> = Vec::new();
    let mut i: usize = 0;
    while i < fields.len()
        invariant
            i <= fields.len(),
            texts@.len() == i,
            forall|k: int| 0 <= k < i ==> (#[trigger] texts@[k])@ == field_text(fields@[k]@),
        decreases fields.len() - i,
    {
        texts.push(fields[i].generate());
        i = i + 1;
    }
    assert(string_views(texts@) =~= Seq::new(
        fields@.len(),
        |i: int| field_text(field_views(fields@)[i]),
    ));
    texts
}

impl Generate for Type {
    open spec fn generated(&self) -> GeneratedCodeView {
        type_code(self@)
    }

    /// The type as it is written: its name and, between braces, a line for
    /// each field.
    fn generate(&self) -> (code: GeneratedCode) {
        let mut head = String::from_str("type ");
        head.append(self.name.as_str());
        head.append(" {");
        proof {
            reveal_strlit(",");
        }
        let text = write_block(head.as_str(), &field_texts(&self.fields), ",");
        GeneratedCode { code: text, id: self.name.clone() }
    }
}

impl Typed {
    /// The code of the type, if there is one.
    pub fn generate(&self) -> (code: Option<GeneratedCode>)
        ensures
            match code {
                Some(code) => self@ matches TypedView::Type(t) && code@ == type_code(t),
                None => self@ is Nothing,
            },
    {
        match self {
            Typed::Type(t) => Some(t.generate()),
            Typed::Nothing => None,
        }
    }
}

impl Query {
    /// The queries as they are written.
    pub fn generate(&self) -> (text: String)
        ensures
            text@ == query_text(self@),
    {
        proof {
            reveal_strlit(",");
        }
        write_block("type Query {", &self.queries, ",")
    }
}

impl Mutation {
    /// The mutations as they are written.
    pub fn generate(&self) -> (text: String)
        ensures
            text@ == mutation_text(self@),
    {
        proof {
            reveal_strlit(",");
        }
        write_block("type Mutation {", &self.mutations, ",")
    }
}

impl Generate for Schema {
    open spec fn generated(&self) -> GeneratedCodeView {
        schema_code(self@)
    }

    /// The entry points as they are written.
    fn generate(&self) -> (code: GeneratedCode) {
        let mut buffer = Buffer::default();
        proof {
            reveal_strlit("query: Query,");
            reveal_strlit("mutation: Mutation,");
        }
        buffer.push("schema {");
        buffer.indent();
        buffer.new_line();
        buffer.push("query: Query,");
        buffer.new_line();
        buffer.push("mutation: Mutation,");
        buffer.unindent();
        buffer.new_line();
        buffer.push("}");
        buffer.new_line();
        buffer.new_line();
        buffer.push(self.mutation.generate().as_str());
        buffer.new_line();
        buffer.push(self.query.generate().as_str());
        assert(buffer@.text =~= schema_code(self@).code);
        GeneratedCode { code: buffer.flush(), id: String::from_str("schema") }
    }
}

impl Document {
    /// The page of the document: a fragment for each type, then one for the
    /// entry points.
    pub fn generate(&self) -> (page: CodePage)
        ensures
            page@ == document_page(self@),
    {
        let mut codepage = CodePage::default("#");
        let ghost all = typed_views(self.types@);
        let mut i: usize = 0;
        assert(all.take(0) =~= Seq::<TypedView>::empty());
        while i < self.types.len()
            invariant
                i <= self.types.len(),
                all == typed_views(self.types@),
                codepage@.comment_string == "#"@,
                codepage@.fragments == type_fragments(all.take(i as int)),
            decreases self.types.len() - i,
        {
            assert(all.take(i + 1).drop_last() =~= all.take(i as int));
            assert(all.take(i + 1).last() == self.types@[i as int]@);
            if let Some(generated) = self.types[i].generate() {
                codepage.add(generated.to_fragment());
            }
            i = i + 1;
        }
        assert(all.take(i as int) =~= all);
        codepage.add(self.schema.generate().to_fragment());
        codepage
    }
}

impl<'a> Transform<Within<'a, Entity>> for Typed {
    open spec fn accepts(model: &Within<'a, Entity>) -> bool {
        model.part@.linked_below(model.namespace@.entities.len() as int)
    }

    /// What an entity becomes: a structure a type with a field for each
    /// attribute, anything else nothing. An attribute that holds a fixed
    /// number of values is written like one that holds a single value.
    fn transform(model: &Within<'a, Entity>) -> (typed: Typed)
        ensures
            typed@ == typed_of(model.namespace@, model.part@),
    {
        let namespace = model.namespace;
        let entity = model.part;
        if let Entity::Structure(structure) = entity {
            let mut fields: Vec<Field> = Vec::new();
            let mut i: usize = 0;
            while i < structure.attributes.len()
                invariant
                    i <= structure.attributes.len(),
                    structure@.linked_below(namespace@.entities.len() as int),
                    fields@.len() == i,
                    forall|k: int|
                        0 <= k < i ==> (#[trigger] fields@[k])@ == field_of(
                            namespace@,
                            structure@.attributes[k],
                        ),
                decreases structure.attributes.len() - i,
            {
                let attribute = &structure.attributes[i];
                assert(structure@.attributes[i as int] == attribute@);
                assert(namespace@.entities[attribute.entity as int]
                    == namespace.entities@[attribute.entity as int]@);
                let name = namespace.entities[attribute.entity].identifier();
                let list = attribute.multiplicity.is_list();
                let mut typ = String::new();
                if list {
                    typ.append("[");
                }
                typ.append(name.as_str());
                if list {
                    typ.append("!]");
                }
                if !attribute.multiplicity.is_nullable() {
                    typ.append("!");
                }
                assert(typ@ =~= field_of(namespace@, attribute@).typ);
                fields.push(Field { name: attribute.name.clone(), typ });
                i = i + 1;
            }
            let t = Type { name: structure.name.clone(), fields };
            assert(t@.fields =~= type_of(namespace@, structure@).fields);
            Typed::Type(t)
        } else {
            Typed::Nothing
        }
    }
}

impl Transform<Vec<Typed>> for Query {
    open spec fn accepts(model: &Vec<Typed>) -> bool {
        true
    }

    /// The queries for the types of `model`.
    fn transform(model: &Vec<Typed>) -> (query: Query)
        ensures
            query@ == queries_of(typed_views(model@)),
    {
        let mut queries: Vec<String> = Vec::new();
        let ghost all = typed_views(model@);
        let mut i: usize = 0;
        assert(all.take(0) =~= Seq::<TypedView>::empty());
        assert(string_views(queries@) =~= queries_of(all.take(0)));
        while i < model.len()
            invariant
                i <= model.len(),
                all == typed_views(model@),
                string_views(queries@) == queries_of(all.take(i as int)),
            decreases model.len() - i,
        {
            assert(all.take(i + 1).drop_last() =~= all.take(i as int));
            assert(all.take(i + 1).last() == model@[i as int]@);
            if let Typed::Type(typ) = &model[i] {
                let mut query = String::from_str("query");
                query.append(typ.name.as_str());
                query.append(": [");
                query.append(typ.name.as_str());
                query.append("!]");
                let ghost before = string_views(queries@);
                queries.push(query);
                assert(string_views(queries@) =~= before.push(query_for(typ@.name)));
            }
            i = i + 1;
        }
        assert(all.take(i as int) =~= all);
        Query { queries }
    }
}

impl Transform<Vec<Typed>> for Mutation {
    open spec fn accepts(model: &Vec<Typed>) -> bool {
        true
    }

    /// The mutations for the types of `model`.
    fn transform(model: &Vec<Typed>) -> (mutation: Mutation)
        ensures
            mutation@ == mutations_of(typed_views(model@)),
    {
        let mut mutations: Vec<String> = Vec::new();
        let ghost all = typed_views(model@);
        let mut i: usize = 0;
        assert(all.take(0) =~= Seq::<TypedView>::empty());
        assert(string_views(mutations@) =~= mutations_of(all.take(0)));
        while i < model.len()
            invariant
                i <= model.len(),
                all == typed_views(model@),
                string_views(mutations@) == mutations_of(all.take(i as int)),
            decreases model.len() - i,
        {
            assert(all.take(i + 1).drop_last() =~= all.take(i as int));
            assert(all.take(i + 1).last() == model@[i as int]@);
            if let Typed::Type(typ) = &model[i] {
                let params = field_texts(&typ.fields);
                let mut mutation = String::from_str("create");
                mutation.append(typ.name.as_str());
                mutation.append("(");
                mutation.append(join(&params, ", ").as_str());
                mutation.append("): [");
                mutation.append(typ.name.as_str());
                mutation.append("!]");
                let ghost before = string_views(mutations@);
                mutations.push(mutation);
                assert(string_views(mutations@) =~= before.push(mutation_for(typ@)));
            }
            i = i + 1;
        }
        assert(all.take(i as int) =~= all);
        Mutation { mutations }
    }
}

impl Transform<Vec<Typed>> for Schema {
    open spec fn accepts(model: &Vec<Typed>) -> bool {
        true
    }

    /// The entry points for the types of `model`.
    fn transform(model: &Vec<Typed>) -> (schema: Schema)
        ensures
            schema@ == (SchemaView {
                query: queries_of(typed_views(model@)),
                mutation: mutations_of(typed_views(model@)),
            }),
    {
        let query = Query::transform(model);
        let mutation = Mutation::transform(model);
        Schema { query, mutation }
    }
}

impl Transform<Namespace> for Document {
    open spec fn accepts(model: &Namespace) -> bool {
        model@.linked()
    }

    /// The document for `model`: a type for each structure, and the queries
    /// and mutations for them.
    fn transform(model: &Namespace) -> (document: Document)
        ensures
            document@ == document_of(model@),
    {
        let mut types: Vec<Typed> = Vec::new();
        let mut i: usize = 0;
        while i < model.entities.len()
            invariant
                i <= model.entities.len(),
                model@.linked(),
                types@.len() == i,
                forall|k: int|
                    0 <= k < i ==> (#[trigger] types@[k])@ == typed_of(
                        model@,
                        model@.entities[k],
                    ),
            decreases model.entities.len() - i,
        {
            assert(model@.entities[i as int] == model.entities@[i as int]@);
            types.push(Typed::transform(&Within { namespace: model, part: &model.entities[i] }));
            i = i + 1;
        }
        assert(typed_views(types@) =~= document_of(model@).types);
        let schema = Schema::transform(&types);
        Document { types, schema }
    }
}

/// What the target makes of the source of a model: the schema of the model
/// that the source holds, or the error of parsing it.
pub open spec fn schema_from(source: Seq<char>) -> Result<FileStructureView, PakErrorView> {
    match model_of(source) {
        Ok(namespace) => Ok(schema_tree(document_page(document_of(namespace)))),
        Err(error) => Err(PakErrorView::ParserError(error.message())),
    }
}

impl Target for GraphQLTarget {
    open spec fn name_spec(&self) -> Seq<char> {
        "graphql"@
    }

    open spec fn generated_from(&self, source: Seq<char>) -> Result<
        FileStructureView,
        PakErrorView,
    > {
        schema_from(source)
    }

    fn name(&self) -> (name: &'static str) {
        "graphql"
    }

    /// Parses and resolves the model and writes its schema into the file
    /// `schema.graphqls` of the directory `graphql`.
    fn generate_from(&self, source: &str) -> (generated: PakResult<FileStructure>) {
        let namespace = match parse_model(source) {
            Ok(namespace) => namespace,
            Err(error) => {
                return Err(PakError::from_parser(&error));
            },
        };
        let transformed = Document::transform(&namespace);
        let schema = transformed.generate();
        let mut content: Vec<FileStructure> = Vec::new();
        content.push(FileStructure::File(String::from_str("schema.graphqls"), schema));
        assert(tree_views(content@) =~= seq![
            FileStructureView::File("schema.graphqls"@, schema@),
        ]);
        Ok(FileStructure::Dir(String::from_str("graphql"), content))
    }
}

} // verus!
