use pakken::code::{CodeFragment, CodePage};
use pakken::error::PakError;
use pakken::filestructure::FileStructure;
use pakken::generator::{descriptor_name, GeneratorBuilder, TargetOptions, Transform};
use pakken::graphql::{Document, Field, GraphQLTarget, Typed};
use pakken::log::{Logger, LoggingVerbosity};
use pakken::parser::parse_model;
use pakken::project::{project_name, Project};
use pakken::target::{Target, TargetRepository};
use pakken::targets::{load_targets, BuiltinTarget};
use pakken::typescript::{Declaration, TypeScriptTarget};
use pakken::{Generate, Merge, Model, GENERATOR_FILE_ENDING, PAKKEN_FILE_ENDING};

fn only_page(tree: &FileStructure) -> &CodePage {
    match tree {
        FileStructure::Dir(_, content) => match &content[0] {
            FileStructure::File(_, page) => page,
            _ => panic!("a file is expected"),
        },
        _ => panic!("a directory is expected"),
    }
}

fn code_of<'a>(page: &'a CodePage, id: &str) -> &'a str {
    for fragment in &page.fragments {
        if let CodeFragment::Generated(code) = fragment {
            if code.id == id {
                return code.code.as_str();
            }
        }
    }
    panic!("no fragment {}", id)
}

#[test]
fn graphql_renders_a_self_reference_as_a_list() {
    let tree = GraphQLTarget::default()
        .generate_from("org.mobile { User { name: String, friends: User* } }")
        .unwrap();
    assert_eq!(tree.get_name(), "graphql");
    let page = only_page(&tree);
    assert_eq!(page.comment_string, "#");
    assert_eq!(
        code_of(page, "User"),
        "type User {\n\tname: String!,\n\tfriends: [User!],\n}"
    );
    assert_eq!(
        code_of(page, "schema"),
        "schema {\n\tquery: Query,\n\tmutation: Mutation,\n}\n\ntype Mutation {\n\tcreateUser(name: String!, friends: [User!]): [User!],\n}\ntype Query {\n\tqueryUser: [User!],\n}"
    );
    assert_eq!(page.fragments.len(), 2);
}

#[test]
fn graphql_nullability_and_lists() {
    let namespace = parse_model(
        "m { A { a: String, b: String?, c: String+, d: String{0}, e: String{3}, f: String{0..4}, g: String{2..4} } }",
    )
    .unwrap();
    let document = Document::transform(&namespace);
    let fields: Vec<String> = match &document.types[5] {
        Typed::Type(t) => t.fields.iter().map(|f: &Field| f.generate()).collect(),
        Typed::Nothing => panic!("A is a structure"),
    };
    assert_eq!(
        fields,
        vec![
            "a: String!",
            "b: String",
            "c: [String!]!",
            "d: String",
            "e: String!",
            "f: [String!]",
            "g: [String!]!"
        ]
    );
    assert!(matches!(document.types[0], Typed::Nothing));
    assert_eq!(document.schema.query.queries, vec![String::from("queryA: [A!]")]);
}

#[test]
fn typescript_renders_inheritance() {
    let tree = TypeScriptTarget::default()
        .generate_from("m { User { name: String } Profile: User { bio: String? } }")
        .unwrap();
    assert_eq!(tree.get_name(), "typescript");
    match &tree {
        FileStructure::Dir(_, content) => assert_eq!(content[0].get_name(), "global.d.ts"),
        _ => panic!("a directory is expected"),
    }
    let page = only_page(&tree);
    assert_eq!(page.comment_string, "//");
    assert_eq!(
        code_of(page, "Profile"),
        "export class Profile extends User implements IProfile {\n\tpublic bio: String;\n}"
    );
    assert_eq!(code_of(page, "IProfile"), "export interface IProfile {\n\tbio: String;\n}");
    assert_eq!(
        code_of(page, "User"),
        "export class User implements IUser {\n\tpublic name: String;\n}"
    );
    assert_eq!(page.fragments.len(), 4);
    let schema = GraphQLTarget::default()
        .generate_from("m { User { name: String } Profile: User { bio: String? } }")
        .unwrap();
    assert_eq!(code_of(only_page(&schema), "Profile"), "type Profile {\n\tbio: String,\n}");
}

#[test]
fn typescript_renders_operations() {
    let namespace = parse_model(
        "m { enum Color { Red } User { greet(other: User, loud: Boolean, in: Color): String, self(): User, reset() } }",
    )
    .unwrap();
    let declaration = Declaration::transform(&namespace);
    let page = declaration.generate();
    assert_eq!(
        code_of(&page, "User"),
        "export class User implements IUser {\n\tpublic greet(other: User,loud: bool,in: Color): string {\n\t\t// TODO implement\n\t\treturn undefined;\n\t}\n\n\tpublic self() {\n\t\t// TODO implement\n\t\treturn undefined;\n\t}\n\n\tpublic reset() {\n\t\t// TODO implement\n\t}\n\n}"
    );
    assert_eq!(
        code_of(&page, "IUser"),
        "export interface IUser {\n\tgreet(other: User,loud: bool,in: Color);\n\tself();\n\treset();\n}"
    );
}

#[test]
fn targets_report_parser_errors() {
    let error = GraphQLTarget::default().generate_from("m { A { b: B } }").unwrap_err();
    assert_eq!(error, PakError::ParserError(String::from("Unknown entity `B`")));
    let error = TypeScriptTarget::default().generate_from("m {").unwrap_err();
    assert_eq!(error, PakError::ParserError(String::from("Parsing error at `1:4`;")));
}

#[test]
fn regenerating_over_own_output_changes_nothing() {
    let source = "m { User { name: String, friends: User* } Pet { owner: User } }";
    for target in [
        BuiltinTarget::GraphQL(GraphQLTarget::default()),
        BuiltinTarget::TypeScript(TypeScriptTarget::default()),
    ] {
        let tree = target.generate_from(source).unwrap();
        let page = only_page(&tree);
        let shadow = CodePage::from(page.comment_string, page.build().as_str()).unwrap();
        assert_eq!(&shadow, page);
        assert_eq!(page.merge(&shadow), *page);
        assert_eq!(tree.merge(&tree), tree);
    }
}

#[test]
fn repository_finds_targets_by_name() {
    let repository = load_targets();
    assert_eq!(repository.list(), vec![String::from("graphql"), String::from("typescript")]);
    assert_eq!(repository.find("typescript").unwrap().name(), "typescript");
    assert_eq!(repository.find("graphql").unwrap().name(), "graphql");
    match repository.find("rust") {
        Err(PakError::TargetNotFound(name)) => assert_eq!(name, "rust"),
        _ => panic!("no such target"),
    }
    let mut own: TargetRepository<GraphQLTarget> = TargetRepository::new();
    assert!(own.find("graphql").is_err());
    assert!(own.add(GraphQLTarget::default()).is_ok());
    assert!(own.find("graphql").is_ok());
}

#[test]
fn generator_uses_the_target_of_its_name() {
    let repository = load_targets();
    let mut builder = GeneratorBuilder::new("graphql");
    builder.with_options(TargetOptions);
    let generator = builder.build("./out");
    assert_eq!(generator.target_name, "graphql");
    assert_eq!(generator.path, "./out");
    assert_eq!(generator.options, Some(TargetOptions));
    let tree = generator.generate(&repository, "m { A {} }").unwrap();
    assert_eq!(tree.get_name(), "graphql");
    let missing = GeneratorBuilder::new("rust").build("./");
    assert_eq!(missing.options, None);
    assert_eq!(
        missing.generate(&repository, "m { A {} }"),
        Err(PakError::TargetNotFound(String::from("rust")))
    );
}

#[test]
fn project_names_its_model_file() {
    let project = Project::from("shop");
    assert_eq!(project.name, "shop");
    assert_eq!(project.model, "shop.pkn");
    assert_eq!(PAKKEN_FILE_ENDING, ".pkn");
    assert_eq!(GENERATOR_FILE_ENDING, ".pgen");
    assert_eq!(Model::new(String::from("a/b.pkn")).path, "a/b.pkn");
    assert_eq!(project_name("a/b/c-d"), "a-b-c-d");
    assert_eq!(project_name("plain"), "plain");
    assert_eq!(descriptor_name("graphql"), "graphql.pgen");
}

#[test]
fn logger_reports_by_verbosity() {
    let quiet = Logger::default();
    assert!(quiet.reports(LoggingVerbosity::Error));
    assert!(quiet.reports(LoggingVerbosity::Warn));
    assert!(quiet.reports(LoggingVerbosity::Info));
    let warn = Logger::new(LoggingVerbosity::Warn);
    assert!(!warn.reports(LoggingVerbosity::Error));
    assert!(warn.reports(LoggingVerbosity::Warn));
    let info = Logger::new(LoggingVerbosity::Info);
    assert!(!info.reports(LoggingVerbosity::Warn));
    assert!(info.reports(LoggingVerbosity::Info));
    assert_eq!(LoggingVerbosity::default(), LoggingVerbosity::Error);
}

#[test]
fn type_is_written_as_a_block() {
    let t = pakken::graphql::Type {
        name: String::from("T"),
        fields: vec![Field { name: String::from("a"), typ: String::from("B!") }],
    };
    let code = t.generate();
    assert_eq!(code.id, "T");
    assert_eq!(code.code, "type T {\n\ta: B!,\n}");
}
