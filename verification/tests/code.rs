use pakken::code::{CodeFragment, CodePage, GeneratedCode};
use pakken::error::PakError;
use pakken::Merge;

const BANNER: &str = " THIS FILE IS GENERATED BY PAKKEN. EVERY FRAGMENT MARKED WITH @GENERATED WILL BE OVERRIDEN ON THE NEXT GENERATION. TO PREVENT THIS CHANGE IT TO @NOT GENERATED.";

fn code(id: &str, code: &str) -> GeneratedCode {
    GeneratedCode { code: String::from(code), id: String::from(id) }
}

fn generated(id: &str, text: &str) -> CodeFragment {
    CodeFragment::Generated(code(id, text))
}

fn frozen(id: &str, text: &str) -> CodeFragment {
    CodeFragment::NotGenerated(code(id, text))
}

fn other(text: &str) -> CodeFragment {
    CodeFragment::Other(String::from(text))
}

fn page(comment: &'static str, fragments: Vec<CodeFragment>) -> CodePage {
    CodePage { fragments, comment_string: comment }
}

#[test]
fn markers_follow_the_comment_token() {
    assert_eq!(CodePage::start_generated_str("//"), "// @GENERATED");
    assert_eq!(CodePage::start_not_generated_str("#"), "# @NOT GENERATED");
    assert_eq!(CodePage::end_comment_str("--"), "-- @END");
}

#[test]
fn empty_page_builds_to_the_banner() {
    let built = CodePage::default("//").build();
    assert_eq!(built, format!("//{}", BANNER));
}

#[test]
fn page_builds_with_markers() {
    let mut p = CodePage::default("//");
    p.add(code("User", "class User {\n}").to_fragment());
    p.add(other("import x;"));
    p.add(frozen("Pet", "class Pet {}"));
    let expected = format!(
        "//{}\n// @GENERATED User\nclass User {{\n}}\n// @END\n\nimport x;\n\n// @NOT GENERATED Pet\nclass Pet {{}}\n// @END\n",
        BANNER
    );
    assert_eq!(p.build(), expected);
}

#[test]
fn build_then_read_gives_the_page_back() {
    let p = page(
        "#",
        vec![
            other("free text\nover two lines"),
            generated("User", "type User {\n\tname: String!,\n}"),
            generated("schema", "schema {\n}\n\ntype Query {\n}"),
            frozen("Pet", "type Pet {\n\tname: String,\n}"),
            other("the end"),
        ],
    );
    let read = CodePage::from("#", p.build().as_str()).unwrap();
    assert_eq!(read, p);
}

#[test]
fn plain_file_is_tolerated() {
    let read = CodePage::from("//", "no banner and no markers").unwrap();
    assert_eq!(read, page("//", vec![]));
    let read = CodePage::from("//", "").unwrap();
    assert_eq!(read, page("//", vec![]));
    let read = CodePage::from("//", "first line\nsome text\n\n  more text  \n").unwrap();
    assert_eq!(read, page("//", vec![other("some text\n\n  more text")]));
}

#[test]
fn hand_edited_markers_are_recognised() {
    let text = "// banner\n   // @GENERATED   User  \n  body\n\t// @END\ntail\n//@GENERATED no\n";
    let read = CodePage::from("//", text).unwrap();
    assert_eq!(
        read,
        page("//", vec![generated("User", "body"), other("tail\n//@GENERATED no")])
    );
}

#[test]
fn fragment_without_end_runs_to_the_end_of_the_text() {
    let read = CodePage::from("#", "# banner\n# @NOT GENERATED Pet\nline one\nline two").unwrap();
    assert_eq!(read, page("#", vec![frozen("Pet", "line one\nline two")]));
}

#[test]
fn end_without_start_is_an_error() {
    let result = CodePage::from("//", "// banner\nfree\n// @END\n");
    assert_eq!(
        result,
        Err(PakError::CustomError(String::from(
            "found an end marker without a start marker before it"
        )))
    );
    let lines: Vec<Vec<char>> = vec!["// @END".chars().collect()];
    assert!(CodePage::split_fragments("//", &lines).is_err());
}

#[test]
fn not_generated_is_found_by_id() {
    let p = page(
        "//",
        vec![generated("A", "g"), frozen("A", "first"), frozen("A", "second"), frozen("B", "b")],
    );
    assert_eq!(p.get_not_generated("A"), Some(code("A", "first")));
    assert_eq!(p.get_not_generated("B"), Some(code("B", "b")));
    assert_eq!(p.get_not_generated("C"), None);
}

#[test]
fn merge_with_own_output_changes_nothing() {
    let fresh = page("//", vec![generated("A", "a"), generated("B", "b")]);
    let shadow = CodePage::from("//", fresh.build().as_str()).unwrap();
    assert_eq!(shadow, fresh);
    assert_eq!(fresh.merge(&shadow), fresh);
}

#[test]
fn merge_keeps_what_the_user_took_over() {
    let fresh = page("//", vec![generated("X", "new x"), generated("Y", "new y")]);
    let existing = page(
        "//",
        vec![generated("Y", "old y"), frozen("X", "my x"), other("my notes")],
    );
    let merged = fresh.merge(&existing);
    assert_eq!(
        merged,
        page("//", vec![frozen("X", "my x"), other("my notes"), generated("Y", "new y")])
    );
}

#[test]
fn merge_drops_what_is_no_longer_generated() {
    let fresh = page("//", vec![generated("A", "a2")]);
    let existing = page("//", vec![generated("A", "a1"), generated("E", "e1")]);
    let merged = fresh.merge(&existing);
    assert_eq!(merged, page("//", vec![generated("A", "a2")]));
}

#[test]
fn merge_keeps_frozen_fragments_of_removed_entities() {
    let fresh = page("//", vec![generated("A", "a2")]);
    let existing = page("//", vec![frozen("E", "kept")]);
    assert_eq!(
        fresh.merge(&existing),
        page("//", vec![frozen("E", "kept"), generated("A", "a2")])
    );
}

#[test]
fn errors_have_messages() {
    assert_eq!(PakError::CustomError(String::from("x")).message(), "error: x");
    assert_eq!(PakError::IoError(String::from("disk")).message(), "io-error: disk");
    assert_eq!(PakError::NotAProject.message(), "this is not a pakken project.");
    assert_eq!(PakError::ProjectReadError.message(), "could not read project file");
    assert_eq!(
        PakError::SerializationError(String::from("bad")).message(),
        "serialization error: bad"
    );
    assert_eq!(
        PakError::TargetNotFound(String::from("rust")).message(),
        "could not locate the target `rust`"
    );
    assert_eq!(PakError::ParserError(String::from("p")).message(), "parser error: p");
}
