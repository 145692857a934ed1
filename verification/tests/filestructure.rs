use pakken::code::{CodeFragment, CodePage, GeneratedCode};
use pakken::error::PakError;
use pakken::filestructure::{FileStructure, Found, SaveStep};
use pakken::generator::Generator;
use pakken::Merge;

fn generated(id: &str, text: &str) -> CodeFragment {
    CodeFragment::Generated(GeneratedCode { code: String::from(text), id: String::from(id) })
}

fn frozen(id: &str, text: &str) -> CodeFragment {
    CodeFragment::NotGenerated(GeneratedCode { code: String::from(text), id: String::from(id) })
}

fn file(name: &str, fragments: Vec<CodeFragment>) -> FileStructure {
    FileStructure::File(String::from(name), CodePage { fragments, comment_string: "//" })
}

fn dir(name: &str, content: Vec<FileStructure>) -> FileStructure {
    FileStructure::Dir(String::from(name), content)
}

#[test]
fn names_are_read() {
    assert_eq!(file("a.ts", vec![]).get_name(), "a.ts");
    assert_eq!(dir("src", vec![]).get_name(), "src");
}

#[test]
fn entries_are_found_by_name() {
    let tree = dir("src", vec![file("a", vec![]), dir("b", vec![]), file("b", vec![])]);
    assert_eq!(tree.find("a"), Some((0, &file("a", vec![]))));
    assert_eq!(tree.find("b"), Some((1, &dir("b", vec![]))));
    assert_eq!(tree.find("c"), None);
    assert_eq!(file("a", vec![]).find("a"), None);
    let content = vec![file("x", vec![]), file("y", vec![])];
    assert_eq!(FileStructure::find_in_content(&content, "y"), Some((1, &content[1])));
    assert_eq!(FileStructure::find_in_content(&content, "z"), None);
}

#[test]
fn files_of_one_name_merge_their_pages() {
    let fresh = file("a", vec![generated("X", "new")]);
    let existing = file("a", vec![frozen("X", "mine"), generated("Z", "old")]);
    assert_eq!(fresh.merge(&existing), file("a", vec![frozen("X", "mine")]));
}

#[test]
fn directories_merge_entry_by_entry() {
    let fresh = dir(
        "out",
        vec![
            file("a", vec![generated("A", "a2")]),
            dir("sub", vec![file("s", vec![generated("S", "s2")])]),
            file("new", vec![generated("N", "n")]),
        ],
    );
    let existing = dir(
        "out",
        vec![
            file("manual", vec![]),
            dir("sub", vec![file("s", vec![frozen("S", "mine")]), file("t", vec![])]),
            file("a", vec![generated("A", "a1")]),
        ],
    );
    let expected = dir(
        "out",
        vec![
            file("a", vec![generated("A", "a2")]),
            dir("sub", vec![file("s", vec![frozen("S", "mine")]), file("t", vec![])]),
            file("new", vec![generated("N", "n")]),
            file("manual", vec![]),
        ],
    );
    assert_eq!(fresh.merge(&existing), expected);
}

#[test]
fn trees_that_do_not_match_stand_side_by_side() {
    let a = file("a", vec![]);
    let b = file("b", vec![]);
    assert_eq!(a.merge(&b), dir("./", vec![file("a", vec![]), file("b", vec![])]));
    let d = dir("a", vec![]);
    assert_eq!(a.merge(&d), dir("./", vec![file("a", vec![]), dir("a", vec![])]));
    assert_eq!(d.merge(&a), dir("./", vec![dir("a", vec![]), file("a", vec![])]));
    assert_eq!(
        dir("x", vec![]).merge(&dir("y", vec![])),
        dir("./", vec![dir("x", vec![]), dir("y", vec![])])
    );
}

#[test]
fn reconcile_merges_only_where_something_is_on_disk() {
    let fresh = file("a", vec![generated("X", "new")]);
    let existing = file("a", vec![frozen("X", "mine")]);
    assert_eq!(Generator::reconcile(&fresh, None), fresh);
    assert_eq!(
        Generator::reconcile(&fresh, Some(&existing)),
        file("a", vec![frozen("X", "mine")])
    );
}

fn path(names: &[&str]) -> Vec<String> {
    names.iter().map(|n| String::from(*n)).collect()
}

#[test]
fn tree_is_saved_directories_first() {
    let tree = dir(
        "out",
        vec![
            file("a", vec![]),
            dir("sub", vec![file("s", vec![generated("S", "s")]), dir("empty", vec![])]),
            file("z", vec![]),
        ],
    );
    let banner = CodePage { fragments: vec![], comment_string: "//" }.build();
    assert_eq!(
        tree.save_plan(),
        vec![
            SaveStep::Directory(path(&["out"])),
            SaveStep::Page(path(&["out", "a"]), banner.clone()),
            SaveStep::Directory(path(&["out", "sub"])),
            SaveStep::Page(
                path(&["out", "sub", "s"]),
                format!("{}\n// @GENERATED S\ns\n// @END\n", banner)
            ),
            SaveStep::Directory(path(&["out", "sub", "empty"])),
            SaveStep::Page(path(&["out", "z"]), banner.clone()),
        ]
    );
    assert_eq!(file("f", vec![]).save_plan(), vec![SaveStep::Page(path(&["f"]), banner)]);
}

#[test]
fn shadow_holds_what_lies_on_disk() {
    let template = dir(
        "out",
        vec![
            file("a", vec![generated("A", "new")]),
            dir("sub", vec![file("s", vec![])]),
            file("gone", vec![]),
            dir("late", vec![]),
        ],
    );
    let found = Found::Dir(vec![
        Found::File(String::from("// banner\n// @NOT GENERATED A\nmine\n// @END\n")),
        Found::Dir(vec![Found::Missing]),
        Found::Missing,
    ]);
    assert_eq!(
        template.shadow_from(&found),
        Ok(Some(dir("out", vec![file("a", vec![frozen("A", "mine")]), dir("sub", vec![])])))
    );
    assert_eq!(template.shadow_from(&Found::Missing), Ok(None));
    assert_eq!(template.shadow_from(&Found::File(String::new())), Ok(None));
    assert_eq!(file("a", vec![]).shadow_from(&Found::Dir(vec![])), Ok(None));
    let broken = Found::Dir(vec![Found::Missing, Found::Dir(vec![Found::File(String::from(
        "// banner\n// @END\n",
    ))])]);
    assert_eq!(
        template.shadow_from(&broken),
        Err(PakError::CustomError(String::from(
            "found an end marker without a start marker before it"
        )))
    );
}
