use pakken::ast::{Entity, Identifying, Multiplicity, Namespace, Number, Scalar};
use pakken::buffer::Buffer;
use pakken::generator::{Transform, Within};
use pakken::parser::parse_model;
use pakken::text::{
    extend, is_whitespace, join, push_decimal, same, split_lines, starts_with, tail, to_chars,
    to_text, trim,
};
use pakken::typescript::{Class, Interface, Typed};
use pakken::Generate;

fn chars(s: &str) -> Vec<char> {
    s.chars().collect()
}

#[test]
fn text_goes_to_characters_and_back() {
    assert_eq!(to_chars("aé\n"), vec!['a', 'é', '\n']);
    assert_eq!(to_text(&vec!['x', 'ß', ' ']), "xß ");
    assert_eq!(to_chars(""), Vec::<char>::new());
}

#[test]
fn white_space_is_trimmed_at_both_ends() {
    assert_eq!(trim(&chars(" \t a b \n\u{a0}")), chars("a b"));
    assert_eq!(trim(&chars("\n \r\n")), chars(""));
    assert_eq!(trim(&chars("ab")), chars("ab"));
    assert_eq!(trim(&chars("")), chars(""));
    assert!(is_whitespace('\u{3000}'));
    assert!(is_whitespace('\u{2003}'));
    assert!(!is_whitespace('\u{200b}'));
    assert!(!is_whitespace('a'));
    for c in ['\u{0}', '\u{8}', ' ', '\u{85}', '\u{1680}', '\u{2028}', '\u{205f}', 'x', '\u{feff}'] {
        assert_eq!(is_whitespace(c), c.is_whitespace());
    }
}

#[test]
fn text_is_split_at_line_feeds() {
    assert_eq!(split_lines(&chars("")), vec![chars("")]);
    assert_eq!(split_lines(&chars("a")), vec![chars("a")]);
    assert_eq!(split_lines(&chars("a\n\nb\n")), vec![chars("a"), chars(""), chars("b"), chars("")]);
}

#[test]
fn texts_are_compared_and_cut() {
    assert!(same(&chars("abc"), &chars("abc")));
    assert!(!same(&chars("abc"), &chars("abd")));
    assert!(!same(&chars("abc"), &chars("ab")));
    assert!(starts_with(&chars("abc"), &chars("ab")));
    assert!(starts_with(&chars("abc"), &chars("")));
    assert!(!starts_with(&chars("ab"), &chars("abc")));
    assert!(!starts_with(&chars("abc"), &chars("b")));
    assert_eq!(tail(&chars("abc"), 1), chars("bc"));
    assert_eq!(tail(&chars("abc"), 3), chars(""));
    let mut v = chars("ab");
    extend(&mut v, &chars("cd"));
    assert_eq!(v, chars("abcd"));
}

#[test]
fn numbers_are_written_in_decimal() {
    let mut out = String::from("n=");
    push_decimal(&mut out, 0);
    push_decimal(&mut out, 7);
    push_decimal(&mut out, 10);
    push_decimal(&mut out, 1234567890);
    assert_eq!(out, "n=07101234567890");
    let mut max = String::new();
    push_decimal(&mut max, usize::MAX);
    assert_eq!(max, usize::MAX.to_string());
}

#[test]
fn texts_are_joined() {
    let parts = vec![String::from("a"), String::from(""), String::from("c")];
    assert_eq!(join(&parts, ", "), "a, , c");
    assert_eq!(join(&vec![String::from("a")], ", "), "a");
    assert_eq!(join(&vec![], ", "), "");
}

#[test]
fn pushed_text_is_indented_after_line_feeds() {
    let mut buf = Buffer::default();
    buf.indent();
    buf.indent();
    buf.push("a\nb\n");
    buf.push("c\n\nd");
    assert_eq!(buf.flush(), "a\n\t\tb\nc\n\t\t\n\t\td");
    let mut flat = Buffer::default();
    flat.unindent();
    flat.new_line();
    flat.push("a\nb");
    assert_eq!(flat.flush(), "\na\nb");
}

#[test]
fn buffers_are_added() {
    let mut inner = Buffer::default();
    inner.push("x\ny");
    let mut outer = Buffer::default();
    outer.indent();
    let sum = outer + inner;
    assert_eq!(sum.flush(), "x\n\ty");
}

#[test]
fn typed_values_have_names() {
    let class = Class {
        name: String::from("User"),
        extends: Some(String::from("Base")),
        implements: Some(vec![String::from("IUser"), String::from("Other")]),
        attributes: vec![String::from("public a: A")],
        operations: vec![],
    };
    assert_eq!(
        class.generate().code,
        "export class User extends Base implements IUser, Other {\n\tpublic a: A;\n}"
    );
    let interface = Interface {
        name: String::from("IUser"),
        extends: Some(vec![String::from("A"), String::from("B")]),
        attributes: vec![],
        operations: vec![String::from("f();")],
    };
    let code = interface.generate();
    assert_eq!(code.id, "IUser");
    assert_eq!(code.code, "export interface IUser extends A, B {\n\tf();\n}");
    let several = Typed::Vec(vec![Typed::Class(class), Typed::Interface(interface)]);
    assert_eq!(several.identifier(), "User");
    assert!(!several.is_some());
    assert!(Typed::Scalar(String::from("number")).is_some());
    assert_eq!(Typed::Scalar(String::from("number")).identifier(), "number");
    assert!(!Typed::Nothing.is_some());
}

#[test]
fn entities_are_transformed_within_their_namespace() {
    let namespace = parse_model("m { enum E { A } S { e: E } }").unwrap();
    let scalar =
        <Typed as Transform<Within<Entity>>>::transform(&Within {
            namespace: &namespace,
            part: &namespace.entities[4],
        });
    assert_eq!(scalar, Typed::Scalar(String::from("number")));
    let nothing = <Typed as Transform<Within<Entity>>>::transform(&Within {
        namespace: &namespace,
        part: &namespace.entities[5],
    });
    assert_eq!(nothing, Typed::Nothing);
    let structure = <Typed as Transform<Within<Entity>>>::transform(&Within {
        namespace: &namespace,
        part: &namespace.entities[6],
    });
    assert_eq!(structure.identifier(), "S");
}

#[test]
fn entities_are_found_by_name() {
    let mut namespace = Namespace::new(String::from("a.b"));
    assert_eq!(namespace.identifier, "a.b");
    assert_eq!(namespace.find_entity(String::from("String")), None);
    namespace.add_entity(Entity::Scalar(Scalar::String));
    namespace.add_entity(Entity::Scalar(Scalar::Integer));
    namespace.add_entity(Entity::Scalar(Scalar::String));
    assert_eq!(namespace.find_entity(String::from("String")), Some(0));
    assert_eq!(namespace.find_entity(String::from("Integer")), Some(1));
    assert_eq!(namespace.find_entity(String::from("Double")), None);
    assert_eq!(namespace.entities[1].identifier(), "Integer");
    assert_eq!(Scalar::Character.identifier(), "Character");
    assert_eq!(Scalar::Boolean.identifier(), "Boolean");
    assert_eq!(Scalar::Double.identifier(), "Double");
}

#[test]
fn multiplicities_are_nullable_or_lists() {
    let cases = [
        (Multiplicity::Single, false, false),
        (Multiplicity::Optional, true, false),
        (Multiplicity::Concrete(Number::Discrete(0)), true, false),
        (Multiplicity::Concrete(Number::Discrete(2)), false, false),
        (Multiplicity::Concrete(Number::Infinity), false, false),
        (Multiplicity::UnderUpper(Number::Discrete(0), Number::Infinity), true, true),
        (Multiplicity::UnderUpper(Number::Discrete(1), Number::Discrete(2)), false, true),
        (Multiplicity::UnderUpper(Number::NegativeInfinity, Number::Infinity), false, true),
    ];
    for (multiplicity, nullable, list) in cases {
        assert_eq!(multiplicity.is_nullable(), nullable);
        assert_eq!(multiplicity.is_list(), list);
    }
}
