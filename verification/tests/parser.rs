use pakken::ast::{Entity, Multiplicity, Number};
use pakken::dangling::{resolve, DanglingEntity, Undangle};
use pakken::error::ParserError;
use pakken::grammar::{tokenize, FailureKind, Rule, TokenKind};
use pakken::parser::{lex, parse, parse_model, parse_source};

const EXAMPLE: &str = "org.mobile {\n    User {\n        name: String,\n        age: Integer?,\n        friends: User*,\n        greet(other: User, loud: Boolean): String,\n        reset()\n    }\n    Profile: User {\n        bio: String?,\n        tags: String{0..3}\n    }\n    enum Color { Red = 1, Green, Blue = 4 }\n}\n";

#[test]
fn parse_namespace_ok() {
    let code = "namespace.is.lit {}";
    let parsed = parse(code).expect("Should have parsed");
    assert_eq!(parsed.identifier, String::from("namespace.is.lit"));
    assert!(parsed.entities.is_empty());
}

#[test]
fn parse_namespace_fail() {
    let code = "namespace.is.lit";
    let parsed = parse(code);
    if let ParserError::ParsingError(_, _) = parsed.unwrap_err() {
        assert_eq!(true, true);
    } else {
        assert_eq!(true, false);
    }
}

#[test]
fn parse_structure() {
    let code = "Name { attribute: String, operation() }";
    let parsed = pakken::parser::parse_structure(code).expect("Should have parsed");
    assert_eq!(parsed.name, "Name");
    assert!(parsed.parent.is_none());
    assert_eq!(parsed.attributes.len(), 1);
    assert_eq!(parsed.attributes[0].name, "attribute");
    assert_eq!(parsed.attributes[0].entity, "String");
    assert_eq!(parsed.operations.len(), 1);
    assert_eq!(parsed.operations[0].name, "operation");
    assert!(parsed.operations[0].returns.is_none());
    assert!(parsed.operations[0].parameter.is_empty());
}

#[test]
fn test_lexer() {
    let res = lex(EXAMPLE);
    assert!(res.is_ok());
}

#[test]
fn test_parser() {
    match parse(EXAMPLE) {
        Ok(namespace) => {
            assert_eq!(namespace.identifier, "org.mobile");
        },
        Err(e) => {
            panic!("{}", e.message());
        },
    }
}

#[test]
fn example_is_parsed_in_full() {
    let namespace = parse(EXAMPLE).unwrap();
    assert_eq!(namespace.entities.len(), 3);
    match &namespace.entities[0] {
        DanglingEntity::Structure(user) => {
            assert_eq!(user.name, "User");
            assert_eq!(user.attributes.len(), 3);
            assert_eq!(user.attributes[1].multiplicity, Multiplicity::Optional);
            assert_eq!(user.operations.len(), 2);
            assert_eq!(user.operations[0].parameter.len(), 2);
            assert_eq!(user.operations[0].parameter[1].name, "loud");
            assert_eq!(user.operations[0].parameter[1].entity, "Boolean");
            assert_eq!(user.operations[0].returns, Some(String::from("String")));
            assert_eq!(user.operations[1].name, "reset");
        },
        _ => panic!("a structure comes first"),
    }
    match &namespace.entities[1] {
        DanglingEntity::Structure(profile) => {
            assert_eq!(profile.parent, Some(String::from("User")));
            assert_eq!(
                profile.attributes[1].multiplicity,
                Multiplicity::UnderUpper(Number::Discrete(0), Number::Discrete(3))
            );
        },
        _ => panic!("a structure comes second"),
    }
    match &namespace.entities[2] {
        DanglingEntity::Enum(color) => {
            assert_eq!(color.identifier, "Color");
            assert_eq!(
                color.values,
                vec![
                    (String::from("Red"), Some(1)),
                    (String::from("Green"), None),
                    (String::from("Blue"), Some(4))
                ]
            );
        },
        _ => panic!("an enumeration comes third"),
    }
}

fn multiplicity_of(suffix: &str) -> Multiplicity {
    let code = format!("S {{ a: String{} }}", suffix);
    pakken::parser::parse_structure(&code).unwrap().attributes[0].multiplicity
}

#[test]
fn multiplicity_sugar() {
    assert_eq!(
        multiplicity_of("*"),
        Multiplicity::UnderUpper(Number::Discrete(0), Number::Infinity)
    );
    assert_eq!(
        multiplicity_of("+"),
        Multiplicity::UnderUpper(Number::Discrete(1), Number::Infinity)
    );
    assert_eq!(multiplicity_of("?"), Multiplicity::Optional);
    assert_eq!(multiplicity_of("{0,1}"), Multiplicity::Optional);
    assert_eq!(multiplicity_of("{0..1}"), Multiplicity::Optional);
    assert_eq!(multiplicity_of(""), Multiplicity::Single);
}

#[test]
fn multiplicity_in_braces() {
    assert_eq!(multiplicity_of("{1}"), Multiplicity::Single);
    assert_eq!(multiplicity_of("{0}"), Multiplicity::Concrete(Number::Discrete(0)));
    assert_eq!(multiplicity_of("{7}"), Multiplicity::Concrete(Number::Discrete(7)));
    assert_eq!(
        multiplicity_of("{2..5}"),
        Multiplicity::UnderUpper(Number::Discrete(2), Number::Discrete(5))
    );
    assert_eq!(
        multiplicity_of("{..5}"),
        Multiplicity::UnderUpper(Number::Discrete(0), Number::Discrete(5))
    );
    assert_eq!(
        multiplicity_of("{2..}"),
        Multiplicity::UnderUpper(Number::Discrete(2), Number::Infinity)
    );
    assert_eq!(multiplicity_of("{..1}"), Multiplicity::Optional);
}

#[test]
fn empty_bodies_are_accepted() {
    let namespace = parse("a { B {} enum C {} }").unwrap();
    assert_eq!(namespace.entities.len(), 2);
}

#[test]
fn unterminated_block_is_rejected_at_the_end() {
    match parse("a {\n  B { x: String\n") {
        Err(ParserError::ParsingError(line, column)) => {
            assert_eq!((line, column), (3, 1));
        },
        other => panic!("{:?}", other),
    }
    let failure = parse_source("a {\n  B { x: String\n").unwrap_err();
    assert_eq!(failure.rule, Rule::feature);
    assert_eq!(failure.position, 20);
    assert_eq!(failure.kind, FailureKind::Syntax);
}

#[test]
fn unknown_token_is_rejected_where_it_stands() {
    match parse("a {\n  B { x: String; }\n}") {
        Err(ParserError::ParsingError(line, column)) => {
            assert_eq!((line, column), (2, 16));
        },
        other => panic!("{:?}", other),
    }
}

#[test]
fn text_after_the_namespace_is_rejected() {
    match parse("a {} b") {
        Err(ParserError::ParsingError(line, column)) => assert_eq!((line, column), (1, 6)),
        other => panic!("{:?}", other),
    }
}

#[test]
fn number_too_large_is_reported() {
    match parse("a { B { x: String{99999999999999999999999999} } }") {
        Err(ParserError::CustomError(line, column, reason)) => {
            assert_eq!((line, column), (1, 19));
            assert_eq!(reason, "number too large");
        },
        other => panic!("{:?}", other),
    }
}

#[test]
fn duplicate_entity_is_reported() {
    match parse("a {\nB {}\nB {}\n}") {
        Err(ParserError::CustomError(line, column, reason)) => {
            assert_eq!((line, column), (3, 1));
            assert_eq!(reason, "entity declared twice");
        },
        other => panic!("{:?}", other),
    }
    assert!(matches!(parse("a { String {} }"), Err(ParserError::CustomError(1, 5, _))));
}

#[test]
fn tokens_have_kinds_and_places() {
    let input: Vec<char> = "a.b {x..y}".chars().collect();
    let tokens = tokenize(&input).unwrap();
    let kinds: Vec<TokenKind> = tokens.iter().map(|t| t.kind).collect();
    assert_eq!(
        kinds,
        vec![
            TokenKind::Path,
            TokenKind::OpenBrace,
            TokenKind::Name,
            TokenKind::Range,
            TokenKind::Name,
            TokenKind::CloseBrace
        ]
    );
    assert_eq!((tokens[0].start, tokens[0].end), (0, 3));
    assert_eq!((tokens[3].start, tokens[3].end), (6, 8));
    let bad: Vec<char> = "a # b".chars().collect();
    assert_eq!(tokenize(&bad).unwrap_err().position, 2);
}

#[test]
fn references_are_resolved_to_places() {
    let namespace = parse_model(EXAMPLE).unwrap();
    assert_eq!(namespace.identifier, "org.mobile");
    assert_eq!(namespace.entities.len(), 8);
    let user = namespace.find_entity(String::from("User")).unwrap();
    assert_eq!(user, 5);
    let string = namespace.find_entity(String::from("String")).unwrap();
    match &namespace.entities[user] {
        Entity::Structure(structure) => {
            assert_eq!(structure.attributes[0].entity, string);
            assert_eq!(structure.attributes[2].entity, user);
            assert_eq!(structure.operations[0].parameter[0].entity, user);
            assert_eq!(structure.operations[0].returns, Some(string));
            assert_eq!(structure.operations[1].returns, None);
        },
        _ => panic!("User is a structure"),
    }
    for entity in &namespace.entities {
        if let Entity::Structure(structure) = entity {
            for attribute in &structure.attributes {
                assert!(attribute.entity < namespace.entities.len());
            }
        }
    }
}

#[test]
fn self_reference_resolves_to_the_structure_itself() {
    let namespace = parse_model("org.mobile { User { name: String, friends: User* } }").unwrap();
    let user = namespace.find_entity(String::from("User")).unwrap();
    match &namespace.entities[user] {
        Entity::Structure(structure) => {
            assert_eq!(structure.attributes[1].name, "friends");
            assert_eq!(structure.attributes[1].entity, user);
            assert_eq!(
                structure.attributes[1].multiplicity,
                Multiplicity::UnderUpper(Number::Discrete(0), Number::Infinity)
            );
        },
        _ => panic!("User is a structure"),
    }
}

#[test]
fn parent_resolves_to_the_earlier_structure() {
    let namespace =
        parse_model("m { User { name: String } Profile: User { bio: String? } }").unwrap();
    let user = namespace.find_entity(String::from("User")).unwrap();
    let profile = namespace.find_entity(String::from("Profile")).unwrap();
    match &namespace.entities[profile] {
        Entity::Structure(structure) => {
            assert_eq!(structure.parent, Some(user));
            assert_eq!(structure.attributes[0].multiplicity, Multiplicity::Optional);
        },
        _ => panic!("Profile is a structure"),
    }
}

#[test]
fn unknown_name_fails_with_unknown_entity() {
    match parse_model("m { User { pet: Dog } Dog {} }") {
        Err(ParserError::UnknownEntity(name)) => assert_eq!(name, "Dog"),
        other => panic!("{:?}", other),
    }
    let namespace = parse_model("m { User {} }").unwrap();
    assert!(matches!(resolve("Nobody", &namespace), Err(ParserError::UnknownEntity(_))));
    assert_eq!(resolve("User", &namespace).unwrap(), 5);
    assert_eq!(resolve("Boolean", &namespace).unwrap(), 1);
}

#[test]
fn names_are_resolved_in_order() {
    let code = "S: P { a: A, f(x: X): R, g(y: Y) }";
    let structure = pakken::parser::parse_structure(code).unwrap();
    let namespace = parse_model("m { A {} }").unwrap();
    match structure.undangle(&namespace) {
        Err(ParserError::UnknownEntity(name)) => assert_eq!(name, "X"),
        other => panic!("{:?}", other),
    }
    let namespace = parse_model("m { A {} X {} Y {} }").unwrap();
    match structure.undangle(&namespace) {
        Err(ParserError::UnknownEntity(name)) => assert_eq!(name, "R"),
        other => panic!("{:?}", other),
    }
    let namespace = parse_model("m { A {} X {} Y {} R {} }").unwrap();
    match structure.undangle(&namespace) {
        Err(ParserError::UnknownEntity(name)) => assert_eq!(name, "P"),
        other => panic!("{:?}", other),
    }
}

#[test]
fn parser_errors_have_messages() {
    assert_eq!(ParserError::ParsingError(3, 14).message(), "Parsing error at `3:14`;");
    assert_eq!(
        ParserError::CustomError(10, 2, String::from("why")).message(),
        "Parsing error at `10:2`: `why`;"
    );
    assert_eq!(ParserError::UnknownEntity(String::from("Dog")).message(), "Unknown entity `Dog`");
    assert_eq!(ParserError::InvalidRule(Rule::entity).message(), "Invalid Token found: `entity`");
    assert_eq!(ParserError::Line(120).message(), "Error at line `120`");
    assert_eq!(ParserError::NoToken.message(), "No Token found");
    assert_eq!(ParserError::Unhandled.message(), "Unhandled Error");
}
