use radia::csg::Instruction::{Complement, Difference, Intersection, PushPrimitive, Union};
use radia::csg::{validate_csg_instructions, FlatCSG, Instruction};
use radia::csg_parser::{parse_csg, CSGParseError};
use radia::names::NameMap;

fn prims() -> NameMap {
    let mut m = NameMap::new();
    m.insert("a".to_string(), 0);
    m.insert("b".to_string(), 1);
    m.insert("c".to_string(), 2);
    m.insert("shield_box1".to_string(), 7);
    m
}

fn parse(s: &str) -> Result<Vec<Instruction>, CSGParseError> {
    parse_csg(s, &prims()).map(|f| f.instructions)
}

#[test]
fn parse_respects_precedence() {
    assert_eq!(
        parse("a + b * c").unwrap(),
        vec![PushPrimitive(0), PushPrimitive(1), PushPrimitive(2), Intersection, Union]
    );
    assert_eq!(
        parse("a * b + c").unwrap(),
        vec![PushPrimitive(0), PushPrimitive(1), Intersection, PushPrimitive(2), Union]
    );
    assert_eq!(
        parse("a + b - c").unwrap(),
        vec![PushPrimitive(0), PushPrimitive(1), PushPrimitive(2), Difference, Union]
    );
}

#[test]
fn parse_is_left_associative() {
    assert_eq!(
        parse("a - b - c").unwrap(),
        vec![PushPrimitive(0), PushPrimitive(1), Difference, PushPrimitive(2), Difference]
    );
}

#[test]
fn parse_complement_binds_tightest() {
    assert_eq!(
        parse("!a * b").unwrap(),
        vec![PushPrimitive(0), Complement, PushPrimitive(1), Intersection]
    );
    assert_eq!(parse("!!a").unwrap(), vec![PushPrimitive(0), Complement, Complement]);
}

#[test]
fn parse_parentheses_and_whitespace() {
    let ins = parse("\t( a +b )\r\n* shield_box1 ").unwrap();
    assert_eq!(
        ins,
        vec![PushPrimitive(0), PushPrimitive(1), Union, PushPrimitive(7), Intersection]
    );
    assert!(validate_csg_instructions(&ins).is_ok());
    assert_eq!(parse("   ").unwrap(), vec![]);
}

#[test]
fn parse_fully_parenthesized_gives_post_order() {
    let ins = parse("((a + (!b)) - (c * a))").unwrap();
    assert_eq!(
        ins,
        vec![
            PushPrimitive(0),
            PushPrimitive(1),
            Complement,
            Union,
            PushPrimitive(2),
            PushPrimitive(0),
            Intersection,
            Difference
        ]
    );
    assert!(validate_csg_instructions(&ins).is_ok());
}

#[test]
fn parse_reports_mismatched_parentheses() {
    match parse("(a + b") {
        Err(CSGParseError::ShuntingYardError(m)) => assert_eq!(m, "Mismatched parentheses"),
        other => panic!("unexpected {:?}", other),
    }
    match parse("a + b)") {
        Err(CSGParseError::ShuntingYardError(m)) => assert_eq!(m, "Mismatched parentheses"),
        other => panic!("unexpected {:?}", other),
    }
}

#[test]
fn parse_reports_lex_errors() {
    assert!(matches!(parse("a & b"), Err(CSGParseError::LexError(_))));
    assert!(matches!(parse("a + unknown"), Err(CSGParseError::LexError(_))));
    // a name is the longest run of name characters: "ab" is not "a" then "b"
    assert!(matches!(parse("ab"), Err(CSGParseError::LexError(_))));
}

#[test]
fn parse_keeps_malformed_but_balanced_input() {
    // the translation does not check operator arity; validation does
    let ins = parse("a b").unwrap();
    assert_eq!(ins, vec![PushPrimitive(0), PushPrimitive(1)]);
    assert!(validate_csg_instructions(&ins).is_err());
    assert_eq!(parse("+ a").unwrap(), vec![PushPrimitive(0), Union]);
}

#[test]
fn name_map_replaces_on_insert() {
    let mut m = NameMap::new();
    m.insert("x".to_string(), 1);
    m.insert("y".to_string(), 2);
    m.insert("x".to_string(), 3);
    assert_eq!(m.len(), 2);
    assert_eq!(m.get(&"x".to_string()), Some(3));
    assert_eq!(m.get(&"y".to_string()), Some(2));
    assert_eq!(m.get(&"z".to_string()), None);
    assert!(m.contains(&"y".to_string()));
}

fn lex_message(s: &str) -> String {
    match parse(s) {
        Err(CSGParseError::LexError(m)) => m,
        other => panic!("unexpected {:?}", other),
    }
}

#[test]
fn lex_error_messages_show_the_rest_of_the_input() {
    assert_eq!(lex_message("a & b"), "Error(Error { input: \"& b\", code: TakeWhile1 })");
    assert_eq!(
        lex_message("a + unknown * b"),
        "Failure(Error { input: \"unknown * b\", code: Tag })"
    );
    assert_eq!(lex_message("  ab"), "Failure(Error { input: \"ab\", code: Tag })");
    assert_eq!(
        lex_message("a + \"q\""),
        "Error(Error { input: \"\\\"q\\\"\", code: TakeWhile1 })"
    );
}

#[test]
fn parsed_programs_evaluate_with_precedence() {
    // read as ((!a) * b) + (c - (a * b))
    let ins = parse("!a * b + c - a * b").unwrap();
    assert!(validate_csg_instructions(&ins).is_ok());
    let f = FlatCSG { instructions: ins };
    for mask in 0u64..8 {
        let a = mask & 1 != 0;
        let b = mask & 2 != 0;
        let c = mask & 4 != 0;
        let expected = (!a && b) || (c && !(a && b));
        assert_eq!(f.evaluate_bitmask(mask), expected, "mask {mask}");
    }
    // left association: a - b - c is (a - b) - c
    let f = FlatCSG { instructions: parse("a - b - c").unwrap() };
    for mask in 0u64..8 {
        let a = mask & 1 != 0;
        let b = mask & 2 != 0;
        let c = mask & 4 != 0;
        assert_eq!(f.evaluate_bitmask(mask), a && !b && !c);
    }
}
