use arc_rs::parser::{ArcParser, SyntaxError};
use arc_rs::peg::Pair;
use arc_rs::rule::Rule;

fn parse_all(rule: Rule, text: &str) -> Option<Pair> {
    match ArcParser::parse(rule, text) {
        Ok(p) => {
            if p.end == text.chars().count() {
                Some(p)
            } else {
                None
            }
        }
        Err(_) => None,
    }
}

#[test]
fn integer_is_a_leaf() {
    let p = parse_all(Rule::Integer, "1_000").unwrap();
    assert_eq!(p.rule, Rule::Integer);
    assert_eq!(p.start, 0);
    assert_eq!(p.end, 5);
    assert!(p.children.is_empty());
}

#[test]
fn integer_stops_after_a_leading_zero() {
    let p = ArcParser::parse(Rule::Integer, "0123").unwrap();
    assert_eq!(p.end, 1);
}

#[test]
fn decimal_edge_forms_match_decimal_bad() {
    assert!(parse_all(Rule::DecimalBad, "1.").is_some());
    assert!(parse_all(Rule::DecimalBad, ".5").is_some());
    assert!(parse_all(Rule::Number, "1.").is_some());
    assert!(parse_all(Rule::Number, ".5").is_some());
}

#[test]
fn byte_literals_of_each_base() {
    let p = parse_all(Rule::Byte, "0b101").unwrap();
    assert_eq!(p.children[0].rule, Rule::Byte_BIN);
    let p = parse_all(Rule::Byte, "0o17").unwrap();
    assert_eq!(p.children[0].rule, Rule::Byte_OCT);
    let p = parse_all(Rule::Byte, "0xFF_px").unwrap();
    assert_eq!(p.children[0].rule, Rule::Byte_HEX);
    assert_eq!(p.children[1].rule, Rule::SYMBOL);
    assert_eq!((p.children[1].start, p.children[1].end), (5, 7));
}

#[test]
fn program_with_scopes_and_pairs() {
    let text = "{a}\nx=1\n{b}\ny=2\n{a}\nz=3";
    let p = parse_all(Rule::program, text).unwrap();
    let rules: Vec<Rule> = p.children.iter().map(|c| c.rule).collect();
    assert_eq!(rules, vec![Rule::dict_scope, Rule::dict_scope, Rule::dict_scope, Rule::EOI]);
}

#[test]
fn nested_comments_are_skipped() {
    let text = "/* a /* b */ c */ x = 1 // tail\n";
    let p = parse_all(Rule::program, text).unwrap();
    assert_eq!(p.children[0].rule, Rule::dict_pair);
}

#[test]
fn data_takes_the_first_alternative_that_matches() {
    let p = parse_all(Rule::data, "true").unwrap();
    assert_eq!(p.children[0].rule, Rule::Special);
    let p = parse_all(Rule::data, "hello world").unwrap();
    assert_eq!(p.children[0].rule, Rule::InlineString);
    let p = parse_all(Rule::data, "[1, \"s\", null, {k: 2}]").unwrap();
    assert_eq!(p.children[0].rule, Rule::list_literal);
    assert_eq!(p.children[0].children.len(), 4);
}

#[test]
fn mismatch_reports_the_furthest_failure() {
    match ArcParser::parse(Rule::program, "x = 1\ny = ") {
        Err(SyntaxError::Mismatch { at, expected }) => {
            assert_eq!(at.offset, 10);
            assert_eq!(at.byte, 10);
            assert_eq!(at.line, 1);
            assert_eq!(at.column, 4);
            assert!(expected.contains(&Rule::data));
        }
        other => panic!("{:?}", other),
    }
}

#[test]
fn deep_nesting_is_rejected() {
    let mut text = String::new();
    for _ in 0..500 {
        text.push('[');
    }
    match ArcParser::parse(Rule::data, &text) {
        Err(SyntaxError::TooDeep) => {}
        other => panic!("{:?}", other),
    }
}

#[test]
fn directives_are_recognised() {
    let text = "@include ( \"a.arc\" , base )";
    let p = parse_all(Rule::include_statement, text).unwrap();
    let rules: Vec<Rule> = p.children.iter().map(|c| c.rule).collect();
    assert_eq!(rules, vec![Rule::StringNormal, Rule::SYMBOL]);
    assert!(parse_all(Rule::import_statement, "@import('b', x)").is_some());
    assert!(parse_all(Rule::import_statement, "@import('b')").is_none());
}

#[test]
fn strings_keep_white_space_and_comment_marks() {
    let p = parse_all(Rule::String, "\" a /* b */ // c \"").unwrap();
    let body = &p.children[0].children[0];
    assert_eq!(body.rule, Rule::StringQuotation);
    assert_eq!((body.start, body.end), (1, 17));
}

#[test]
fn paths_allow_no_white_space() {
    let p = ArcParser::parse(Rule::namespace, "a . b").unwrap();
    assert_eq!(p.end, 1);
    let p = parse_all(Rule::namespace, "a.\"b c\".3").unwrap();
    assert_eq!(p.children.len(), 3);
    assert_eq!(p.children[2].children[0].rule, Rule::Integer);
}

#[test]
fn the_depth_limit_can_be_chosen() {
    let chars: Vec<char> = "[[1]]".chars().collect();
    assert!(ArcParser::parse_chars(Rule::data, &chars, 12).is_ok());
    match ArcParser::parse_chars(Rule::data, &chars, 5) {
        Err(SyntaxError::TooDeep) => {}
        other => panic!("{:?}", other),
    }
    match ArcParser::parse_chars(Rule::data, &chars, 0) {
        Err(SyntaxError::TooDeep) => {}
        other => panic!("{:?}", other),
    }
}

#[test]
fn places_in_a_text() {
    let chars: Vec<char> = "aé\n\u{10348}b".chars().collect();
    let p = arc_rs::parser::locate(&chars, 0);
    assert_eq!((p.offset, p.byte, p.line, p.column), (0, 0, 0, 0));
    let p = arc_rs::parser::locate(&chars, 3);
    assert_eq!((p.offset, p.byte, p.line, p.column), (3, 4, 1, 0));
    let p = arc_rs::parser::locate(&chars, 5);
    assert_eq!((p.offset, p.byte, p.line, p.column), (5, 9, 1, 2));
}

#[test]
fn the_first_failure_at_the_furthest_place_comes_first() {
    match ArcParser::parse(Rule::Integer, "x") {
        Err(SyntaxError::Mismatch { at, expected }) => {
            assert_eq!(at.offset, 0);
            assert_eq!(expected, vec![Rule::Integer]);
        }
        other => panic!("{:?}", other),
    }
    match ArcParser::parse(Rule::SignedNumber, "-x") {
        Err(SyntaxError::Mismatch { at, expected }) => {
            assert_eq!(at.offset, 1);
            assert_eq!(expected, vec![Rule::Integer, Rule::Decimal, Rule::DecimalBad]);
        }
        other => panic!("{:?}", other),
    }
}
