use arc_rs::builder::{build_data, build_document, parse, parse_value, ParseError};
use arc_rs::peg::Pair;
use arc_rs::number::{Decimal, Number};
use arc_rs::parser::SyntaxError;
use arc_rs::rule::Rule;
use arc_rs::scalar::Fault;
use arc_rs::value::{Dict, KeyNode, KeyPath, Value};

fn num(n: u64) -> Value {
    Value::Number(Number::PosInt(n))
}

fn text(s: &str) -> Value {
    Value::String(s.to_string())
}

fn dict(entries: Vec<(&str, Value)>) -> Dict {
    let mut d = Dict::new();
    for (k, v) in entries {
        d.insert(k.to_string(), v);
    }
    d
}

fn float(negative: bool, coefficient: u64, exponent: i32) -> Value {
    Value::Number(Number::Float(Decimal { negative, coefficient, exponent }))
}

#[test]
fn numeric_bases() {
    assert_eq!(parse_value("0b101").unwrap(), num(5));
    assert_eq!(parse_value("0o17").unwrap(), num(15));
    assert_eq!(parse_value("0xFF").unwrap(), num(255));
    assert_eq!(parse_value("0Xff").unwrap(), num(255));
}

#[test]
fn decimal_edge_cases() {
    assert_eq!(parse_value("1.").unwrap(), float(false, 1, 0));
    assert_eq!(parse_value(".5").unwrap(), float(false, 5, -1));
    assert_eq!(parse_value("-.5").unwrap(), float(true, 5, -1));
}

#[test]
fn decimals_keep_their_digits() {
    assert_eq!(parse_value("1.50").unwrap(), float(false, 150, -2));
    assert_eq!(parse_value("0.05").unwrap(), float(false, 5, -2));
    assert_eq!(parse_value("1_000.000_1").unwrap(), float(false, 10000001, -4));
}

#[test]
fn exponents_shift_the_point() {
    assert_eq!(parse_value("1e5").unwrap(), float(false, 1, 5));
    assert_eq!(parse_value("1.5E-3").unwrap(), float(false, 15, -4));
    assert_eq!(parse_value("-2**10").unwrap(), float(true, 2, 10));
    assert_eq!(parse_value("2e+3").unwrap(), float(false, 2, 3));
}

#[test]
fn integers_with_signs_and_separators() {
    assert_eq!(parse_value("1_000").unwrap(), num(1000));
    assert_eq!(parse_value("+7").unwrap(), num(7));
    assert_eq!(parse_value("-7").unwrap(), Value::Number(Number::NegInt(-7)));
    assert_eq!(parse_value("-0").unwrap(), num(0));
    assert_eq!(parse_value("18446744073709551615").unwrap(), num(u64::MAX));
    assert_eq!(
        parse_value("-9223372036854775808").unwrap(),
        Value::Number(Number::NegInt(i64::MIN))
    );
}

#[test]
fn integer_overflow_is_a_literal_error() {
    match parse_value("18446744073709551616") {
        Err(ParseError::Literal(e)) => {
            assert_eq!(e.kind, Fault::Overflow);
            assert_eq!((e.start, e.end), (0, 20));
        }
        other => panic!("{:?}", other),
    }
    match parse_value("-9223372036854775809") {
        Err(ParseError::Literal(e)) => assert_eq!(e.kind, Fault::Overflow),
        other => panic!("{:?}", other),
    }
    match parse_value("0x10000000000000000") {
        Err(ParseError::Literal(e)) => assert_eq!(e.kind, Fault::Overflow),
        other => panic!("{:?}", other),
    }
    match parse_value("1e99999999999") {
        Err(ParseError::Literal(e)) => assert_eq!(e.kind, Fault::Overflow),
        other => panic!("{:?}", other),
    }
}

#[test]
fn tagged_numbers() {
    assert_eq!(
        parse_value("12px").unwrap(),
        Value::HandlerNumber("px".to_string(), Number::PosInt(12))
    );
    assert_eq!(
        parse_value("0xFF_rgb").unwrap(),
        Value::HandlerNumber("rgb".to_string(), Number::PosInt(255))
    );
}

#[test]
fn special_words() {
    assert_eq!(parse_value("true").unwrap(), Value::Boolean(true));
    assert_eq!(parse_value("false").unwrap(), Value::Boolean(false));
    assert_eq!(parse_value("null").unwrap(), Value::Null);
}

#[test]
fn strings_and_escapes() {
    assert_eq!(parse_value("\"a b\"").unwrap(), text("a b"));
    assert_eq!(parse_value("' a'").unwrap(), text(" a"));
    assert_eq!(parse_value(r#""a\"b\\c\nd\te\rf\qg""#).unwrap(), text("a\"b\\c\nd\te\rfqg"));
    assert_eq!(parse_value(r#"'it\'s'"#).unwrap(), text("it's"));
    assert_eq!(parse_value("\"\"").unwrap(), text(""));
}

#[test]
fn tagged_strings() {
    assert_eq!(
        parse_value("re\"a+\"").unwrap(),
        Value::HandlerString("re".to_string(), "a+".to_string())
    );
}

#[test]
fn bare_words_are_strings() {
    assert_eq!(parse_value("hello world").unwrap(), text("hello world"));
}

#[test]
fn cite() {
    let v = parse_value("$a.b.3").unwrap();
    let path = KeyPath(vec![
        KeyNode::Key("a".to_string()),
        KeyNode::Key("b".to_string()),
        KeyNode::Index(3),
    ]);
    assert_eq!(v, Value::Cite(path));
    assert_eq!(v.to_text(), "$a.b.3");
}

#[test]
fn import_is_kept_as_a_record() {
    let v = parse_value("@import(\"lib/base.arc\", base)").unwrap();
    let inner = Value::HandlerString("base".to_string(), "lib/base.arc".to_string());
    assert_eq!(v, Value::Record("import".to_string(), Box::new(inner)));
}

#[test]
fn inline_lists_and_dicts() {
    let v = parse_value("[1, \"s\", null, true, [2; 3], {k: 4, m.n = 5,}]").unwrap();
    let inner = dict(vec![("k", num(4)), ("m", Value::Dict(dict(vec![("n", num(5))])))]);
    let expected = Value::List(vec![
        num(1),
        text("s"),
        Value::Null,
        Value::Boolean(true),
        Value::List(vec![num(2), num(3)]),
        Value::Dict(inner),
    ]);
    assert_eq!(v, expected);
    assert_eq!(parse_value("[]").unwrap(), Value::List(vec![]));
    assert_eq!(parse_value("{ }").unwrap(), Value::Dict(Dict::new()));
}

#[test]
fn later_pairs_overwrite_earlier_ones_in_place() {
    let v = parse_value("{a: 1, b: 2, a: 3}").unwrap();
    assert_eq!(v, Value::Dict(dict(vec![("a", num(3)), ("b", num(2))])));
    assert_eq!(v.to_text(), "{\n    a: 3,\n    b: 2,\n}");
}

#[test]
fn namespace_merge() {
    let v = parse("{a}\nx=1\n{b}\ny=2\n{a}\nz=3").unwrap();
    let a = dict(vec![("x", num(1)), ("z", num(3))]);
    let b = dict(vec![("y", num(2))]);
    assert_eq!(v, Value::Dict(dict(vec![("a", Value::Dict(a)), ("b", Value::Dict(b))])));
}

#[test]
fn list_forms() {
    let v = parse("[ns]\n* k=1\n& 2,\n& 3").unwrap();
    let first = Value::Dict(dict(vec![("k", num(1))]));
    let list = Value::List(vec![first, num(2), num(3)]);
    assert_eq!(v, Value::Dict(dict(vec![("ns", list)])));
}

#[test]
fn a_bare_word_takes_the_rest_of_an_append_line() {
    let v = parse("[ns]\n* k=1\n& 2\n& 3").unwrap();
    let first = Value::Dict(dict(vec![("k", num(1))]));
    let list = Value::List(vec![first, num(2), text("& 3")]);
    assert_eq!(v, Value::Dict(dict(vec![("ns", list)])));
}

#[test]
fn list_scopes_merge_too() {
    let v = parse("[l]\n& 1,\n{d}\nk = v\n[l]\n& 2").unwrap();
    let l = Value::List(vec![num(1), num(2)]);
    let d = Value::Dict(dict(vec![("k", text("v"))]));
    assert_eq!(v, Value::Dict(dict(vec![("l", l), ("d", d)])));
}

#[test]
fn headers_name_nested_dictionaries() {
    let v = parse("{a.b}\nc.d = 1\n{a}\ne = 2\n{empty}").unwrap();
    let b = dict(vec![("c", Value::Dict(dict(vec![("d", num(1))])))]);
    let a = dict(vec![("b", Value::Dict(b)), ("e", num(2))]);
    let expected = dict(vec![("a", Value::Dict(a)), ("empty", Value::Dict(Dict::new()))]);
    assert_eq!(v, Value::Dict(expected));
}

#[test]
fn pairs_under_no_header_make_a_free_dict() {
    let v = parse("x = 1\ny: two\n").unwrap();
    assert_eq!(v, Value::FreeDict(dict(vec![("x", num(1)), ("y", text("two"))])));
    assert_eq!(v.get_key("x"), &num(1));
    assert_eq!(parse("").unwrap(), Value::Dict(Dict::new()));
    assert_eq!(parse("  // nothing\n").unwrap(), Value::Dict(Dict::new()));
}

#[test]
fn numbers_and_quoted_words_as_keys() {
    let v = parse("{servers.0}\n\"host name\" = a\n1 = b").unwrap();
    let zero = dict(vec![("host name", text("a")), ("1", text("b"))]);
    let servers = dict(vec![("0", Value::Dict(zero))]);
    assert_eq!(v, Value::Dict(dict(vec![("servers", Value::Dict(servers))])));
}

#[test]
fn identifiers_beyond_ascii() {
    let v = parse("{größe}\nñandú = 1").unwrap();
    let inner = dict(vec![("ñandú", num(1))]);
    assert_eq!(v, Value::Dict(dict(vec![("größe", Value::Dict(inner))])));
    assert!(parse("{a\u{2028}b}").is_err());
}

#[test]
fn spaces_beyond_ascii_are_skipped() {
    let v = parse("x\u{00A0}=\u{3000}1").unwrap();
    assert_eq!(v, Value::FreeDict(dict(vec![("x", num(1))])));
}

#[test]
fn syntax_errors_carry_the_place() {
    match parse("x = 1\ny = [1, 2") {
        Err(ParseError::Syntax(SyntaxError::Mismatch { at, expected })) => {
            assert_eq!(at.line, 1);
            assert!(at.offset >= 10);
            assert!(!expected.is_empty());
        }
        other => panic!("{:?}", other),
    }
    match parse_value("1 2") {
        Err(ParseError::Syntax(SyntaxError::Mismatch { at, expected })) => {
            assert_eq!(at.offset, 1);
            assert_eq!(expected, vec![Rule::EOI]);
        }
        other => panic!("{:?}", other),
    }
}

#[test]
fn byte_offsets_count_utf8() {
    match parse("é = ]") {
        Err(ParseError::Syntax(SyntaxError::Mismatch { at, .. })) => {
            assert_eq!(at.offset, 4);
            assert_eq!(at.byte, 5);
            assert_eq!(at.column, 4);
            assert_eq!(at.line, 0);
        }
        other => panic!("{:?}", other),
    }
}

#[test]
fn too_deep_documents_are_rejected() {
    let mut s = String::from("x = ");
    for _ in 0..200 {
        s.push('[');
    }
    for _ in 0..200 {
        s.push(']');
    }
    match parse(&s) {
        Err(ParseError::Syntax(SyntaxError::TooDeep)) => {}
        other => panic!("{:?}", other),
    }
    let mut ok = String::from("x = ");
    for _ in 0..50 {
        ok.push('[');
    }
    for _ in 0..50 {
        ok.push(']');
    }
    assert!(parse(&ok).is_ok());
}

#[test]
fn a_tree_of_the_wrong_shape_is_malformed() {
    let input: Vec<char> = "12".chars().collect();
    let empty = Pair { rule: Rule::data, start: 0, end: 2, children: vec![] };
    let e = build_data(&empty, &input).unwrap_err();
    assert_eq!((e.kind, e.start, e.end), (Fault::Malformed, 0, 2));
    let leaf = Pair { rule: Rule::Integer, start: 0, end: 9, children: vec![] };
    let signed = Pair { rule: Rule::SignedNumber, start: 0, end: 2, children: vec![leaf] };
    let number = Pair { rule: Rule::Number, start: 0, end: 2, children: vec![signed] };
    let data = Pair { rule: Rule::data, start: 0, end: 2, children: vec![number] };
    let e = build_data(&data, &input).unwrap_err();
    assert_eq!((e.kind, e.start, e.end), (Fault::Malformed, 0, 9));
    let root = Pair { rule: Rule::program, start: 0, end: 2, children: vec![data] };
    let e = build_document(&root, &input).unwrap_err();
    assert_eq!(e.kind, Fault::Malformed);
}

#[test]
fn a_dictionary_literal_at_the_top_fills_the_document() {
    let v = parse("{a: 1, b: [2]}\nc = 3").unwrap();
    let expected = dict(vec![("a", num(1)), ("b", Value::List(vec![num(2)])), ("c", num(3))]);
    assert_eq!(v, Value::FreeDict(expected));
}

#[test]
fn a_value_in_the_way_gives_way() {
    let v = parse("a = 1\na.b = 2\n[a.b]\n& 3,\n{a.b}\nc = 4").unwrap();
    let b = dict(vec![("c", num(4))]);
    let a = dict(vec![("b", Value::Dict(b))]);
    assert_eq!(v, Value::FreeDict(dict(vec![("a", Value::Dict(a))])));
}

#[test]
fn dots_before_a_header_path_change_nothing() {
    let v = parse("{ . . a.b }\nc = 1\n[..l]\n& 2").unwrap();
    let b = dict(vec![("c", num(1))]);
    let a = dict(vec![("b", Value::Dict(b))]);
    let expected = dict(vec![("a", Value::Dict(a)), ("l", Value::List(vec![num(2)]))]);
    assert_eq!(v, Value::Dict(expected));
}

fn next_random(state: &mut u64) -> u64 {
    *state = state.wrapping_mul(6364136223846793005).wrapping_add(1442695040888963407);
    *state >> 33
}

#[test]
fn what_the_grammar_accepts_is_never_malformed() {
    let pieces = [
        "a", "b1", "_", "0", "7", "12", "-", "+", ".", "e", "E", "**", "0x", "0b1", "0o7", "f",
        "\"", "'", "\\", "x y", " ", "\n", "\t", ",", ";", "=", ":", "{", "}", "[", "]", "*",
        "&", "$", "true", "false", "null", "//", "/*", "*/", "@import", "(", ")", "é",
    ];
    let mut state: u64 = 0x2545F4914F6CDD1D;
    let mut accepted = 0;
    for _ in 0..4000 {
        let n = 1 + next_random(&mut state) % 12;
        let mut text = String::new();
        for _ in 0..n {
            text.push_str(pieces[(next_random(&mut state) % pieces.len() as u64) as usize]);
        }
        for r in [parse(&text), parse_value(&text)] {
            match r {
                Ok(_) => accepted += 1,
                Err(ParseError::Literal(e)) => assert_eq!(e.kind, Fault::Overflow, "{:?}", text),
                Err(ParseError::Syntax(_)) => {}
            }
        }
    }
    assert!(accepted > 100);
}
