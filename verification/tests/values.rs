use arc_rs::json::{BridgeError, JsonTree, Kind};
use arc_rs::number::{Decimal, Number};
use arc_rs::builder::parse_value;
use arc_rs::value::{Dict, KeyNode, KeyPath, Value};

fn num(n: u64) -> Value {
    Value::Number(Number::PosInt(n))
}

fn text(s: &str) -> Value {
    Value::String(s.to_string())
}

fn list3() -> Value {
    Value::List(vec![num(10), num(20), num(30)])
}

#[test]
fn negative_indexing() {
    let l = list3();
    assert_eq!(l.get(-1), l.get(2));
    assert_eq!(l.get(-1), &num(30));
    assert_eq!(l.get(-3), &num(10));
    assert_eq!(l.get(0), &num(10));
    assert_eq!(l.get(-4), &Value::Null);
    assert_eq!(l.get(3), &Value::Null);
    assert_eq!(l.get(isize::MIN), &Value::Null);
    assert_eq!(l.get(isize::MAX), &Value::Null);
}

#[test]
fn indexing_what_is_no_list_gives_null() {
    assert_eq!(num(1).get(0), &Value::Null);
    assert_eq!(Value::List(vec![]).get(0), &Value::Null);
    assert_eq!(Value::List(vec![]).get(-1), &Value::Null);
    assert!(num(1).try_get(0).is_none());
    assert_eq!(list3().try_get(-2), Some(&num(20)));
    assert!(list3().try_get(3).is_none());
}

#[test]
fn keyed_indexing() {
    let mut d = Dict::new();
    d.insert("a".to_string(), num(1));
    d.insert("b".to_string(), Value::Null);
    let v = Value::Dict(d);
    assert_eq!(v.get_key("a"), &num(1));
    assert_eq!(v.get_key("b"), &Value::Null);
    assert_eq!(v.get_key("c"), &Value::Null);
    assert_eq!(v.try_get_key("b"), Some(&Value::Null));
    assert!(v.try_get_key("c").is_none());
    assert_eq!(list3().get_key("a"), &Value::Null);
}

#[test]
fn dict_order() {
    let mut d = Dict::new();
    assert!(d.insert("b".to_string(), num(1)).is_none());
    assert!(d.insert("a".to_string(), num(2)).is_none());
    assert!(d.insert("c".to_string(), num(3)).is_none());
    assert_eq!(d.len(), 3);
    let keys: Vec<&str> = (0..d.len()).map(|i| d.key_at(i).as_str()).collect();
    assert_eq!(keys, vec!["b", "a", "c"]);
    assert_eq!(Value::Dict(d).to_text(), "{\n    b: 1,\n    a: 2,\n    c: 3,\n}");
}

#[test]
fn insert_overwrites_in_place() {
    let mut d = Dict::new();
    d.insert("b".to_string(), num(1));
    d.insert("a".to_string(), num(2));
    assert_eq!(d.insert("b".to_string(), num(9)), Some(num(1)));
    assert_eq!(d.len(), 2);
    assert_eq!(d.key_at(0), "b");
    assert_eq!(d.value_at(0), &num(9));
    assert_eq!(d.find("a"), Some(1));
    assert_eq!(d.find("z"), None);
    assert_eq!(d.get("b"), Some(&num(9)));
}

#[test]
fn equality_with_booleans_and_strings() {
    assert!(Value::Boolean(true).eq_bool(true));
    assert!(!Value::Boolean(true).eq_bool(false));
    assert!(!num(1).eq_bool(true));
    assert!(!text("true").eq_bool(true));
    assert!(text("a").eq_str("a"));
    assert!(!text("a").eq_str("b"));
    assert!(!Value::Boolean(true).eq_str("true"));
    assert!(!Value::Null.eq_str(""));
}

#[test]
fn text_of_scalars() {
    assert_eq!(Value::Null.to_text(), "null");
    assert_eq!(Value::Boolean(true).to_text(), "true");
    assert_eq!(Value::Boolean(false).to_text(), "false");
    assert_eq!(num(0).to_text(), "0");
    assert_eq!(num(u64::MAX).to_text(), "18446744073709551615");
    assert_eq!(Value::Number(Number::NegInt(-42)).to_text(), "-42");
    assert_eq!(Value::Number(Number::NegInt(i64::MIN)).to_text(), "-9223372036854775808");
    assert_eq!(text("a\"b\\c\nd\te\rf'").to_text(), "\"a\\\"b\\\\c\\nd\\te\\rf'\"");
}

fn float_text(negative: bool, coefficient: u64, exponent: i32) -> String {
    Value::Number(Number::Float(Decimal { negative, coefficient, exponent })).to_text()
}

#[test]
fn text_of_floating_values() {
    assert_eq!(float_text(false, 15, -1), "1.5");
    assert_eq!(float_text(true, 15, -1), "-1.5");
    assert_eq!(float_text(false, 5, -1), "0.5");
    assert_eq!(float_text(false, 5, -3), "0.005");
    assert_eq!(float_text(false, 150, -2), "1.50");
    assert_eq!(float_text(false, 0, -1), "0.0");
    assert_eq!(float_text(false, 1, 0), "1e0");
    assert_eq!(float_text(false, 12, 3), "12e3");
    assert_eq!(float_text(true, 7, -21), "-7e-21");
    assert_eq!(float_text(false, 7, -20), "0.00000000000000000007");
}

#[test]
fn text_of_collections() {
    assert_eq!(Value::List(vec![]).to_text(), "[]");
    assert_eq!(list3().to_text(), "[10, 20, 30]");
    assert_eq!(Value::Dict(Dict::new()).to_text(), "{}");
    let mut one = Dict::new();
    one.insert("k".to_string(), list3());
    assert_eq!(Value::Dict(one).to_text(), "{k:[10, 20, 30]}");
}

#[test]
fn text_of_paths() {
    let path = KeyPath(vec![KeyNode::Key("a".to_string()), KeyNode::Index(-2), KeyNode::Index(7)]);
    assert_eq!(path.to_text(), "a.-2.7");
    assert_eq!(KeyPath::default().to_text(), "");
    assert_eq!(KeyNode::Key("x y".to_string()).to_text(), "x y");
    assert_eq!(KeyNode::Index(12).to_text(), "12");
    assert_eq!(Value::Cite(path).to_text(), "$a.-2.7");
}

#[test]
fn text_of_the_other_kinds() {
    assert_eq!(Value::Char('c').to_text(), "Char");
    assert_eq!(Value::EmptyLine.to_text(), "EmptyLine");
    assert_eq!(Value::FreeDict(Dict::new()).to_text(), "FreeDict");
    assert_eq!(Value::HandlerString("a".to_string(), "b".to_string()).to_text(), "HandlerString");
}

fn round_trip(v: Value) {
    let shown = v.to_text();
    assert_eq!(parse_value(&shown).unwrap(), v, "{}", shown);
}

#[test]
fn round_trip_of_values() {
    round_trip(Value::Null);
    round_trip(Value::Boolean(true));
    round_trip(Value::Boolean(false));
    round_trip(num(0));
    round_trip(num(u64::MAX));
    round_trip(Value::Number(Number::NegInt(-1)));
    round_trip(Value::Number(Number::NegInt(i64::MIN)));
    round_trip(Value::Number(Number::Float(Decimal { negative: false, coefficient: 15, exponent: -1 })));
    round_trip(Value::Number(Number::Float(Decimal { negative: true, coefficient: 0, exponent: -3 })));
    round_trip(Value::Number(Number::Float(Decimal { negative: false, coefficient: 9, exponent: 40 })));
    round_trip(Value::Number(Number::Float(Decimal { negative: false, coefficient: 9, exponent: -40 })));
    round_trip(Value::Number(Number::Float(Decimal { negative: false, coefficient: u64::MAX, exponent: -20 })));
    round_trip(text(""));
    round_trip(text(" lead and trail "));
    round_trip(text("quote \" backslash \\ line\nfeed\ttab\r 'single' /* c */ // d"));
    round_trip(text("\u{0}\u{7}é\u{2028}"));
    round_trip(Value::List(vec![]));
    round_trip(Value::Dict(Dict::new()));
    let mut inner = Dict::new();
    inner.insert("x".to_string(), Value::List(vec![num(1), text("s"), Value::Null]));
    let mut outer = Dict::new();
    outer.insert("b".to_string(), Value::Dict(inner));
    outer.insert("a".to_string(), Value::List(vec![Value::List(vec![]), Value::Boolean(true)]));
    outer.insert("_c9".to_string(), Value::Dict(Dict::new()));
    round_trip(Value::Dict(outer));
}

#[test]
fn json_bridge() {
    let json = JsonTree::Object(vec![(
        "x".to_string(),
        JsonTree::Array(vec![
            JsonTree::Number(Number::PosInt(1)),
            JsonTree::String("s".to_string()),
            JsonTree::Null,
            JsonTree::Bool(true),
        ]),
    )]);
    let v = Value::from_json(&json);
    let mut d = Dict::new();
    d.insert(
        "x".to_string(),
        Value::List(vec![num(1), text("s"), Value::Null, Value::Boolean(true)]),
    );
    assert_eq!(v, Value::Dict(d));
    assert_eq!(v.to_json(), Ok(json));
}

#[test]
fn json_objects_keep_their_order_and_their_last_value() {
    let json = JsonTree::Object(vec![
        ("b".to_string(), JsonTree::Number(Number::NegInt(-1))),
        ("a".to_string(), JsonTree::Null),
        ("b".to_string(), JsonTree::Bool(false)),
    ]);
    let v = Value::from_json(&json);
    assert_eq!(v.to_text(), "{\n    b: false,\n    a: null,\n}");
}

#[test]
fn json_cannot_hold_the_other_kinds() {
    let cases = vec![
        (Value::Char('c'), Kind::Char),
        (Value::Cite(KeyPath(vec![])), Kind::Cite),
        (Value::FreeDict(Dict::new()), Kind::FreeDict),
        (Value::Record("r".to_string(), Box::new(Value::Null)), Kind::Record),
        (Value::Key("k".to_string(), Box::new(Value::Null)), Kind::Key),
        (Value::HandlerString("h".to_string(), "s".to_string()), Kind::HandlerString),
        (Value::HandlerNumber("h".to_string(), Number::PosInt(1)), Kind::HandlerNumber),
        (Value::Comment(arc_rs::value::CommentKind::Line, "c".to_string()), Kind::Comment),
        (Value::EmptyLine, Kind::EmptyLine),
    ];
    for (v, kind) in cases {
        assert_eq!(v.to_json(), Err(BridgeError { kind }));
    }
    let nested = Value::List(vec![num(1), Value::List(vec![Value::EmptyLine]), Value::Char('c')]);
    assert_eq!(nested.to_json(), Err(BridgeError { kind: Kind::EmptyLine }));
}

#[test]
fn operators_on_values() {
    let l = list3();
    assert_eq!(l[-1], num(30));
    assert_eq!(l[3], Value::Null);
    let mut d = Dict::new();
    d.insert("a".to_string(), Value::Boolean(true));
    d.insert("s".to_string(), text("x"));
    let v = Value::Dict(d);
    assert!(v["a"] == true);
    assert!(v["a"] != false);
    assert!(v["s"] == *"x");
    assert!(v["s"] == "x".to_string());
    assert!(v["s".to_string()] != "y".to_string());
    assert!(v["none"] != true);
    assert_eq!(v["none"], Value::Null);
}

#[test]
fn equality_goes_by_order_and_content() {
    let mut ab = Dict::new();
    ab.insert("a".to_string(), num(1));
    ab.insert("b".to_string(), num(1));
    let mut ba = Dict::new();
    ba.insert("b".to_string(), num(1));
    ba.insert("a".to_string(), num(1));
    assert!(Value::Dict(ab.clone()) != Value::Dict(ba));
    assert!(Value::Dict(ab.clone()) == Value::Dict(ab.clone()));
    assert!(Value::Dict(ab.clone()) != Value::FreeDict(ab));
    assert!(list3() != Value::List(vec![num(10), num(20)]));
    assert!(list3() == list3().clone());
    assert!(num(1) != Value::Number(Number::Float(Decimal { negative: false, coefficient: 1, exponent: 0 })));
}

#[test]
fn from_a_json_tree() {
    let v = Value::from(JsonTree::Array(vec![JsonTree::Bool(false)]));
    assert_eq!(v, Value::List(vec![Value::Boolean(false)]));
}

#[test]
fn to_json_and_back() {
    let mut inner = Dict::new();
    inner.insert("n".to_string(), Value::Number(Number::NegInt(-3)));
    inner.insert("f".to_string(), Value::Number(Number::Float(Decimal { negative: false, coefficient: 25, exponent: -1 })));
    let v = Value::List(vec![Value::Dict(inner), Value::Null, text("s")]);
    let j = v.to_json().unwrap();
    assert_eq!(Value::from_json(&j), v);
    assert_eq!(Value::from_json(&j).to_json(), Ok(j));
}

#[test]
fn text_and_characters() {
    let chars = arc_rs::chars::to_chars("aé\u{10348}");
    assert_eq!(chars, vec!['a', 'é', '\u{10348}']);
    assert_eq!(arc_rs::chars::to_text(&chars, 1, 3), "é\u{10348}");
    assert_eq!(arc_rs::chars::to_text(&chars, 2, 2), "");
}

#[test]
fn copies_are_equal_and_apart() {
    let mut d = Dict::new();
    d.insert("k".to_string(), list3());
    let v = Value::Dict(d);
    let mut c = v.clone();
    assert_eq!(c, v);
    if let Value::Dict(inner) = &mut c {
        inner.insert("k".to_string(), Value::Null);
    }
    assert_ne!(c, v);
    assert_eq!(v.get_key("k"), &list3());
}
