use cloudgrepper::json::{FloatText, JsonNumber, JsonValue};
use cloudgrepper::logparse::parse_logs;
use cloudgrepper::pyjson::{dumps, python_repr, write_json_string, write_str_repr};

fn s(x: &str) -> JsonValue {
    JsonValue::String(x.to_string())
}

fn n(u: u64) -> JsonValue {
    JsonValue::Number(JsonNumber::PosInt(u))
}

fn float(f: f64) -> JsonValue {
    JsonValue::Number(JsonNumber::Float(FloatText::new(format!("{:e}", f)).unwrap()))
}

fn arr(items: Vec<JsonValue>) -> JsonValue {
    JsonValue::Array(items)
}

fn obj(members: Vec<(&str, JsonValue)>) -> JsonValue {
    JsonValue::Object(members.into_iter().map(|(k, v)| (k.to_string(), v)).collect())
}

#[test]
fn dumps_matches_python_json_dumps() {
    assert_eq!(
        dumps(&obj(vec![("a", n(1)), ("b", arr(vec![JsonValue::Bool(true), JsonValue::Null, s("x")]))])),
        r#"{"a": 1, "b": [true, null, "x"]}"#
    );
    assert_eq!(dumps(&obj(vec![("msg", s("héllo"))])), "{\"msg\": \"h\\u00e9llo\"}");
    assert_eq!(dumps(&s("a\"b\\c\nd")), r#""a\"b\\c\nd""#);
    assert_eq!(dumps(&float(1.0)), "1.0");
    assert_eq!(dumps(&n(42)), "42");
    let v = parse_logs(r#"{"z": 1, "a": 2}"#, "json").unwrap();
    assert_eq!(dumps(&v), r#"{"z": 1, "a": 2}"#);
}

#[test]
fn python_repr_matches_python_str_of_dict() {
    assert_eq!(python_repr(&obj(vec![("a", s("b"))])), "{'a': 'b'}");
    assert_eq!(
        python_repr(&obj(vec![("k", arr(vec![n(1), JsonValue::Bool(true), JsonValue::Null]))])),
        "{'k': [1, True, None]}"
    );
    assert_eq!(python_repr(&s("it's")), r#""it's""#);
    assert_eq!(python_repr(&s("plain")), "'plain'");
}

#[test]
fn dumps_escapes_controls_and_astral_characters() {
    assert_eq!(dumps(&s("\t\r\u{8}\u{c}\u{1}")), r#""\t\r\b\f\u0001""#);
    assert_eq!(dumps(&s("\u{1F600}")), r#""\ud83d\ude00""#);
    assert_eq!(dumps(&s("\u{7f}")), r#""\u007f""#);
}

#[test]
fn dumps_numbers_like_python() {
    assert_eq!(dumps(&JsonValue::Number(JsonNumber::NegInt(-17))), "-17");
    assert_eq!(dumps(&n(0)), "0");
    assert_eq!(dumps(&n(u64::MAX)), "18446744073709551615");
    assert_eq!(dumps(&JsonValue::Number(JsonNumber::NegInt(i64::MIN))), "-9223372036854775808");
    assert_eq!(dumps(&float(2.5)), "2.5");
    assert_eq!(dumps(&float(1e300)), "1e+300");
    assert_eq!(dumps(&arr(vec![])), "[]");
    assert_eq!(dumps(&obj(vec![])), "{}");
}

#[test]
fn repr_quotes_and_escapes_like_python() {
    assert_eq!(python_repr(&s("both ' and \"")), r#"'both \' and "'"#);
    assert_eq!(python_repr(&s("tab\there\n")), r#"'tab\there\n'"#);
    assert_eq!(python_repr(&s("back\\slash")), r#"'back\\slash'"#);
    assert_eq!(python_repr(&JsonValue::Bool(false)), "False");
    assert_eq!(python_repr(&float(1.0)), "1.0");
    assert_eq!(python_repr(&JsonValue::Number(JsonNumber::NegInt(-3))), "-3");
}

#[test]
fn writers_append_to_what_is_there() {
    let mut out = String::from("x=");
    write_json_string(&mut out, "é\"");
    assert_eq!(out, "x=\"\\u00e9\\\"\"");
    let mut out = String::from("y=");
    write_str_repr(&mut out, "it's");
    assert_eq!(out, "y=\"it's\"");
}

#[test]
fn floats_are_written_as_python_repr() {
    assert_eq!(dumps(&float(1e16)), "1e+16");
    assert_eq!(dumps(&float(1e15)), "1000000000000000.0");
    assert_eq!(dumps(&float(1e-7)), "1e-07");
    assert_eq!(dumps(&float(1e-5)), "1e-05");
    assert_eq!(dumps(&float(0.0001)), "0.0001");
    assert_eq!(dumps(&float(0.1)), "0.1");
    assert_eq!(dumps(&float(-0.0)), "-0.0");
    assert_eq!(dumps(&float(0.0)), "0.0");
    assert_eq!(dumps(&float(123.456)), "123.456");
    assert_eq!(dumps(&float(-1.5e-10)), "-1.5e-10");
    assert_eq!(dumps(&float(2.5e20)), "2.5e+20");
    assert_eq!(dumps(&float(1.7976931348623157e308)), "1.7976931348623157e+308");
    assert_eq!(dumps(&float(5e-324)), "5e-324");
    assert_eq!(dumps(&float(12345678901234567.0)), "1.2345678901234568e+16");
    assert_eq!(dumps(&parse_logs("[1e16, 1.0, 2.50]", "json").unwrap()), "[1e+16, 1.0, 2.5]");
    assert_eq!(python_repr(&float(1e-7)), "1e-07");
}

#[test]
fn float_texts_must_have_the_scientific_shape() {
    assert!(FloatText::new("1.5".into()).is_none());
    assert!(FloatText::new("1e0007".into()).is_none());
    assert!(FloatText::new("1\n2".into()).is_none());
    assert!(FloatText::new("1e".into()).is_none());
    assert!(FloatText::new("-1.25e-3".into()).is_some());
    assert_eq!(FloatText::new("7e0".into()).unwrap().as_str(), "7e0");
}

#[test]
fn repr_escapes_non_printable_characters_like_python() {
    assert_eq!(python_repr(&s("a\u{1}b")), r"'a\x01b'");
    assert_eq!(python_repr(&s("\u{7f}")), r"'\x7f'");
    assert_eq!(python_repr(&s("\u{85}\u{a0}")), r"'\x85\xa0'");
    assert_eq!(python_repr(&s("\u{200b}")), r"'\u200b'");
    assert_eq!(python_repr(&s("\u{e0001}")), r"'\U000e0001'");
    assert_eq!(python_repr(&s("é\u{1F600}")), "'é\u{1F600}'");
    assert_eq!(python_repr(&s("\u{0}")), r"'\x00'");
}

#[test]
fn repr_escapes_unassigned_and_other_non_printables() {
    assert_eq!(python_repr(&s("\u{378}")), r"'\u0378'");
    assert_eq!(python_repr(&s("\u{ffff}")), r"'\uffff'");
    assert_eq!(python_repr(&s("\u{10ffff}")), r"'\U0010ffff'");
    assert_eq!(python_repr(&s("\u{2028}\u{3000}")), r"'\u2028\u3000'");
    assert_eq!(python_repr(&s("\u{e000}")), r"'\ue000'");
    assert_eq!(python_repr(&s("日本")), "'日本'");
}

#[test]
fn json_lines_are_printable_for_parsed_values() {
    let v = parse_logs("{\"a\": [1.5e300, \"\\u00e9\\n\"]}", "json").unwrap();
    let d = dumps(&v);
    assert_eq!(d, "{\"a\": [1.5e+300, \"\\u00e9\\n\"]}");
    assert!(d.chars().all(|c| (' '..='~').contains(&c)));
}
