use cloudgrepper::json::{JsonNumber, JsonValue};
use cloudgrepper::output::{print_match, Record};

fn capture(rec: &Record, hide: bool, json_out: bool) -> String {
    let mut buf = String::new();
    print_match(rec, hide, json_out, &mut buf);
    buf
}

fn sample() -> Record {
    Record::Match {
        key_name: "file.log".into(),
        query: "hello".into(),
        line: JsonValue::String("hello world\n".into()),
    }
}

#[test]
fn line_output_keeps_trailing_newline_doubled() {
    assert_eq!(capture(&sample(), false, false), "file.log: hello world\n\n");
    assert_eq!(capture(&sample(), true, false), "hello world\n\n");
}

#[test]
fn json_output_is_python_json_dumps() {
    assert_eq!(
        capture(&sample(), false, true),
        "{\"key_name\": \"file.log\", \"query\": \"hello\", \"line\": \"hello world\\n\"}\n"
    );
    assert_eq!(capture(&sample(), true, true), "{\"query\": \"hello\", \"line\": \"hello world\\n\"}\n");
}

#[test]
fn dict_line_prints_python_repr() {
    let rec = Record::Match {
        key_name: "k".into(),
        query: "q".into(),
        line: JsonValue::Object(vec![("eventName".into(), JsonValue::String("PutObject".into()))]),
    };
    assert_eq!(capture(&rec, false, false), "k: {'eventName': 'PutObject'}\n");
}

#[test]
fn yara_line_and_json_fallback() {
    let rec = Record::Yara {
        key_name: "key_name".into(),
        match_rule: "rule_name".into(),
        match_strings: vec!["$a".into()],
    };
    assert_eq!(capture(&rec, false, false), "key_name: rule_name: [$a]\n");
    assert_eq!(capture(&rec, true, true), "{'match_rule': 'rule_name', 'match_strings': [$a]}\n");
    assert_eq!(
        capture(&rec, false, true),
        "{'key_name': 'key_name', 'match_rule': 'rule_name', 'match_strings': [$a]}\n"
    );
}

#[test]
fn yara_several_and_no_strings() {
    let rec = Record::Yara {
        key_name: "k".into(),
        match_rule: "r".into(),
        match_strings: vec!["$a".into(), "$b".into(), "$c".into()],
    };
    assert_eq!(capture(&rec, true, false), "r: [$a, $b, $c]\n");
    let none = Record::Yara { key_name: "k".into(), match_rule: "r".into(), match_strings: vec![] };
    assert_eq!(capture(&none, false, false), "k: r: []\n");
}

#[test]
fn print_match_appends_to_what_is_there() {
    let mut buf = String::from("before\n");
    print_match(&sample(), true, false, &mut buf);
    assert_eq!(buf, "before\nhello world\n\n");
}

#[test]
fn non_string_lines_use_repr_and_json_keeps_values() {
    let rec = Record::Match {
        key_name: "k".into(),
        query: "q".into(),
        line: JsonValue::Array(vec![JsonValue::Number(JsonNumber::PosInt(1)), JsonValue::Null]),
    };
    assert_eq!(capture(&rec, true, false), "[1, None]\n");
    assert_eq!(capture(&rec, true, true), "{\"query\": \"q\", \"line\": [1, null]}\n");
}
