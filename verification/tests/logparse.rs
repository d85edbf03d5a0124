use cloudgrepper::json::{FloatText, JsonNumber, JsonValue};
use cloudgrepper::logparse::{extract_log_entries, is_falsy, parse_logs};

fn s(x: &str) -> JsonValue {
    JsonValue::String(x.to_string())
}

fn n(u: u64) -> JsonValue {
    JsonValue::Number(JsonNumber::PosInt(u))
}

fn arr(items: Vec<JsonValue>) -> JsonValue {
    JsonValue::Array(items)
}

fn obj(members: Vec<(&str, JsonValue)>) -> JsonValue {
    JsonValue::Object(members.into_iter().map(|(k, v)| (k.to_string(), v)).collect())
}

#[test]
fn json_format_parses_object() {
    let v = parse_logs(r#"{"Records": [{"a": 1}]}"#, "json").unwrap();
    assert_eq!(v, obj(vec![("Records", arr(vec![obj(vec![("a", n(1))])]))]));
    assert!(parse_logs("not json", "json").is_none());
}

#[test]
fn jsonl_format_returns_trimmed_line_as_string_array() {
    assert_eq!(parse_logs("  {\"a\": 1}  \n", "jsonl").unwrap(), arr(vec![s("{\"a\": 1}")]));
}

#[test]
fn csv_single_line_is_header_only_and_empty() {
    assert_eq!(parse_logs("col1,col2", "csv").unwrap(), arr(vec![]));
    assert_eq!(
        parse_logs("col1,col2\nval1,val2", "csv").unwrap(),
        arr(vec![obj(vec![("col1", s("val1")), ("col2", s("val2"))])])
    );
}

#[test]
fn unknown_format_returns_none() {
    assert!(parse_logs(r#"{"foo": "bar"}"#, "not_a_real_format").is_none());
}

#[test]
fn extract_walks_properties() {
    let parsed = obj(vec![("Records", arr(vec![obj(vec![("e", n(1))]), obj(vec![("e", n(2))])]))]);
    assert_eq!(
        extract_log_entries(parsed, &["Records".to_string()]),
        vec![obj(vec![("e", n(1))]), obj(vec![("e", n(2))])]
    );
    assert!(extract_log_entries(obj(vec![("a", n(1))]), &["nope".to_string()]).is_empty());
    assert_eq!(extract_log_entries(obj(vec![("a", n(1))]), &[]), vec![obj(vec![("a", n(1))])]);
    assert_eq!(extract_log_entries(arr(vec![n(1), n(2)]), &["data".to_string()]), vec![n(1), n(2)]);
}

#[test]
fn falsy_matches_python_truthiness() {
    for v in [JsonValue::Null, JsonValue::Bool(false), n(0), s(""), arr(vec![]), obj(vec![])] {
        assert!(is_falsy(&v));
    }
    assert!(!is_falsy(&arr(vec![n(1)])));
    assert!(!is_falsy(&s("x")));
}

#[test]
fn falsy_numbers_of_every_kind() {
    assert!(is_falsy(&JsonValue::Number(JsonNumber::NegInt(0))));
    assert!(is_falsy(&JsonValue::Number(JsonNumber::Float(FloatText::new(format!("{:e}", 0.0f64)).unwrap()))));
    assert!(is_falsy(&JsonValue::Number(JsonNumber::Float(FloatText::new(format!("{:e}", -0.0f64)).unwrap()))));
    assert!(!is_falsy(&JsonValue::Number(JsonNumber::Float(FloatText::new(format!("{:e}", 0.5f64)).unwrap()))));
    assert!(!is_falsy(&JsonValue::Number(JsonNumber::NegInt(-1))));
    assert!(!is_falsy(&JsonValue::Bool(true)));
}

#[test]
fn jsonl_splits_inner_newlines_and_keeps_empty_pieces() {
    assert_eq!(parse_logs("\ta\n\nb \n", "jsonl").unwrap(), arr(vec![s("a"), s(""), s("b")]));
    assert_eq!(parse_logs("   ", "jsonl").unwrap(), arr(vec![s("")]));
}

#[test]
fn csv_rows_pair_headers_with_fields_up_to_the_shorter() {
    assert_eq!(
        parse_logs("a,b,c\n1,2\n3,4,5,6", "csv").unwrap(),
        arr(vec![
            obj(vec![("a", s("1")), ("b", s("2"))]),
            obj(vec![("a", s("3")), ("b", s("4")), ("c", s("5"))]),
        ])
    );
    assert_eq!(
        parse_logs("k,k\nx,y", "csv").unwrap(),
        arr(vec![obj(vec![("k", s("y"))])])
    );
}

#[test]
fn extract_follows_nested_paths_and_stops_at_null() {
    let parsed = obj(vec![("a", obj(vec![("b", arr(vec![n(7)]))]))]);
    assert_eq!(extract_log_entries(parsed, &["a".to_string(), "b".to_string()]), vec![n(7)]);
    let with_null = obj(vec![("a", JsonValue::Null)]);
    assert!(extract_log_entries(with_null, &["a".to_string(), "b".to_string()]).is_empty());
    let scalar = obj(vec![("a", s("x"))]);
    assert!(extract_log_entries(scalar, &["a".to_string(), "b".to_string()]).is_empty());
    assert_eq!(extract_log_entries(obj(vec![("a", s("x"))]), &["a".to_string()]), vec![s("x")]);
}

#[test]
fn parsed_floats_are_falsy_only_at_zero() {
    assert!(is_falsy(&parse_logs("0.0", "json").unwrap()));
    assert!(is_falsy(&parse_logs("-0.0", "json").unwrap()));
    assert!(!is_falsy(&parse_logs("1e-300", "json").unwrap()));
}
