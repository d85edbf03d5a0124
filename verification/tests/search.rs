use cloudgrepper::search::{compile_patterns, search_line, search_object, SearchConfig};
use flate2::write::GzEncoder;
use flate2::Compression;
use std::io::Write;

fn cfg(patterns: &[&str]) -> SearchConfig {
    SearchConfig {
        patterns: compile_patterns(&patterns.iter().map(|s| s.to_string()).collect::<Vec<_>>()).unwrap(),
        hide_filenames: false,
        json_output: false,
        log_format: None,
        log_properties: vec![],
        account_name: None,
    }
}

fn run(cfg: &SearchConfig, key: &str, data: &[u8]) -> (bool, String) {
    let mut buf = String::new();
    let found = search_object(cfg, key, data, &mut buf);
    (found, buf)
}

fn gzip(data: &[u8]) -> Vec<u8> {
    let mut enc = GzEncoder::new(Vec::new(), Compression::default());
    enc.write_all(data).unwrap();
    enc.finish().unwrap()
}

fn zip_of(members: &[(&str, &[u8])]) -> Vec<u8> {
    let mut w = zip::ZipWriter::new(std::io::Cursor::new(Vec::new()));
    for (name, data) in members {
        w.start_file(*name, zip::write::SimpleFileOptions::default()).unwrap();
        w.write_all(data).unwrap();
    }
    w.finish().unwrap().into_inner()
}

#[test]
fn all_matching_lines_reported_not_just_first() {
    let data = b"hit one\nmiss\nhit two\n";
    let (found, out) = run(&cfg(&["hit"]), "k.log", data);
    assert!(found);
    assert!(out.contains("hit one") && out.contains("hit two"));
}

#[test]
fn two_stage_matching_requires_raw_line_hit() {
    let data = b"{\"Records\": [{\"msg\": \"h\xc3\xa9llo\"}]}";
    let mut c = cfg(&["h\u{00e9}llo"]);
    c.log_format = Some("json".into());
    c.log_properties = vec!["Records".into()];
    let (found, out) = run(&c, "k.json", data);
    assert!(!found && out.is_empty());
}

#[test]
fn compile_patterns_rejects_bad_regex() {
    assert!(compile_patterns(&["(unclosed".to_string()]).is_err());
}

#[test]
fn azure_json_gz_aborts_at_non_string_entry() {
    let json = br#"["first azure target hit", {"not": "a string"}, "second azure target never reached"]"#;
    let gz_bytes = gzip(json);
    let c = SearchConfig {
        patterns: compile_patterns(&["azure target".to_string()]).unwrap(),
        hide_filenames: false,
        json_output: false,
        log_format: None,
        log_properties: vec![],
        account_name: Some("acct".into()),
    };
    let (found, out) = run(&c, "export.json.gz", &gz_bytes);
    assert!(found, "should match before hitting the non-string entry");
    assert!(out.contains("first azure target hit"), "first match should appear");
    assert!(!out.contains("second azure target"), "should abort at dict, not reach second string");
}

#[test]
fn every_matching_pattern_prints_its_own_record() {
    let mut out = String::new();
    let found = search_line(&cfg(&["a", "b", "z"]), "k", "ab\n", &mut out);
    assert!(found);
    assert_eq!(out, "k: ab\n\nk: ab\n\n");
}

#[test]
fn no_match_prints_nothing() {
    let (found, out) = run(&cfg(&["absent"]), "k.log", b"one\ntwo\n");
    assert!(!found);
    assert!(out.is_empty());
}

#[test]
fn plain_object_output_is_exact() {
    let mut c = cfg(&["^b"]);
    c.hide_filenames = true;
    let (found, out) = run(&c, "k.log", b"a\r\nb\r\nbc");
    assert!(found);
    assert_eq!(out, "b\n\nbc\n");
}

#[test]
fn gzip_object_is_unpacked_and_searched() {
    let (found, out) = run(&cfg(&["needle"]), "logs/x.log.gz", &gzip(b"hay\nneedle here\n"));
    assert!(found);
    assert_eq!(out, "logs/x.log.gz: needle here\n\n");
}

#[test]
fn corrupt_gzip_prints_nothing() {
    let (found, out) = run(&cfg(&["."]), "x.gz", b"this is not gzip data");
    assert!(!found);
    assert!(out.is_empty());
}

#[test]
fn zip_members_are_all_searched_in_order() {
    let data = zip_of(&[("a.log", b"first needle\n"), ("b.log", b"nothing\nsecond needle")]);
    let (found, out) = run(&cfg(&["needle"]), "x.zip", &data);
    assert!(found);
    assert_eq!(out, "x.zip: first needle\n\nx.zip: second needle\n");
}

#[test]
fn json_mode_prints_one_json_line_per_match() {
    let mut c = cfg(&["hit"]);
    c.json_output = true;
    let (found, out) = run(&c, "k.log", b"hit \"one\"\nmiss\n");
    assert!(found);
    assert_eq!(out, "{\"key_name\": \"k.log\", \"query\": \"hit\", \"line\": \"hit \\\"one\\\"\\n\"}\n");
}

#[test]
fn log_records_matching_twice_are_printed_by_repr() {
    let mut c = cfg(&["PutObject"]);
    c.log_format = Some("json".into());
    c.log_properties = vec!["Records".into()];
    let line = br#"{"Records": [{"eventName": "PutObject"}, {"eventName": "GetObject"}]}"#;
    let (found, out) = run(&c, "trail.json", line);
    assert!(found);
    assert_eq!(out, "trail.json: {'eventName': 'PutObject'}\n");
}

#[test]
fn unparseable_log_line_prints_nothing() {
    let mut c = cfg(&["x"]);
    c.log_format = Some("json".into());
    let (found, out) = run(&c, "k.json", b"x is not json\n");
    assert!(!found && out.is_empty());
}

#[test]
fn compile_patterns_keeps_queries_in_order() {
    let v = compile_patterns(&["a+".to_string(), "b".to_string()]).unwrap();
    assert_eq!(v.len(), 2);
    assert_eq!(v[0].0, "a+");
    assert_eq!(v[1].1.as_str(), "b");
    assert!(compile_patterns(&["ok".to_string(), "[".to_string()]).is_err());
}
