use cloudgrepper::yara::{compile_outcome, compile_rules, report_yara_hits, scan_object, RuleHit};

const RULE: &str = r#"rule rule_name {strings: $a = "get" nocase wide ascii condition: $a}"#;

#[test]
fn yara_scan_matches_and_formats_like_python() {
    let rules = compile_rules(RULE).unwrap();
    let mut buf = String::new();
    let matched = scan_object(&rules, "key_name", b"one\nget stuff\nthree", true, true, &mut buf);
    assert!(matched);
    assert_eq!(buf, "{'match_rule': 'rule_name', 'match_strings': [$a]}\n");
}

#[test]
fn yara_no_match_returns_false_no_output() {
    let rules = compile_rules(RULE).unwrap();
    let mut buf = String::new();
    assert!(!scan_object(&rules, "k", b"nothing here", false, false, &mut buf));
    assert!(buf.is_empty());
}

#[test]
fn compile_error_is_prefixed() {
    let e = match compile_rules("rule broken {") {
        Ok(_) => panic!("a broken rule compiled"),
        Err(e) => e,
    };
    assert!(e.starts_with("yara compile error: "));
}

#[test]
fn only_patterns_that_matched_are_listed() {
    let rules = compile_rules(
        r#"rule two { strings: $x = "alpha" $y = "beta" condition: any of them }"#,
    )
    .unwrap();
    let mut buf = String::new();
    assert!(scan_object(&rules, "obj", b"beta only", false, false, &mut buf));
    assert_eq!(buf, "obj: two: [$y]\n");
}

#[test]
fn report_prints_one_record_per_hit() {
    let hits = vec![
        RuleHit { rule: "r1".into(), patterns: vec![("$a".into(), 2), ("$b".into(), 0)] },
        RuleHit { rule: "r2".into(), patterns: vec![] },
    ];
    let mut buf = String::new();
    assert!(report_yara_hits(&hits, "k", false, false, &mut buf));
    assert_eq!(buf, "k: r1: [$a]\nk: r2: []\n");
    let mut empty = String::new();
    assert!(!report_yara_hits(&Vec::new(), "k", false, false, &mut empty));
    assert!(empty.is_empty());
}

#[test]
fn compile_outcome_prefixes_the_compiler_message() {
    match compile_outcome(Err("unexpected end of file".to_string())) {
        Err(m) => assert_eq!(m, "yara compile error: unexpected end of file"),
        Ok(_) => panic!("an error became rules"),
    }
    let rules = yara_x::compile("rule r { condition: true }").unwrap();
    assert!(compile_outcome(Ok(rules)).is_ok());
}
