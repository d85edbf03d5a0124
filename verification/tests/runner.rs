use cloudgrepper::cli::Cli;
use cloudgrepper::filters::Timestamp;
use cloudgrepper::runner::{
    plan_queries, plan_search, queries_display, resolve_log_format, search_fetched_object, QueryPlan, RunStop,
};
use cloudgrepper::search::{compile_patterns, SearchConfig};
use cloudgrepper::yara::compile_rules;

fn base_cli() -> Cli {
    Cli {
        bucket: Some("b".into()),
        account_name: None,
        container_name: None,
        google_bucket: None,
        query: None,
        file: None,
        yara: None,
        prefix: String::new(),
        filename: None,
        start_date: None,
        end_date: None,
        file_size: 100_000_000,
        profile: None,
        debug: false,
        hide_filenames: false,
        log_type: None,
        log_format: None,
        log_properties: None,
        json_output: false,
        convert_date: false,
        use_og_name: false,
    }
}

fn q(v: &[&str]) -> Vec<String> {
    v.iter().map(|s| s.to_string()).collect()
}

#[test]
fn log_type_presets() {
    assert_eq!(
        resolve_log_format(Some("cloudtrail"), None, vec![]),
        Ok((Some("json".into()), vec!["Records".into()]))
    );
    assert_eq!(
        resolve_log_format(Some("CloudTrail"), None, vec![]), // case-insensitive
        Ok((Some("json".into()), vec!["Records".into()]))
    );
    assert_eq!(
        resolve_log_format(Some("azure"), None, vec![]),
        Ok((Some("json".into()), vec!["data".into()]))
    );
    assert_eq!(
        resolve_log_format(Some("waf"), None, vec![]),
        Ok((Some("jsonl".into()), vec![]))
    );
    assert_eq!(
        resolve_log_format(Some("nope"), None, vec![]),
        Err("nope".to_string())
    );
    // no log_type: custom format/properties pass through
    assert_eq!(
        resolve_log_format(None, Some("json".into()), vec!["Records".into()]),
        Ok((Some("json".into()), vec!["Records".into()]))
    );
}

#[test]
fn no_query_stops_even_with_yara_rules() {
    let mut cli = base_cli();
    assert!(matches!(plan_search(&cli, vec![]), Err(RunStop::NoQuery)));
    cli.yara = Some("rules.yar".into());
    assert!(matches!(plan_search(&cli, vec![]), Err(RunStop::NoQuery)));
}

#[test]
fn invalid_log_type_is_reported_lowercased() {
    let mut cli = base_cli();
    cli.log_type = Some("BoGus".into());
    match plan_search(&cli, q(&["x"])) {
        Err(RunStop::InvalidLogType(l)) => assert_eq!(l, "bogus"),
        _ => panic!("expected an invalid log type"),
    }
}

#[test]
fn bad_date_and_bad_pattern_stop_the_run() {
    let mut cli = base_cli();
    cli.end_date = Some("someday".into());
    match plan_search(&cli, q(&["x"])) {
        Err(RunStop::BadDate(m)) => assert_eq!(m, "could not parse date: someday"),
        _ => panic!("expected a bad date"),
    }
    let cli = base_cli();
    assert!(matches!(plan_search(&cli, q(&["ok", "(unclosed"])), Err(RunStop::BadPattern(_))));
}

#[test]
fn plan_carries_options_into_config_and_filters() {
    let mut cli = base_cli();
    cli.log_type = Some("cloudtrail".into());
    cli.log_format = Some("csv".into());
    cli.hide_filenames = true;
    cli.json_output = true;
    cli.filename = Some(".log".into());
    cli.file_size = 42;
    cli.start_date = Some("1970-01-02".into());
    cli.account_name = Some("acct".into());
    let plan = match plan_search(&cli, q(&["a", "b+"])) {
        Ok(p) => p,
        Err(_) => panic!("expected a plan"),
    };
    assert_eq!(plan.cfg.log_format.as_deref(), Some("json"));
    assert_eq!(plan.cfg.log_properties, vec!["Records".to_string()]);
    assert!(plan.cfg.hide_filenames && plan.cfg.json_output);
    assert_eq!(plan.cfg.account_name.as_deref(), Some("acct"));
    assert_eq!(plan.cfg.patterns.len(), 2);
    assert_eq!(plan.cfg.patterns[1].0, "b+");
    assert_eq!(plan.filters.key_contains.as_deref(), Some(".log"));
    assert_eq!(plan.filters.from_date, Some(Timestamp { secs: 86_400, nanos: 0 }));
    assert_eq!(plan.filters.to_date, None);
    assert_eq!(plan.filters.max_size, 42);
    assert!(plan.filters.check_size);
}

#[test]
fn custom_properties_are_split_like_queries() {
    let mut cli = base_cli();
    cli.log_format = Some("json".into());
    cli.log_properties = Some(" a , ,b".into());
    let plan = match plan_search(&cli, q(&["x"])) {
        Ok(p) => p,
        Err(_) => panic!("expected a plan"),
    };
    assert_eq!(plan.cfg.log_properties, vec!["a".to_string(), "b".to_string()]);
}

#[test]
fn inline_queries_win_over_the_query_file() {
    let mut cli = base_cli();
    cli.query = Some("a, b".into());
    cli.file = Some("queries.txt".into());
    match plan_queries(&cli) {
        QueryPlan::Queries(v) => assert_eq!(v, q(&["a", "b"])),
        QueryPlan::ReadFile(_) => panic!("inline queries were given"),
    }
    cli.query = Some(" , ".into());
    match plan_queries(&cli) {
        QueryPlan::ReadFile(p) => assert_eq!(p, "queries.txt"),
        QueryPlan::Queries(_) => panic!("the file should be read"),
    }
    cli.file = None;
    match plan_queries(&cli) {
        QueryPlan::Queries(v) => assert!(v.is_empty()),
        QueryPlan::ReadFile(_) => panic!("no file was named"),
    }
}

#[test]
fn queries_are_displayed_as_a_python_list() {
    assert_eq!(queries_display(&q(&["a", "it's"])), "['a', \"it's\"]");
    assert_eq!(queries_display(&[]), "[]");
}

#[test]
fn fetched_objects_use_yara_rules_when_given() {
    let cfg = SearchConfig {
        patterns: compile_patterns(&q(&["line"])).unwrap(),
        hide_filenames: false,
        json_output: false,
        log_format: None,
        log_properties: vec![],
        account_name: None,
    };
    let mut out = String::new();
    assert!(search_fetched_object(&cfg, None, "k", b"a line\n", &mut out));
    assert_eq!(out, "k: a line\n\n");
    let rules = compile_rules(r#"rule has_line { strings: $l = "line" condition: $l }"#).unwrap();
    let mut out = String::new();
    assert!(search_fetched_object(&cfg, Some(&rules), "k", b"a line\n", &mut out));
    assert_eq!(out, "k: has_line: [$l]\n");
    let mut out = String::new();
    assert!(!search_fetched_object(&cfg, Some(&rules), "k", b"nothing\n", &mut out));
    assert!(out.is_empty());
}

#[test]
fn bad_pattern_with_a_preset_log_type_stops_the_run() {
    let mut cli = base_cli();
    cli.query = Some("(unclosed".into());
    cli.log_type = Some("cloudtrail".into());
    let queries = match plan_queries(&cli) {
        QueryPlan::Queries(v) => v,
        QueryPlan::ReadFile(_) => panic!("inline query was given"),
    };
    assert!(matches!(plan_search(&cli, queries), Err(RunStop::BadPattern(_))));
}
