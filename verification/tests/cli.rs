use clap::{Arg, ArgAction, ArgMatches, Command};
use cloudgrepper::cli::{normalize_args, parse_comma_list, parse_query_lines, Cli};

/// The option table of the command, written with clap's builder.
fn command() -> Command {
    let value = |name: &'static str| Arg::new(name).action(ArgAction::Set);
    let flag = |name: &'static str| Arg::new(name).action(ArgAction::SetTrue);
    Command::new("cloudgrepper")
        .arg(value("bucket").short('b').long("bucket"))
        .arg(value("account_name").long("account-name"))
        .arg(value("container_name").long("container-name"))
        .arg(value("google_bucket").long("google-bucket"))
        .arg(value("query").short('q').long("query"))
        .arg(value("file").short('v').long("file"))
        .arg(value("yara").short('y').long("yara"))
        .arg(value("prefix").short('p').long("prefix").default_value(""))
        .arg(value("filename").short('f').long("filename"))
        .arg(value("start_date").short('s').long("start_date"))
        .arg(value("end_date").short('e').long("end_date"))
        .arg(value("file_size").long("file_size").default_value("100000000"))
        .arg(value("profile").long("profile"))
        .arg(flag("debug").short('d').long("debug"))
        .arg(flag("hide_filenames").long("hide_filenames"))
        .arg(value("log_type").long("log_type"))
        .arg(value("log_format").long("log_format"))
        .arg(value("log_properties").long("log_properties"))
        .arg(flag("json_output").long("json_output"))
        .arg(flag("convert_date").long("convert_date"))
        .arg(flag("use_og_name").long("use_og_name"))
}

fn text(m: &ArgMatches, name: &str) -> Option<String> {
    m.get_one::<String>(name).cloned()
}

fn to_cli(m: ArgMatches) -> Cli {
    Cli {
        bucket: text(&m, "bucket"),
        account_name: text(&m, "account_name"),
        container_name: text(&m, "container_name"),
        google_bucket: text(&m, "google_bucket"),
        query: text(&m, "query"),
        file: text(&m, "file"),
        yara: text(&m, "yara"),
        prefix: text(&m, "prefix").unwrap_or_default(),
        filename: text(&m, "filename"),
        start_date: text(&m, "start_date"),
        end_date: text(&m, "end_date"),
        file_size: text(&m, "file_size").unwrap().parse::<i64>().unwrap(),
        profile: text(&m, "profile"),
        debug: m.get_flag("debug"),
        hide_filenames: m.get_flag("hide_filenames"),
        log_type: text(&m, "log_type"),
        log_format: text(&m, "log_format"),
        log_properties: text(&m, "log_properties"),
        json_output: m.get_flag("json_output"),
        convert_date: m.get_flag("convert_date"),
        use_og_name: m.get_flag("use_og_name"),
    }
}

fn parse(args: &[&str]) -> Cli {
    let mut full = vec!["cloudgrepper".to_string()];
    full.extend(args.iter().map(|s| s.to_string()));
    to_cli(command().try_get_matches_from(normalize_args(full)).unwrap())
}

#[test]
fn short_flag_shim_maps_all_multichar_shorts() {
    let cli = parse(&[
        "-b",
        "buck",
        "-an",
        "acct",
        "-cn",
        "cont",
        "-gb",
        "gbuck",
        "-q",
        "foo,bar",
        "-fs",
        "500",
        "-pr",
        "prof",
        "-hf",
        "-lt",
        "cloudtrail",
        "-jo",
        "-cd",
        "-og",
    ]);
    assert_eq!(cli.bucket.as_deref(), Some("buck"));
    assert_eq!(cli.account_name.as_deref(), Some("acct"));
    assert_eq!(cli.container_name.as_deref(), Some("cont"));
    assert_eq!(cli.google_bucket.as_deref(), Some("gbuck"));
    assert_eq!(cli.file_size, 500);
    assert_eq!(cli.profile.as_deref(), Some("prof"));
    assert!(cli.hide_filenames && cli.json_output && cli.convert_date && cli.use_og_name);
    assert_eq!(cli.log_type.as_deref(), Some("cloudtrail"));
}

#[test]
fn long_flags_use_python_spellings() {
    let cli = parse(&[
        "--file_size",
        "42",
        "--hide_filenames",
        "--start_date",
        "2023-01-01",
    ]);
    assert_eq!(cli.file_size, 42);
    assert!(cli.hide_filenames);
    assert_eq!(cli.start_date.as_deref(), Some("2023-01-01"));
    // kebab-case must NOT be accepted for underscore flags
    assert!(command().try_get_matches_from(["p", "--file-size", "42"]).is_err());
}

#[test]
fn shim_handles_equals_form_and_defaults() {
    let cli = parse(&["-fs=99", "-b", "x"]);
    assert_eq!(cli.file_size, 99);
    let cli = parse(&["-b", "x"]);
    assert_eq!(cli.file_size, 100_000_000);
    assert_eq!(cli.prefix, "");
}

#[test]
fn comma_list_matches_python_list_of_strings() {
    assert_eq!(parse_comma_list("a, b ,,c"), vec!["a", "b", "c"]);
    assert_eq!(parse_comma_list(""), Vec::<String>::new());
}

#[test]
fn load_query_file_trims_and_drops_blanks() {
    assert_eq!(
        parse_query_lines("query1\nquery2\n\n  query3  \n"),
        vec!["query1", "query2", "query3"]
    );
}

#[test]
fn normalize_args_rewrites_only_known_shorts() {
    let args: Vec<String> = ["prog", "-an", "-lt=waf", "-b", "-anx", "--json_output", "-jo="]
        .iter()
        .map(|s| s.to_string())
        .collect();
    assert_eq!(
        normalize_args(args),
        vec!["prog", "--account-name", "--log_type=waf", "-b", "-anx", "--json_output", "--json_output="]
    );
}

#[test]
fn normalizing_twice_changes_nothing_more() {
    let args: Vec<String> = ["prog", "-lt", "-jo=1", "--log_type", "-x", "-an=acct"].iter().map(|s| s.to_string()).collect();
    let once = normalize_args(args);
    assert_eq!(once, vec!["prog", "--log_type", "--json_output=1", "--log_type", "-x", "--account-name=acct"]);
    assert_eq!(normalize_args(once.clone()), once);
}

#[test]
fn split_items_are_trimmed_and_never_empty() {
    let items = parse_comma_list(" \ta ,\u{3000}b\u{a0}, ,, c d ");
    assert_eq!(items, vec!["a", "b", "c d"]);
    assert!(parse_comma_list("").is_empty());
    assert_eq!(parse_query_lines("x\r\n\r\n  y\n"), vec!["x", "y"]);
}
