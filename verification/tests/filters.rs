use chrono::{DateTime, TimeZone, Utc};
use cloudgrepper::filters::{parse_date, Filters, ObjectMeta, Timestamp};

fn ts(dt: DateTime<Utc>) -> Timestamp {
    Timestamp { secs: dt.timestamp(), nanos: dt.timestamp_subsec_nanos() }
}

fn ymd(y: i32, mo: u32, d: u32, h: u32, mi: u32, s: u32) -> Timestamp {
    ts(Utc.with_ymd_and_hms(y, mo, d, h, mi, s).unwrap())
}

fn meta(key: &str, size: i64, y: i32) -> ObjectMeta {
    ObjectMeta { key: key.into(), size, last_modified: Some(ymd(y, 1, 1, 0, 0, 0)) }
}

fn window() -> Filters {
    Filters {
        key_contains: Some("example".into()),
        from_date: Some(ymd(2021, 1, 1, 0, 0, 0)),
        to_date: Some(ymd(2023, 1, 1, 0, 0, 0)),
        max_size: 500,
        check_size: true,
    }
}

#[test]
fn size_over_limit_rejected_then_accepted() {
    let obj = meta("example_file.txt", 1000, 2022);
    assert!(!window().matches(&obj));
    let mut f = window();
    f.max_size = 500_000;
    assert!(f.matches(&obj));
}

#[test]
fn empty_file_rejected() {
    let mut f = window();
    f.key_contains = Some("empty".into());
    f.max_size = 10_000;
    assert!(!f.matches(&meta("empty_file.log", 0, 2023)));
}

#[test]
fn out_of_date_range_rejected() {
    let f = Filters {
        key_contains: Some("old".into()),
        from_date: Some(ymd(2022, 1, 1, 0, 0, 0)),
        to_date: Some(ymd(2024, 1, 1, 0, 0, 0)),
        max_size: 10_000,
        check_size: true,
    };
    assert!(!f.matches(&meta("old_file.log", 500, 2021)));
}

#[test]
fn gcs_style_no_size_check() {
    let mut f = window();
    f.check_size = false;
    let obj = ObjectMeta { key: "example_file.txt".into(), size: 0, last_modified: None };
    assert!(f.matches(&obj));
}

#[test]
fn key_contains_rejects_nonmatching() {
    assert!(!window().matches(&meta("not_a_thing.txt", 100, 2022)));
}

#[test]
fn parse_date_forms() {
    assert_eq!(parse_date("2023-01-01").unwrap(), ymd(2023, 1, 1, 0, 0, 0));
    assert_eq!(parse_date("2023-01-01T10:30:00").unwrap(), ymd(2023, 1, 1, 10, 30, 0));
    assert_eq!(parse_date("2023-01-01T10:30:00Z").unwrap(), ymd(2023, 1, 1, 10, 30, 0));
    assert_eq!(parse_date("2023-01-01 10:30:00").unwrap(), ymd(2023, 1, 1, 10, 30, 0));
    assert!(parse_date("not a date").is_err());
}

#[test]
fn parse_date_error_names_the_input() {
    assert_eq!(parse_date("yesterday").unwrap_err(), "could not parse date: yesterday");
}

#[test]
fn parse_date_rfc3339_offset_is_converted_to_utc() {
    assert_eq!(parse_date("2023-01-01T12:30:00+02:00").unwrap(), ymd(2023, 1, 1, 10, 30, 0));
}

#[test]
fn window_bounds_are_inclusive() {
    let f = Filters {
        key_contains: None,
        from_date: Some(ymd(2022, 1, 1, 0, 0, 0)),
        to_date: Some(ymd(2022, 1, 1, 0, 0, 0)),
        max_size: 10,
        check_size: true,
    };
    assert!(f.matches(&meta("a", 10, 2022)));
    assert!(!f.matches(&meta("a", 11, 2022)));
}

#[test]
fn default_filters_accept_everything() {
    let f = Filters::default();
    assert!(f.matches(&ObjectMeta { key: String::new(), size: 0, last_modified: None }));
    assert!(f.matches(&meta("anything", i64::MAX, 1970)));
}

#[test]
fn timestamp_order_uses_nanoseconds() {
    let a = Timestamp { secs: 5, nanos: 1 };
    let b = Timestamp { secs: 5, nanos: 2 };
    assert!(a.is_before(&b));
    assert!(!b.is_before(&a));
    assert!(!a.is_before(&a));
    assert!(Timestamp { secs: -1, nanos: 999 }.is_before(&a));
}

#[test]
fn google_listings_never_check_sizes() {
    let g = window().for_google();
    assert!(!g.check_size);
    assert_eq!(g.key_contains.as_deref(), Some("example"));
    assert_eq!(g.max_size, 500);
    assert!(g.matches(&meta("example_file.txt", 0, 2022)));
    assert!(g.matches(&meta("example_file.txt", 1_000_000, 2022)));
    assert!(!g.matches(&meta("example_file.txt", 10, 2020)));
}
