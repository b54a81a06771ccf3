use svnguitool::dates::{format_local_date, local_date, parse_date, CalendarDate};
use svnguitool::state::{parse_rev, FilterSpec};
use svnguitool::svn::{Change, LogEntry};

fn entry(rev: i64, author: &str, rfc: &str, msg: &str, paths: &[&str]) -> LogEntry {
    LogEntry {
        revision: rev,
        author: author.into(),
        date: String::new(),
        rfc3339: rfc.into(),
        msg: msg.into(),
        changes: paths
            .iter()
            .map(|p| Change { action: 'M', kind: "file".into(), path: p.to_string() })
            .collect(),
    }
}

fn spec() -> FilterSpec {
    FilterSpec::default()
}

#[test]
fn default_matches_everything() {
    let e = entry(10, "a", "2024-01-01T00:00:00Z", "x", &["/t/f.rs"]);
    assert!(spec().matches(&e));
}

#[test]
fn revision_range() {
    let e = entry(10, "a", "2024-01-01T00:00:00Z", "x", &[]);
    let mut s = spec();
    s.rev_min = Some(11);
    assert!(!s.matches(&e));
    s.rev_min = Some(10);
    s.rev_max = Some(10);
    assert!(s.matches(&e));
    s.rev_max = Some(9);
    assert!(!s.matches(&e));
}

#[test]
fn author_substring() {
    let e = entry(1, "alice", "2024-01-01T00:00:00Z", "x", &[]);
    let mut s = spec();
    s.author = "lic".into();
    assert!(s.matches(&e));
    s.author = "nope".into();
    assert!(!s.matches(&e));
}

#[test]
fn date_range() {
    let e = entry(1, "a", "2024-06-01T00:00:00Z", "x", &[]);
    let mut s = spec();
    s.date_min = Some(CalendarDate::new(2024, 6, 2));
    assert!(!s.matches(&e));
    s.date_min = Some(CalendarDate::new(2024, 6, 1));
    s.date_max = Some(CalendarDate::new(2024, 6, 1));
    assert!(s.matches(&e));
}

#[test]
fn keyword_matches_msg_or_path() {
    let e = entry(1, "a", "2024-01-01T00:00:00Z", "fix crash", &["/trunk/src/app.rs"]);
    let mut s = spec();
    s.keyword = "crash".into();
    assert!(s.matches(&e));
    s.keyword = "app.rs".into();
    assert!(s.matches(&e));
    s.keyword = "zzz".into();
    assert!(!s.matches(&e));
}

#[test]
fn parse_rev_helpers() {
    assert_eq!(parse_rev(""), None);
    assert_eq!(parse_rev("  42 "), Some(42));
    assert_eq!(parse_rev("abc"), None);
}

#[test]
fn parse_date_helpers() {
    assert_eq!(parse_date(""), None);
    assert_eq!(parse_date("2024-03-01"), Some(CalendarDate::new(2024, 3, 1)));
    assert_eq!(parse_date("2024/03/01"), None);
    assert_eq!(parse_date("not-a-date"), None);
}

#[test]
fn unparsable_date_skips_filter() {
    let e = entry(1, "a", "garbage", "x", &[]);
    let mut s = spec();
    s.date_min = Some(CalendarDate::new(2024, 1, 1));
    assert!(s.matches(&e));
}

#[test]
fn keyword_ignores_case() {
    let e = entry(1, "a", "2024-01-01T00:00:00Z", "Fix Crash", &["/trunk/README.md"]);
    let mut s = spec();
    s.keyword = "CRASH".into();
    assert!(s.matches(&e));
    s.keyword = "readme".into();
    assert!(s.matches(&e));
}

#[test]
fn date_bounds_compare_chronologically() {
    let e = entry(1, "a", "2024-06-15T12:00:00Z", "x", &[]);
    let mut s = spec();
    s.date_min = Some(CalendarDate::new(2023, 12, 31));
    s.date_max = Some(CalendarDate::new(2024, 7, 1));
    assert!(s.matches(&e));
    assert!(s.matches_at_date(&e, Some(CalendarDate::new(2024, 6, 15))));
    assert!(!s.matches_at_date(&e, Some(CalendarDate::new(2024, 7, 2))));
    assert!(!s.matches_at_date(&e, Some(CalendarDate::new(2023, 12, 30))));
    assert!(s.matches_at_date(&e, None));
    assert!(CalendarDate::new(2023, 12, 31).is_before(&CalendarDate::new(2024, 1, 1)));
    assert!(!CalendarDate::new(2024, 1, 1).is_before(&CalendarDate::new(2024, 1, 1)));
}

#[test]
fn clearing_a_field_never_hides_a_commit() {
    let e = entry(5, "bob", "2024-01-01T00:00:00Z", "msg", &["/p"]);
    let mut s = spec();
    s.author = "bo".into();
    s.rev_min = Some(1);
    s.keyword = "MSG".into();
    assert!(s.matches(&e));
    let mut t = s.clone();
    t.author = String::new();
    assert!(t.matches(&e));
    t.rev_min = None;
    t.keyword = String::new();
    assert!(t.matches(&e));
}

#[test]
fn filter_from_panel_fields() {
    let f = FilterSpec::from_fields(" crash ", " alice", " 10", "20 ", "2024-01-01", " ", "0");
    assert_eq!(f.keyword, "crash");
    assert_eq!(f.author, "alice");
    assert_eq!(f.rev_min, Some(10));
    assert_eq!(f.rev_max, Some(20));
    assert_eq!(f.date_min, Some(CalendarDate::new(2024, 1, 1)));
    assert_eq!(f.date_max, None);
    assert_eq!(f.limit, 500);
    assert_eq!(FilterSpec::from_fields("", "", "", "", "", "", " 25 ").limit, 25);
    assert_eq!(FilterSpec::from_fields("", "", "x", "", "", "", "many").limit, 500);
    assert_eq!(FilterSpec::from_fields("", "", "x", "", "", "", "").rev_min, None);
}

#[test]
fn local_dates_of_timestamps() {
    assert_eq!(local_date("garbage"), None);
    assert!(local_date("2024-03-01T10:00:00.000000Z").is_some());
    assert_eq!(format_local_date("garbage"), "garbage");
    assert_eq!(format_local_date(""), "");
    let shown = format_local_date("2024-03-01T10:00:00.000000Z");
    assert_ne!(shown, "2024-03-01T10:00:00.000000Z");
    assert_eq!(shown.chars().count(), 16);
    assert!(shown.starts_with("2024-03-0"));
}

#[test]
fn every_rfc3339_timestamp_has_a_local_date() {
    for ts in [
        "0000-01-01T00:00:00+23:59",
        "9999-12-31T23:59:60.999999999-23:59",
        "2016-12-31T23:59:60Z",
        "2024-02-29 12:00:00.5+05:30",
        "1969-12-31T23:59:59.999-00:01",
    ] {
        assert!(local_date(ts).is_some(), "{ts}");
    }
    assert_eq!(local_date("2024-02-30T00:00:00Z"), None);
    assert_eq!(local_date("2024-01-01T00:00:00"), None);
}

#[test]
fn revision_text_reads_back() {
    for n in [0i64, 7, -5, 1_000_000, i64::MAX, i64::MIN] {
        assert_eq!(parse_rev(&format!(" \t{n}\u{3000}\n")), Some(n));
        assert_eq!(parse_rev(&n.to_string()), Some(n));
    }
    assert_eq!(parse_rev("9223372036854775808"), None);
}

#[test]
fn local_times_are_within_a_day_of_utc() {
    let d = local_date("2024-03-01T12:00:00Z").unwrap();
    assert!(
        d == CalendarDate::new(2024, 2, 29)
            || d == CalendarDate::new(2024, 3, 1)
            || d == CalendarDate::new(2024, 3, 2)
    );
    let shown = format_local_date("2024-03-01T12:00:00+08:00");
    let c: Vec<char> = shown.chars().collect();
    assert_eq!(c.len(), 16);
    for (i, ch) in c.iter().enumerate() {
        match i {
            4 | 7 => assert_eq!(*ch, '-'),
            10 => assert_eq!(*ch, ' '),
            13 => assert_eq!(*ch, ':'),
            _ => assert!(ch.is_ascii_digit()),
        }
    }
    assert!(shown.ends_with(":00"));
}
