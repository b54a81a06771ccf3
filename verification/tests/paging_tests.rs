use svnguitool::browse::{
    change_index, change_rows, commit_row, commit_rows, connection_target, find_commit,
    selected_rev, sentinel_row,
};
use svnguitool::paging::{reload_page, Pager, MAX_REQUESTS};
use svnguitool::state::FilterSpec;
use svnguitool::svn::{Change, LogEntry};

fn entry(rev: i64, author: &str) -> LogEntry {
    let mut e = LogEntry::new(rev);
    e.author = author.into();
    e.rfc3339 = "2024-01-01T00:00:00Z".into();
    e.date = "2024-01-01 00:00".into();
    e.msg = format!("commit {rev}");
    e
}

fn filter(limit: usize) -> FilterSpec {
    let mut f = FilterSpec::default();
    f.limit = limit;
    f
}

#[test]
fn reload_keeps_matches_and_notes_more() {
    let fetched = vec![entry(9, "alice"), entry(8, "bob"), entry(7, "alice")];
    let mut f = filter(3);
    f.author = "ali".into();
    let page = reload_page(fetched, &f);
    assert_eq!(page.total, 3);
    assert!(page.has_more);
    assert_eq!(page.floor, Some(7));
    let revs: Vec<i64> = page.entries.iter().map(|e| e.revision).collect();
    assert_eq!(revs, vec![9, 7]);

    let short = reload_page(vec![entry(2, "x")], &filter(5));
    assert!(!short.has_more);
    let none = reload_page(vec![], &filter(5));
    assert!(!none.has_more);
    assert_eq!(none.floor, None);
    assert_eq!(none.total, 0);
}

#[test]
fn load_more_appends_older_batch() {
    let mut p = Pager::new(10, 12, 3, vec![12, 11, 10]);
    assert_eq!(p.next_request(), Some(10));
    p.on_page(vec![entry(9, "a"), entry(8, "a"), entry(7, "a")], &filter(3));
    assert!(p.finished);
    assert!(p.has_more);
    assert_eq!(p.floor, 7);
    assert_eq!(p.appended_count, 3);
    assert_eq!(p.next_request(), None);
    let revs: Vec<i64> = p.appended.iter().map(|e| e.revision).collect();
    assert_eq!(revs, vec![9, 8, 7]);
}

#[test]
fn load_more_starts_right_below_the_floor() {
    let mut f = filter(2);
    f.author = "nobody".into();
    let mut p = Pager::new(10, 10, 2, vec![10]);
    assert_eq!(p.next_request(), Some(10));
    p.on_page(vec![entry(9, "al"), entry(8, "al")], &f);
    assert_eq!(p.next_request(), Some(8));
    let args = svnguitool::svn::log_upto_args("svn://h/r", 2, 8).unwrap();
    assert_eq!(args[4], "7:1");
}

#[test]
fn load_more_never_repeats_a_revision() {
    let mut p = Pager::new(10, 12, 4, vec![12, 11, 10, 8]);
    assert_eq!(p.next_request(), Some(10));
    p.on_page(vec![entry(9, "a"), entry(8, "a"), entry(8, "a"), entry(7, "a")], &filter(4));
    let revs: Vec<i64> = p.appended.iter().map(|e| e.revision).collect();
    assert_eq!(revs, vec![9, 7]);
    assert_eq!(p.seen, vec![12, 11, 10, 8, 9, 7]);
}

#[test]
fn load_more_skips_filtered_pages_until_a_match() {
    let mut f = filter(2);
    f.author = "bob".into();
    let mut p = Pager::new(10, 10, 2, vec![10]);
    assert_eq!(p.next_request(), Some(10));
    p.on_page(vec![entry(9, "al"), entry(8, "al")], &f);
    assert!(!p.finished);
    assert_eq!(p.next_request(), Some(8));
    p.on_page(vec![entry(7, "bob"), entry(6, "al")], &f);
    assert!(p.finished);
    assert_eq!(p.appended_count, 1);
    assert_eq!(p.appended[0].revision, 7);
}

#[test]
fn load_more_stops_at_the_oldest_revision() {
    let mut p = Pager::new(1, 5, 3, vec![1]);
    assert_eq!(p.next_request(), None);
    assert!(!p.has_more);

    let mut q = Pager::new(3, 5, 3, vec![]);
    assert_eq!(q.next_request(), Some(3));
    q.on_page(vec![], &filter(3));
    assert!(!q.has_more);
    assert!(q.finished);

    let mut r = Pager::new(5, 0, 3, vec![]);
    assert_eq!(r.next_request(), None);
    assert!(!r.has_more);

    let mut s = Pager::new(9, 3, 3, vec![]);
    assert_eq!(s.next_request(), Some(4));
}

#[test]
fn load_more_error_ends_the_load() {
    let mut p = Pager::new(10, 10, 3, vec![]);
    assert_eq!(p.next_request(), Some(10));
    p.on_error();
    assert!(p.finished && !p.has_more);
    assert_eq!(p.appended_count, 0);
    assert_eq!(p.next_request(), None);
}

#[test]
fn load_more_gives_up_after_the_request_limit() {
    let mut f = filter(1);
    f.author = "nobody".into();
    let mut p = Pager::new(1000, 1000, 1, vec![]);
    let mut n = 0;
    while let Some(upto) = p.next_request() {
        n += 1;
        p.on_page(vec![entry(upto - 1, "al")], &f);
    }
    assert_eq!(n, MAX_REQUESTS);
    assert!(p.has_more);
    assert!(p.appended.is_empty());
}

#[test]
fn commit_and_change_rows() {
    let e = entry(-3, "al");
    let row = commit_row(&e);
    assert_eq!(row.rev, "-3");
    assert_eq!(row.author, "al");
    assert!(!row.loading);
    let s = sentinel_row();
    assert!(s.loading && s.rev.is_empty() && s.msg.is_empty());
    let rows = commit_rows(&vec![entry(2, "a"), entry(1, "b")], true);
    assert_eq!(rows.len(), 3);
    assert_eq!(rows[1].rev, "1");
    assert!(rows[2].loading);
    assert_eq!(commit_rows(&vec![entry(2, "a")], false).len(), 1);

    let changes = vec![Change { action: 'D', kind: "file".into(), path: "/x".into() }];
    let cr = change_rows(&changes);
    assert_eq!(cr[0].action, "D");
    assert_eq!(cr[0].path, "/x");
}

#[test]
fn selection_helpers() {
    let list = vec![entry(5, "a"), entry(4, "b"), entry(4, "c")];
    assert_eq!(find_commit(&list, 4), Some(1));
    assert_eq!(find_commit(&list, 9), None);
    assert_eq!(selected_rev(" 42 "), 42);
    assert_eq!(selected_rev("r42"), 0);
    assert_eq!(selected_rev(""), 0);
    assert_eq!(change_index(3, 2), Some(2));
    assert_eq!(change_index(3, 3), None);
    assert_eq!(change_index(3, -1), None);
}

#[test]
fn connection_target_is_the_trimmed_input() {
    assert_eq!(connection_target("  svn://host/repo \n"), Some("svn://host/repo".to_string()));
    assert_eq!(connection_target(" \t "), None);
    assert_eq!(connection_target(""), None);
}
