use svnguitool::browse::{diff_display, diff_error_display, no_text_diff_message};
use svnguitool::diff::{bold, classify, italic, render, render_msg, rgb, Kind, GRAY, RED};

#[test]
fn classify_lines() {
    assert_eq!(classify("+added line"), Kind::Added);
    assert_eq!(classify("-removed line"), Kind::Removed);
    assert_eq!(classify("@@ -1,5 +1,6 @@"), Kind::Hunk);
    assert_eq!(classify("Index: src/main.rs"), Kind::Header);
    assert_eq!(classify("--- src/main.rs (revision 1)"), Kind::Header);
    assert_eq!(classify("+++ src/main.rs (revision 2)"), Kind::Header);
    assert_eq!(classify("======="), Kind::Header);
    assert_eq!(classify("Property changes on: f"), Kind::Header);
    assert_eq!(classify("\\ No newline at end of file"), Kind::NoNewline);
    assert_eq!(classify("     normal context"), Kind::Context);
    assert_eq!(classify("+++ b/file (2)"), Kind::Header);
    assert_eq!(classify("--- a/file (1)"), Kind::Header);
}

#[test]
fn colors_match_expected() {
    assert_eq!(rgb(Kind::Added), (26, 127, 55));
    assert_eq!(rgb(Kind::Removed), (207, 34, 46));
    assert_eq!(rgb(Kind::Context), (31, 35, 40));
}

#[test]
fn render_styles_each_line() {
    let diff = "--- a/hello.txt (revision 2)\n+++ b/hello.txt (revision 3)\n@@ -1 +1 @@\n-hello\n+hello world\ncontext line\n";
    let lines = render(diff);
    assert_eq!(lines.len(), 6);

    assert_eq!(lines[0].rgb, rgb(Kind::Header));
    assert!(lines[0].bold);
    assert_eq!(lines[2].rgb, rgb(Kind::Hunk));
    assert!(lines[2].bold);

    assert_eq!(lines[3].text, "-hello");
    assert_eq!(lines[3].rgb, rgb(Kind::Removed));
    assert!(!lines[3].bold);

    assert_eq!(lines[4].text, "+hello world");
    assert_eq!(lines[4].rgb, rgb(Kind::Added));

    assert_eq!(lines[5].text, "context line");
    assert_eq!(lines[5].rgb, rgb(Kind::Context));
}

#[test]
fn render_preserves_text_and_blank_lines() {
    let diff = "L1\n\nL3";
    let lines = render(diff);
    assert_eq!(lines.len(), 3);
    assert_eq!(lines[1].text, "");
    assert_eq!(lines[0].text, "L1");
    assert_eq!(lines[2].text, "L3");
}

#[test]
fn render_empty() {
    assert!(render("").is_empty());
}

#[test]
fn render_no_newline_is_italic() {
    let lines = render("\\ No newline at end of file");
    assert_eq!(lines.len(), 1);
    assert!(lines[0].italic);
    assert_eq!(lines[0].rgb, rgb(Kind::NoNewline));
}

#[test]
fn render_msg_helpers() {
    let err = render_msg("boom", RED);
    assert_eq!(err.len(), 1);
    assert_eq!(err[0].rgb, RED);
    assert_eq!(err[0].text, "boom");
}

#[test]
fn styles_of_each_kind() {
    assert!(bold(Kind::Hunk) && bold(Kind::Header));
    assert!(!bold(Kind::Added) && !bold(Kind::Removed) && !bold(Kind::Context));
    assert!(!bold(Kind::NoNewline));
    assert!(italic(Kind::NoNewline));
    assert!(!italic(Kind::Header) && !italic(Kind::Context));
    assert_eq!(rgb(Kind::Hunk), (87, 96, 106));
    assert_eq!(rgb(Kind::Header), (87, 96, 106));
    assert_eq!(rgb(Kind::NoNewline), (110, 119, 129));
    assert_eq!(GRAY, (110, 119, 129));
}

#[test]
fn classify_edge_cases() {
    assert_eq!(classify(""), Kind::Context);
    assert_eq!(classify("+"), Kind::Added);
    assert_eq!(classify("-"), Kind::Removed);
    assert_eq!(classify("+++"), Kind::Added);
    assert_eq!(classify("---"), Kind::Removed);
    assert_eq!(classify("## -1 +1 ##"), Kind::Hunk);
    assert_eq!(classify("@@"), Kind::Context);
    assert_eq!(classify("===="), Kind::Header);
    assert_eq!(classify("==="), Kind::Context);
}

#[test]
fn render_crlf_and_trailing_cr() {
    let lines = render("+a\r\n-b\r\nc\r");
    assert_eq!(lines.len(), 3);
    assert_eq!(lines[0].text, "+a");
    assert_eq!(lines[1].text, "-b");
    assert_eq!(lines[2].text, "c\r");
    assert_eq!(lines[0].rgb, rgb(Kind::Added));
    assert_eq!(lines[1].rgb, rgb(Kind::Removed));
}

#[test]
fn file_headers_are_not_changes() {
    for l in ["+++ x", "--- y"] {
        let lines = render(l);
        assert_eq!(lines[0].rgb, rgb(Kind::Header));
        assert!(lines[0].bold);
    }
}

#[test]
fn diff_pane_for_blank_and_real_text() {
    let (lines, n) = diff_display("  \n \n");
    assert_eq!(n, 2);
    assert_eq!(lines.len(), 1);
    assert_eq!(lines[0].text, no_text_diff_message());
    assert_eq!(lines[0].rgb, GRAY);

    let (lines, n) = diff_display("-a\n+b\n");
    assert_eq!(n, 2);
    assert_eq!(lines.len(), 2);
    assert_eq!(lines[1].rgb, rgb(Kind::Added));

    let err = diff_error_display("failed");
    assert_eq!(err[0].rgb, RED);
    assert_eq!(err[0].text, "failed");
}
