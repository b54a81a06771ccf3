use svnguitool::config::Config;

fn read(text: &str) -> Option<String> {
    Config::from_text(text).last_target
}

#[test]
fn reads_the_documented_file() {
    assert_eq!(
        read("{ \"last_target\": \"https://example.com/svn/repo\" }"),
        Some("https://example.com/svn/repo".to_string())
    );
    assert_eq!(read("\n{\"last_target\":\"/home/a/wc\"}\n"), Some("/home/a/wc".to_string()));
    assert_eq!(read("{ \"last_target\": null }"), None);
    assert_eq!(read("{}"), None);
}

#[test]
fn reads_escapes() {
    assert_eq!(read(r#"{"last_target":"C:\\svn\\wc"}"#), Some("C:\\svn\\wc".to_string()));
    assert_eq!(read(r#"{"last_target":"a\"b\/c\td"}"#), Some("a\"b/c\td".to_string()));
    assert_eq!(read(r#"{"last_target":"\u00e4\u4e2d"}"#), Some("ä中".to_string()));
    assert_eq!(read(r#"{"last_target":"\ud83d\ude00"}"#), Some("😀".to_string()));
}

#[test]
fn rejects_what_is_no_config() {
    assert_eq!(read(""), None);
    assert_eq!(read("not json"), None);
    assert_eq!(read("{\"other\":\"x\"}"), None);
    assert_eq!(read("{\"last_target\":\"x\"} trailing"), None);
    assert_eq!(read("{\"last_target\":\"x\""), None);
    assert_eq!(read("{\"last_target\":\"\\ud83d\"}"), None);
    assert_eq!(read("{\"last_target\":\"\\q\"}"), None);
    assert_eq!(read("{\"last_target\":\"a\nb\"}"), None);
    assert_eq!(read("{\"last_target\":1}"), None);
}

#[test]
fn writes_the_documented_file() {
    let c = Config { last_target: Some("https://example.com/svn/repo".to_string()) };
    assert_eq!(c.to_text(), "{ \"last_target\": \"https://example.com/svn/repo\" }\n");
    assert_eq!(Config { last_target: None }.to_text(), "{}\n");
    let odd = Config { last_target: Some("a\"b\\c\nd\u{1}".to_string()) };
    assert_eq!(odd.to_text(), "{ \"last_target\": \"a\\\"b\\\\c\\nd\\u0001\" }\n");
}

#[test]
fn what_is_written_is_read_back() {
    for t in ["", "svn://h/r", "C:\\wc", "tab\there", "quote\"", "ctl\u{1f}\u{0}", "ä中😀"] {
        let c = Config { last_target: Some(t.to_string()) };
        assert_eq!(Config::from_text(&c.to_text()).last_target, Some(t.to_string()));
    }
    assert_eq!(Config::from_text(&Config { last_target: None }.to_text()).last_target, None);
}
