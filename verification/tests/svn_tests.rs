use svnguitool::svn::libsvn::{
    diff_failure_message, info_revision, translate, ChangedPath, InfoRevision, NodeKind,
    RawLogEntry,
};
use svnguitool::svn::{
    command_output, diff_args, info_args, info_from_events, log_args, log_from_events,
    log_upto_args, parse_info, parse_log, LogEntry, RepoInfo, SvnError,
};
use svnguitool::xml::{XmlEvent, XmlTag};

fn tag(name: &str, attrs: &[(&str, &str)]) -> XmlTag {
    XmlTag {
        name: name.as_bytes().to_vec(),
        attrs: attrs
            .iter()
            .map(|(k, v)| Some((k.as_bytes().to_vec(), v.as_bytes().to_vec())))
            .collect(),
    }
}

fn start(name: &str, attrs: &[(&str, &str)]) -> XmlEvent {
    XmlEvent::Start(tag(name, attrs))
}

fn text(t: &str) -> XmlEvent {
    XmlEvent::Text(t.as_bytes().to_vec())
}

fn end(name: &str) -> XmlEvent {
    XmlEvent::End(name.as_bytes().to_vec())
}

const SAMPLE_LOG: &str = r#"<?xml version="1.0" encoding="UTF-8"?>
<log>
<logentry revision="42">
<author>alice</author>
<date>2024-03-01T10:00:00.000000Z</date>
<msg>fix: &lt;bug&gt; in main</msg>
<paths>
<path kind="file" action="M" prop-mods="false" text-mods="true">/trunk/src/main.rs</path>
<path kind="file" action="A" text-mods="true">/trunk/src/helper.rs</path>
<path kind="dir" action="D">/trunk/old</path>
</paths>
</logentry>
<logentry revision="41">
<author>bob</author>
<date>2024-02-28T23:59:59.000000Z</date>
<msg></msg>
<paths>
<path kind="file" action="M">/trunk/README.md</path>
</paths>
</logentry>
</log>
"#;

const SAMPLE_INFO: &str = r#"<?xml version="1.0" encoding="UTF-8"?>
<info>
<entry kind="dir" path="trunk" revision="42">
<url>http://svn.example.com/repo/trunk</url>
<relative-url>^/trunk</relative-url>
<repository>
<root>http://svn.example.com/repo</root>
<uuid>abc-def-123</uuid>
</repository>
<commit revision="42">
<author>alice</author>
<date>2024-03-01T10:00:00.000000Z</date>
</commit>
</entry>
</info>
"#;

#[test]
fn parse_log_basic() {
    let entries = parse_log(SAMPLE_LOG);
    assert_eq!(entries.len(), 2);

    let e = &entries[0];
    assert_eq!(e.revision, 42);
    assert_eq!(e.author, "alice");
    assert_eq!(e.rfc3339, "2024-03-01T10:00:00.000000Z");
    assert_eq!(e.msg, "fix: <bug> in main");
    assert_eq!(e.changes.len(), 3);
    assert_eq!(e.changes[0].path, "/trunk/src/main.rs");
    assert_eq!(e.changes[0].action, 'M');
    assert_eq!(e.changes[0].kind, "file");
    assert_eq!(e.changes[1].action, 'A');
    assert_eq!(e.changes[2].action, 'D');
    assert_eq!(e.changes[2].kind, "dir");

    let e2 = &entries[1];
    assert_eq!(e2.revision, 41);
    assert_eq!(e2.author, "bob");
    assert!(e2.msg.is_empty());
}

#[test]
fn parse_log_empty_msg_and_html_escapes() {
    let entries = parse_log(SAMPLE_LOG);
    assert_eq!(entries[0].msg, "fix: <bug> in main");
}

#[test]
fn parse_log_empty_input() {
    assert!(parse_log("").is_empty());
    assert!(parse_log("<log></log>").is_empty());
}

#[test]
fn parse_info_basic() {
    let info = parse_info(SAMPLE_INFO).unwrap();
    assert_eq!(info.root, "http://svn.example.com/repo");
    assert_eq!(info.url, "http://svn.example.com/repo/trunk");
    assert_eq!(info.head_rev, 42);
}

#[test]
fn parse_info_missing_url_is_error() {
    assert!(parse_info("<info></info>").is_err());
}

#[test]
fn full_url_join() {
    let info = RepoInfo {
        root: "http://s/repo".into(),
        url: "http://s/repo/trunk".into(),
        head_rev: 5,
    };
    assert_eq!(info.full_url(""), "http://s/repo");
    assert_eq!(info.full_url("/trunk/src/main.rs"), "http://s/repo/trunk/src/main.rs");
}

#[test]
fn error_display_has_message() {
    let e = SvnError::Command("E200009 无法显示".into());
    assert!(e.message().contains("E200009"));
}

#[test]
fn error_messages_of_each_kind() {
    assert_eq!(SvnError::Parse("x".into()).message(), "解析 svn 输出失败: x");
    assert_eq!(SvnError::NonUtf8.message(), "svn 输出不是有效 UTF-8");
    let io = std::io::Error::new(std::io::ErrorKind::NotFound, "no svn");
    assert!(SvnError::Io(io).message().starts_with("无法执行 svn 命令: "));
}

#[test]
fn parse_log_local_date_and_missing_parts() {
    let xml = "<log><logentry revision=\"x\"><date>not a date</date><paths><path action=\"\" kind=\"file\"/></paths></logentry></log>";
    let entries = parse_log(xml);
    assert_eq!(entries.len(), 1);
    assert_eq!(entries[0].revision, 0);
    assert_eq!(entries[0].date, "not a date");
    assert_eq!(entries[0].changes.len(), 1);
    assert_eq!(entries[0].changes[0].action, '?');
    assert_eq!(entries[0].changes[0].path, "");
    let dated = parse_log(SAMPLE_LOG);
    assert_eq!(dated[0].date.chars().count(), 16);
}

#[test]
fn parse_log_keeps_what_precedes_an_error() {
    let xml = "<log><logentry revision=\"7\"><msg> m </msg></logentry><logentry revision=\"6\"></wrong></log>";
    let entries = parse_log(xml);
    assert_eq!(entries.len(), 1);
    assert_eq!(entries[0].revision, 7);
    assert_eq!(entries[0].msg, "m");
}

#[test]
fn parse_info_blank_url_and_bad_revision() {
    assert!(parse_info("<info><url>   </url></info>").is_err());
    let info =
        parse_info("<info><entry revision=\"abc\"><url> u </url></entry></info>").unwrap();
    assert_eq!(info.url, "u");
    assert_eq!(info.head_rev, 0);
    assert_eq!(info.root, "");
    match parse_info("<info/>") {
        Err(SvnError::Parse(m)) => assert_eq!(m, "未在输出中找到 <url>"),
        _ => panic!("expected a parse error"),
    }
}

#[test]
fn full_url_strips_trailing_slashes() {
    let info = RepoInfo { root: "http://s/repo//".into(), url: String::new(), head_rev: 0 };
    assert_eq!(info.full_url("/a"), "http://s/repo/a");
    assert_eq!(info.full_url(""), "http://s/repo//");
}

#[test]
fn command_lines() {
    assert_eq!(info_args("wc"), vec!["info", "--xml", "wc"]);
    assert_eq!(log_args("u", 0), vec!["log", "-v", "--xml", "-l", "500", "u"]);
    assert_eq!(log_args("u", 3), vec!["log", "-v", "--xml", "-l", "3", "u"]);
    assert_eq!(log_upto_args("u", 10, 1), None);
    assert_eq!(log_upto_args("u", 10, -5), None);
    assert_eq!(
        log_upto_args("u", 0, 10).unwrap(),
        vec!["log", "-v", "--xml", "-r", "9:1", "-l", "500", "u"]
    );
    assert_eq!(diff_args("http://s/f.txt", 3), vec!["diff", "-c", "3", "http://s/f.txt@3"]);
}

#[test]
fn command_outcomes() {
    assert_eq!(command_output(true, b"ok\n".to_vec(), vec![]).unwrap(), "ok\n");
    assert!(matches!(command_output(true, vec![0xff, 0xfe], vec![]), Err(SvnError::NonUtf8)));
    match command_output(false, b"out".to_vec(), b"  svn: E1 \xff \n".to_vec()) {
        Err(SvnError::Command(m)) => assert_eq!(m, "svn: E1 \u{fffd}"),
        _ => panic!("expected a command error"),
    }
    match command_output(false, b" from stdout \n".to_vec(), b" \n".to_vec()) {
        Err(SvnError::Command(m)) => assert_eq!(m, "from stdout"),
        _ => panic!("expected a command error"),
    }
}

#[test]
fn new_entry_is_blank() {
    let e = LogEntry::new(9);
    assert_eq!(e.revision, 9);
    assert!(e.author.is_empty() && e.date.is_empty() && e.rfc3339.is_empty());
    assert!(e.msg.is_empty() && e.changes.is_empty());
}

#[test]
fn translate_library_entry() {
    let raw = RawLogEntry {
        revision: Some(12),
        author: Some("carol".into()),
        date: Some("bad".into()),
        message: None,
        changed_paths: Some(vec![
            ChangedPath { path: "/z".into(), action: 'A', node_kind: NodeKind::File },
            ChangedPath { path: "/a/b".into(), action: 'D', node_kind: NodeKind::Dir },
            ChangedPath { path: "/a".into(), action: 'M', node_kind: NodeKind::Symlink },
            ChangedPath { path: "/ä".into(), action: 'M', node_kind: NodeKind::Unknown },
        ]),
    };
    let e = translate(raw);
    assert_eq!(e.revision, 12);
    assert_eq!(e.author, "carol");
    assert_eq!(e.rfc3339, "bad");
    assert_eq!(e.date, "bad");
    assert_eq!(e.msg, "");
    let paths: Vec<&str> = e.changes.iter().map(|c| c.path.as_str()).collect();
    assert_eq!(paths, vec!["/a", "/a/b", "/z", "/ä"]);
    assert_eq!(e.changes[0].kind, "?");
    assert_eq!(e.changes[1].kind, "dir");
    assert_eq!(e.changes[2].kind, "file");

    let empty = translate(RawLogEntry {
        revision: None,
        author: None,
        date: None,
        message: Some("m".into()),
        changed_paths: None,
    });
    assert_eq!(empty.revision, 0);
    assert_eq!(empty.msg, "m");
    assert!(empty.changes.is_empty());
}

#[test]
fn translate_sort_keeps_equal_paths_in_order() {
    let e = translate(RawLogEntry {
        revision: Some(3),
        author: None,
        date: None,
        message: None,
        changed_paths: Some(vec![
            ChangedPath { path: "/b".into(), action: 'A', node_kind: NodeKind::File },
            ChangedPath { path: "/a".into(), action: 'D', node_kind: NodeKind::File },
            ChangedPath { path: "/b".into(), action: 'M', node_kind: NodeKind::Dir },
            ChangedPath { path: "/B".into(), action: 'R', node_kind: NodeKind::File },
        ]),
    });
    let got: Vec<(char, &str)> = e.changes.iter().map(|c| (c.action, c.path.as_str())).collect();
    assert_eq!(got, vec![('R', "/B"), ('D', "/a"), ('A', "/b"), ('M', "/b")]);
}

#[test]
fn info_from_given_events() {
    let evs = vec![
        start("entry", &[]),
        start("url", &[]),
        text("  svn://h/repo/trunk \n"),
        end("url"),
        start("root", &[]),
        text("svn://h/&amp;repo"),
        end("root"),
        start("entry", &[("revision", "x7")]),
        end("entry"),
        start("entry", &[("kind", "dir"), ("revision", "77")]),
        start("commit", &[("revision", "12")]),
        XmlEvent::Other,
        end("commit"),
        end("entry"),
    ];
    let info = info_from_events(&evs).unwrap();
    assert_eq!(info.url, "svn://h/repo/trunk");
    assert_eq!(info.root, "svn://h/&repo");
    assert_eq!(info.head_rev, 77);

    let blank = vec![start("url", &[]), text("   "), end("url")];
    assert!(matches!(info_from_events(&blank), Err(SvnError::Parse(_))));
}

#[test]
fn log_from_given_events() {
    let evs = vec![
        start("logentry", &[("revision", "5")]),
        start("author", &[]),
        text(" eve "),
        end("author"),
        start("date", &[]),
        text("not a date"),
        end("date"),
        start("paths", &[]),
        start("path", &[("action", "Modified"), ("kind", "file")]),
        text("/a.txt"),
        end("path"),
        XmlEvent::Empty(tag("path", &[("kind", "dir")])),
        end("paths"),
        start("msg", &[]),
        text("x &lt; y"),
        end("msg"),
        end("logentry"),
        start("logentry", &[("revision", "bad")]),
        end("logentry"),
        start("path", &[("action", "A")]),
        end("path"),
    ];
    let log = log_from_events(&evs);
    assert_eq!(log.len(), 2);
    assert_eq!(log[0].revision, 5);
    assert_eq!(log[0].author, "eve");
    assert_eq!(log[0].rfc3339, "not a date");
    assert_eq!(log[0].date, "not a date");
    assert_eq!(log[0].msg, "x < y");
    assert_eq!(log[0].changes.len(), 2);
    assert_eq!((log[0].changes[0].action, log[0].changes[0].kind.as_str()), ('M', "file"));
    assert_eq!(log[0].changes[0].path, "/a.txt");
    assert_eq!((log[0].changes[1].action, log[0].changes[1].kind.as_str()), ('?', "dir"));
    assert_eq!(log[0].changes[1].path, "");
    assert_eq!(log[1].revision, 0);
}

#[test]
fn parse_info_head_is_the_entry_revision() {
    let xml = r#"<?xml version="1.0" encoding="UTF-8"?>
<info>
<entry kind="dir" path="trunk" revision="100">
<url>http://svn.example.com/repo/trunk</url>
<repository><root>http://svn.example.com/repo</root></repository>
<commit revision="37"><author>a</author></commit>
</entry>
</info>"#;
    let info = parse_info(xml).unwrap();
    assert_eq!(info.head_rev, 100);
    assert_eq!(info.root, "http://svn.example.com/repo");
}

#[test]
fn library_backend_choices() {
    assert_eq!(info_revision(true), InfoRevision::Head);
    assert_eq!(info_revision(false), InfoRevision::Working);
    assert_eq!(diff_failure_message(" \n".into(), "lib".into()), "lib");
    assert_eq!(diff_failure_message(" E1: no \n".into(), "lib".into()), " E1: no \n");
}
