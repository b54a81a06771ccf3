//! The repository data the browser shows, the `svn` command lines it
//! runs, and the reading of what `svn` prints.
use vstd::prelude::*;

pub mod libsvn;

use crate::text::{
    chars_of, concat_str, extend_chars, i64_decimal, int_decimal, lossy_utf8, nat_decimal,
    strip_trailing, strip_trailing_chars, string_of, trim, trimmed, u64_decimal, utf8_lossy,
    utf8_string,
};
use crate::text::{chars_equal, i64_of_text, parse_i64_chars, trim_chars};
use crate::xml::{
    attr, attr_text, event_text, events_view, name_text, read_events, text_of, xml_events_of,
    XmlEvent, XmlEventView, XmlTagView,
};
use crate::dates::{format_local_date, local_text_of};
use vstd::string::StringSliceAdditionalSpecFns;
use vstd::utf8::{decode_utf8, valid_utf8};

verus! {

#[verifier::external_type_specification]
#[verifier::external_body]
pub struct ExIoError(std::io::Error);

/// Why an svn operation failed.
#[derive(Debug)]
pub enum SvnError {
    /// The `svn` program could not be run.
    Io(std::io::Error),
    /// `svn` printed text that is not UTF-8.
    NonUtf8,
    /// `svn` ran and reported an error; its message.
    Command(String),
    /// The output of `svn` lacked what was looked for.
    Parse(String),
}

impl SvnError {
    /// The message shown for this error.
    pub fn message(&self) -> (r: String)
        ensures
            self matches SvnError::Command(s) ==> r@ == s@,
            self matches SvnError::Parse(s) ==> r@ == "解析 svn 输出失败: "@ + s@,
            self is NonUtf8 ==> r@ == "svn 输出不是有效 UTF-8"@,
            self is Io ==> crate::text::starts_with(r@, "无法执行 svn 命令: "@),
    {
        match self {
            SvnError::Io(e) => {
                let detail = e.to_string();
                let r = concat_str("无法执行 svn 命令: ", detail.as_str());
                assert(r@.take("无法执行 svn 命令: "@.len() as int) =~= "无法执行 svn 命令: "@);
                r
            },
            SvnError::NonUtf8 => "svn 输出不是有效 UTF-8".to_owned(),
            SvnError::Command(s) => s.clone(),
            SvnError::Parse(s) => concat_str("解析 svn 输出失败: ", s.as_str()),
        }
    }
}

/// One path changed by a commit.
#[derive(Debug, Clone, PartialEq, Eq)]
pub struct Change {
    /// `A`, `M`, `D` or `R`, as svn reports it.
    pub action: char,
    /// `file` or `dir`.
    pub kind: String,
    pub path: String,
}

pub struct ChangeView {
    pub action: char,
    pub kind: Seq<char>,
    pub path: Seq<char>,
}

impl View for Change {
    type V = ChangeView;

    open spec fn view(&self) -> ChangeView {
        ChangeView { action: self.action, kind: self.kind@, path: self.path@ }
    }
}

/// One commit of the log.
#[derive(Debug, Clone, PartialEq, Eq)]
pub struct LogEntry {
    pub revision: i64,
    pub author: String,
    /// The commit time in local time, `YYYY-MM-DD HH:MM`.
    pub date: String,
    /// The commit time as svn reports it (RFC 3339).
    pub rfc3339: String,
    pub msg: String,
    pub changes: Vec<Change>,
}

pub struct LogEntryView {
    pub revision: i64,
    pub author: Seq<char>,
    pub date: Seq<char>,
    pub rfc3339: Seq<char>,
    pub msg: Seq<char>,
    pub changes: Seq<ChangeView>,
}

pub open spec fn changes_view(v: Seq<Change>) -> Seq<ChangeView> {
    v.map_values(|c: Change| c@)
}

impl View for LogEntry {
    type V = LogEntryView;

    open spec fn view(&self) -> LogEntryView {
        LogEntryView {
            revision: self.revision,
            author: self.author@,
            date: self.date@,
            rfc3339: self.rfc3339@,
            msg: self.msg@,
            changes: changes_view(self.changes@),
        }
    }
}

/// A commit with the given revision and nothing else known of it.
pub open spec fn blank_entry(revision: i64) -> LogEntryView {
    LogEntryView {
        revision,
        author: seq![],
        date: seq![],
        rfc3339: seq![],
        msg: seq![],
        changes: seq![],
    }
}

impl LogEntry {
    /// A commit with the given revision and empty fields.
    pub fn new(revision: i64) -> (e: LogEntry)
        ensures
            e@ == blank_entry(revision),
    {
        let e = LogEntry {
            revision,
            author: String::new(),
            date: String::new(),
            rfc3339: String::new(),
            msg: String::new(),
            changes: Vec::new(),
        };
        assert(e@.changes =~= Seq::<ChangeView>::empty());
        e
    }
}

/// Where a repository lives and which revision is its newest.
#[derive(Debug, Clone, PartialEq, Eq)]
pub struct RepoInfo {
    /// URL of the repository root.
    pub root: String,
    /// URL of the target inside the repository.
    pub url: String,
    pub head_rev: i64,
}

/// The URL of `path` (which starts with `/`) inside the repository at
/// `root`; the root itself for an empty path.
pub open spec fn full_url_of(root: Seq<char>, path: Seq<char>) -> Seq<char> {
    if path.len() == 0 {
        root
    } else {
        strip_trailing(root, '/') + path
    }
}

impl RepoInfo {
    /// Joins a path of the repository to the root URL.
    pub fn full_url(&self, path: &str) -> (r: String)
        ensures
            r@ == full_url_of(self.root@, path@),
    {
        if path.is_empty() {
            self.root.clone()
        } else {
            let root = chars_of(self.root.as_str());
            let mut v = strip_trailing_chars(&root, '/');
            let p = chars_of(path);
            extend_chars(&mut v, &p);
            string_of(&v)
        }
    }
}

// ------------------------------------------------------------------
// Command lines
// ------------------------------------------------------------------

/// Number of commits fetched per batch when none is given.
pub const DEFAULT_LIMIT: usize = 500;

/// The batch size actually used: the default for zero.
pub open spec fn batch_size(limit: usize) -> usize {
    if limit == 0 {
        DEFAULT_LIMIT
    } else {
        limit
    }
}

/// The batch size actually used: the default for zero.
pub fn effective_limit(limit: usize) -> (r: usize)
    ensures
        r == batch_size(limit),
{
    if limit == 0 {
        DEFAULT_LIMIT
    } else {
        limit
    }
}

pub open spec fn strings_view(v: Seq<String>) -> Seq<Seq<char>> {
    v.map_values(|s: String| s@)
}

/// Arguments of `svn info --xml` for a URL or working copy path.
pub open spec fn info_args_of(target: Seq<char>) -> Seq<Seq<char>> {
    seq!["info"@, "--xml"@, target]
}

/// Arguments of `svn log -v --xml` for the newest `limit` commits.
pub open spec fn log_args_of(target: Seq<char>, limit: usize) -> Seq<Seq<char>> {
    seq!["log"@, "-v"@, "--xml"@, "-l"@, nat_decimal(batch_size(limit) as nat), target]
}

/// Arguments of `svn log -v --xml` for at most `limit` commits older
/// than `upto`: the revision range `{upto-1}:1`.
pub open spec fn log_upto_args_of(target: Seq<char>, limit: usize, upto: i64) -> Seq<Seq<char>> {
    seq![
        "log"@,
        "-v"@,
        "--xml"@,
        "-r"@,
        int_decimal(upto - 1) + ":1"@,
        "-l"@,
        nat_decimal(batch_size(limit) as nat),
        target,
    ]
}

/// Arguments of `svn diff -c {rev} {url}@{rev}`: the change made by one
/// commit, with the URL pinned to that revision so that deleted files
/// still have a diff.
pub open spec fn diff_args_of(url: Seq<char>, rev: i64) -> Seq<Seq<char>> {
    seq!["diff"@, "-c"@, int_decimal(rev as int), url + "@"@ + int_decimal(rev as int)]
}

/// The arguments of `svn info --xml {target}`.
pub fn info_args(target: &str) -> (r: Vec<String>)
    ensures
        strings_view(r@) == info_args_of(target@),
{
    let mut r: Vec<String> = Vec::new();
    r.push("info".to_owned());
    r.push("--xml".to_owned());
    r.push(target.to_owned());
    assert(strings_view(r@) =~= info_args_of(target@));
    r
}

/// The arguments of `svn log -v --xml -l {limit} {target}`.
pub fn log_args(target: &str, limit: usize) -> (r: Vec<String>)
    ensures
        strings_view(r@) == log_args_of(target@, limit),
{
    let n = effective_limit(limit);
    let mut r: Vec<String> = Vec::new();
    r.push("log".to_owned());
    r.push("-v".to_owned());
    r.push("--xml".to_owned());
    r.push("-l".to_owned());
    r.push(string_of(&u64_decimal(n as u64)));
    r.push(target.to_owned());
    assert(strings_view(r@) =~= log_args_of(target@, limit));
    r
}

/// The arguments of `svn log -v --xml -r {upto-1}:1 -l {limit} {target}`,
/// or `None` when `upto <= 1`: then no older commit exists and svn is not
/// asked at all.
pub fn log_upto_args(target: &str, limit: usize, upto: i64) -> (r: Option<Vec<String>>)
    ensures
        upto <= 1 <==> r is None,
        r matches Some(v) ==> strings_view(v@) == log_upto_args_of(target@, limit, upto),
{
    if upto <= 1 {
        return None;
    }
    let n = effective_limit(limit);
    let mut range = i64_decimal(upto - 1);
    let tail = chars_of(":1");
    extend_chars(&mut range, &tail);
    let mut r: Vec<String> = Vec::new();
    r.push("log".to_owned());
    r.push("-v".to_owned());
    r.push("--xml".to_owned());
    r.push("-r".to_owned());
    r.push(string_of(&range));
    r.push("-l".to_owned());
    r.push(string_of(&u64_decimal(n as u64)));
    r.push(target.to_owned());
    assert(strings_view(r@) =~= log_upto_args_of(target@, limit, upto));
    Some(r)
}

/// The arguments of `svn diff -c {rev} {target_url}@{rev}`.
pub fn diff_args(target_url: &str, rev: i64) -> (r: Vec<String>)
    ensures
        strings_view(r@) == diff_args_of(target_url@, rev),
{
    let digits = i64_decimal(rev);
    let mut peg = chars_of(target_url);
    let at = chars_of("@");
    extend_chars(&mut peg, &at);
    extend_chars(&mut peg, &digits);
    let mut r: Vec<String> = Vec::new();
    r.push("diff".to_owned());
    r.push("-c".to_owned());
    r.push(string_of(&digits));
    r.push(string_of(&peg));
    assert(strings_view(r@) =~= diff_args_of(target_url@, rev));
    r
}

/// The message of a failed svn run: its trimmed error output, or its
/// trimmed standard output when the error output is blank.
pub open spec fn failure_message(stdout: Seq<u8>, stderr: Seq<u8>) -> Seq<char> {
    if trimmed(lossy_utf8(stderr)).len() == 0 {
        trimmed(lossy_utf8(stdout))
    } else {
        trimmed(lossy_utf8(stderr))
    }
}

/// Reads the outcome of one run of `svn`: its output text when it
/// succeeded and printed UTF-8, else the error.
pub fn command_output(success: bool, stdout: Vec<u8>, stderr: Vec<u8>) -> (r: Result<
    String,
    SvnError,
>)
    ensures
        !success ==> (r matches Err(SvnError::Command(m)) && m@ == failure_message(
            stdout@,
            stderr@,
        )),
        success && valid_utf8(stdout@) ==> (r matches Ok(s) && s@ == decode_utf8(stdout@)),
        success && !valid_utf8(stdout@) ==> (r matches Err(SvnError::NonUtf8)),
{
    if !success {
        let err = utf8_lossy(stderr.as_slice());
        let msg = trim(err.as_str());
        if msg.as_str().is_empty() {
            let out = utf8_lossy(stdout.as_slice());
            return Err(SvnError::Command(trim(out.as_str())));
        }
        return Err(SvnError::Command(msg));
    }
    match utf8_string(stdout) {
        Some(s) => Ok(s),
        None => Err(SvnError::NonUtf8),
    }
}

} // verus!

verus! {

// ------------------------------------------------------------------
// Reading `svn info --xml`
// ------------------------------------------------------------------

/// What has been read of `svn info --xml` output so far.
pub struct InfoState {
    pub root: Seq<char>,
    pub url: Seq<char>,
    pub head_rev: i64,
    /// Character data since the last tag.
    pub text: Seq<char>,
}

pub open spec fn info_start() -> InfoState {
    InfoState { root: seq![], url: seq![], head_rev: 0, text: seq![] }
}

/// One event of `svn info --xml`: the `revision` attribute of `<entry>`
/// (the revision the target was looked up at: HEAD for a URL, the base
/// revision for a working copy) is taken when it is a number; `<root>`
/// and `<url>` take their trimmed text.
pub open spec fn info_step(s: InfoState, ev: XmlEventView) -> InfoState {
    match ev {
        XmlEventView::Start(tag) => InfoState {
            root: s.root,
            url: s.url,
            head_rev: if lossy_utf8(tag.name) == "entry"@ {
                match i64_of_text(attr_text(tag, "revision".spec_bytes())) {
                    Some(r) => r,
                    None => s.head_rev,
                }
            } else {
                s.head_rev
            },
            text: seq![],
        },
        XmlEventView::Text(raw) => InfoState {
            root: s.root,
            url: s.url,
            head_rev: s.head_rev,
            text: s.text + text_of(raw),
        },
        XmlEventView::End(name) => InfoState {
            root: if lossy_utf8(name) == "root"@ {
                trimmed(s.text)
            } else {
                s.root
            },
            url: if lossy_utf8(name) == "url"@ {
                trimmed(s.text)
            } else {
                s.url
            },
            head_rev: s.head_rev,
            text: seq![],
        },
        _ => s,
    }
}

/// The state after reading all of `evs`.
pub open spec fn info_after(evs: Seq<XmlEventView>) -> InfoState
    decreases evs.len(),
{
    if evs.len() == 0 {
        info_start()
    } else {
        info_step(info_after(evs.drop_last()), evs.last())
    }
}

/// What `svn info --xml` output `xml` says.
pub open spec fn info_of(xml: Seq<char>) -> InfoState {
    info_after(xml_events_of(xml))
}

struct InfoAcc {
    root: String,
    url: String,
    head_rev: i64,
    text: Vec<char>,
}

impl InfoAcc {
    spec fn state(&self) -> InfoState {
        InfoState { root: self.root@, url: self.url@, head_rev: self.head_rev, text: self.text@ }
    }

    fn step(&mut self, ev: &XmlEvent)
        ensures
            final(self).state() == info_step(old(self).state(), ev@),
    {
        match ev {
            XmlEvent::Start(tag) => {
                let name = name_text(&tag.name);
                if chars_equal(&name, &chars_of("entry")) {
                    let rev = attr(tag, "revision");
                    match parse_i64_chars(&chars_of(rev.as_str())) {
                        Some(r) => {
                            self.head_rev = r;
                        },
                        None => {},
                    }
                }
                self.text = Vec::new();
            },
            XmlEvent::Text(raw) => {
                let t = event_text(raw);
                extend_chars(&mut self.text, &chars_of(t.as_str()));
            },
            XmlEvent::End(name) => {
                let n = name_text(name);
                if chars_equal(&n, &chars_of("root")) {
                    self.root = string_of(&trim_chars(&self.text));
                }
                if chars_equal(&n, &chars_of("url")) {
                    self.url = string_of(&trim_chars(&self.text));
                }
                self.text = Vec::new();
            },
            _ => {},
        }
    }
}

/// Reads the events of `svn info --xml` output.  It is an error, and
/// only then, when they name no (non-blank) URL.
pub fn info_from_events(evs: &Vec<XmlEvent>) -> (r: Result<RepoInfo, SvnError>)
    ensures
        info_after(events_view(evs@)).url.len() == 0 <==> r is Err,
        r matches Ok(info) ==> info.root@ == info_after(events_view(evs@)).root && info.url@
            == info_after(events_view(evs@)).url && info.head_rev == info_after(
            events_view(evs@),
        ).head_rev,
        r matches Err(e) ==> (e matches SvnError::Parse(m) && m@ == "未在输出中找到 <url>"@),
{
    let ghost ev = events_view(evs@);
    let mut acc = InfoAcc { root: String::new(), url: String::new(), head_rev: 0, text: Vec::new() };
    let mut i: usize = 0;
    assert(ev.take(0) =~= Seq::<XmlEventView>::empty());
    while i < evs.len()
        invariant
            i <= evs@.len(),
            ev == events_view(evs@),
            acc.state() == info_after(ev.take(i as int)),
        decreases evs.len() - i,
    {
        assert(ev.take(i + 1).drop_last() =~= ev.take(i as int));
        assert(ev[i as int] == evs@[i as int]@);
        acc.step(&evs[i]);
        i += 1;
    }
    assert(ev.take(evs.len() as int) =~= ev);
    if acc.url.as_str().is_empty() {
        Err(SvnError::Parse("未在输出中找到 <url>".to_owned()))
    } else {
        Ok(RepoInfo { root: acc.root, url: acc.url, head_rev: acc.head_rev })
    }
}

/// Reads `svn info --xml` output.  It is an error, and only then, when
/// the output names no (non-blank) URL.
pub fn parse_info(xml: &str) -> (r: Result<RepoInfo, SvnError>)
    ensures
        info_of(xml@).url.len() == 0 <==> r is Err,
        r matches Ok(info) ==> info.root@ == info_of(xml@).root && info.url@ == info_of(
            xml@,
        ).url && info.head_rev == info_of(xml@).head_rev,
        r matches Err(e) ==> (e matches SvnError::Parse(m) && m@ == "未在输出中找到 <url>"@),
{
    let evs = read_events(xml);
    info_from_events(&evs)
}

} // verus!

verus! {

// ------------------------------------------------------------------
// Reading `svn log -v --xml`
// ------------------------------------------------------------------

/// What has been read of `svn log -v --xml` output so far.  Entries carry
/// no local date yet (`date` is empty); it is derived from `rfc3339`.
pub struct LogState {
    /// Finished `<logentry>` elements.
    pub entries: Seq<LogEntryView>,
    /// The `<logentry>` being read.
    pub cur: Option<LogEntryView>,
    /// Character data since the last tag.
    pub text: Seq<char>,
    /// Action and kind of the `<path>` being read.
    pub pending: Option<(char, Seq<char>)>,
}

pub open spec fn log_start() -> LogState {
    LogState { entries: seq![], cur: None, text: seq![], pending: None }
}

/// The revision of a `<logentry>` tag; 0 when it is no number.
pub open spec fn rev_attr(tag: XmlTagView) -> i64 {
    match i64_of_text(attr_text(tag, "revision".spec_bytes())) {
        Some(r) => r,
        None => 0,
    }
}

/// The action letter of a `<path>` tag; `?` when it has none.
pub open spec fn action_attr(tag: XmlTagView) -> char {
    let a = attr_text(tag, "action".spec_bytes());
    if a.len() > 0 {
        a[0]
    } else {
        '?'
    }
}

pub open spec fn kind_attr(tag: XmlTagView) -> Seq<char> {
    attr_text(tag, "kind".spec_bytes())
}

pub open spec fn with_change(e: LogEntryView, c: ChangeView) -> LogEntryView {
    LogEntryView { changes: e.changes.push(c), ..e }
}

/// One event of `svn log -v --xml`.
pub open spec fn log_step(s: LogState, ev: XmlEventView) -> LogState {
    match ev {
        XmlEventView::Start(tag) => {
            let n = lossy_utf8(tag.name);
            if n == "logentry"@ {
                LogState { cur: Some(blank_entry(rev_attr(tag))), text: seq![], ..s }
            } else if n == "path"@ {
                LogState { pending: Some((action_attr(tag), kind_attr(tag))), text: seq![], ..s }
            } else {
                LogState { text: seq![], ..s }
            }
        },
        XmlEventView::Empty(tag) => {
            let cur = match s.cur {
                Some(e) => if lossy_utf8(tag.name) == "path"@ {
                    Some(
                        with_change(
                            e,
                            ChangeView { action: action_attr(tag), kind: kind_attr(tag), path: seq![] },
                        ),
                    )
                } else {
                    Some(e)
                },
                None => None,
            };
            LogState { cur, text: seq![], ..s }
        },
        XmlEventView::Text(raw) => LogState { text: s.text + text_of(raw), ..s },
        XmlEventView::End(name) => {
            let n = lossy_utf8(name);
            let t = trimmed(s.text);
            if n == "logentry"@ {
                match s.cur {
                    Some(e) => LogState { entries: s.entries.push(e), cur: None, text: seq![], ..s },
                    None => LogState { text: seq![], ..s },
                }
            } else if n == "path"@ {
                match s.pending {
                    Some((a, k)) => LogState {
                        cur: match s.cur {
                            Some(e) => Some(with_change(e, ChangeView { action: a, kind: k, path: t })),
                            None => None,
                        },
                        pending: None,
                        text: seq![],
                        ..s
                    },
                    None => LogState { text: seq![], ..s },
                }
            } else if n == "author"@ {
                LogState {
                    cur: match s.cur {
                        Some(e) => Some(LogEntryView { author: t, ..e }),
                        None => None,
                    },
                    text: seq![],
                    ..s
                }
            } else if n == "date"@ {
                LogState {
                    cur: match s.cur {
                        Some(e) => Some(LogEntryView { rfc3339: t, ..e }),
                        None => None,
                    },
                    text: seq![],
                    ..s
                }
            } else if n == "msg"@ {
                LogState {
                    cur: match s.cur {
                        Some(e) => Some(LogEntryView { msg: t, ..e }),
                        None => None,
                    },
                    text: seq![],
                    ..s
                }
            } else {
                LogState { text: seq![], ..s }
            }
        },
        XmlEventView::Other => s,
    }
}

/// The state after reading all of `evs`.
pub open spec fn log_after(evs: Seq<XmlEventView>) -> LogState
    decreases evs.len(),
{
    if evs.len() == 0 {
        log_start()
    } else {
        log_step(log_after(evs.drop_last()), evs.last())
    }
}

/// The commits that `svn log -v --xml` output `xml` lists, in order,
/// before their local dates are filled in.
pub open spec fn log_entries_of(xml: Seq<char>) -> Seq<LogEntryView> {
    log_after(xml_events_of(xml)).entries
}

/// `e` is the commit `s` with its local date filled in: all fields but
/// `date` agree, and `date` shows the RFC 3339 time in local time as
/// `YYYY-MM-DD HH:MM`, or is that text itself when it is no valid
/// timestamp.
pub open spec fn dated(e: LogEntryView, s: LogEntryView) -> bool {
    &&& e.revision == s.revision
    &&& e.author == s.author
    &&& e.rfc3339 == s.rfc3339
    &&& e.msg == s.msg
    &&& e.changes == s.changes
    &&& local_text_of(e.rfc3339, e.date)
}

struct LogAcc {
    entries: Vec<LogEntry>,
    cur: Option<LogEntry>,
    text: Vec<char>,
    pending: Option<(char, String)>,
}

impl LogAcc {
    spec fn holds(&self, s: LogState) -> bool {
        &&& self.entries@.len() == s.entries.len()
        &&& forall|i: int| 0 <= i < s.entries.len() ==> dated(#[trigger] self.entries@[i]@, s.entries[i])
        &&& match self.cur {
            Some(c) => s.cur == Some(c@),
            None => s.cur is None,
        }
        &&& self.text@ == s.text
        &&& match self.pending {
            Some((a, k)) => s.pending == Some((a, k@)),
            None => s.pending is None,
        }
    }

    fn add_change(&mut self, c: Change)
        ensures
            final(self).entries == old(self).entries,
            final(self).text == old(self).text,
            final(self).pending == old(self).pending,
            match old(self).cur {
                Some(e) => final(self).cur matches Some(f) && f@ == with_change(e@, c@),
                None => final(self).cur is None,
            },
    {
        match self.cur.take() {
            Some(mut e) => {
                let ghost before = e@;
                e.changes.push(c);
                assert(e@.changes =~= before.changes.push(c@));
                assert(e@ == with_change(before, c@));
                self.cur = Some(e);
            },
            None => {},
        }
    }

    fn step(&mut self, ev: &XmlEvent, Ghost(s): Ghost<LogState>)
        requires
            old(self).holds(s),
        ensures
            final(self).holds(log_step(s, ev@)),
    {
        match ev {
            XmlEvent::Start(tag) => {
                let name = name_text(&tag.name);
                if chars_equal(&name, &chars_of("logentry")) {
                    let rev_text = attr(tag, "revision");
                    let rev = match parse_i64_chars(&chars_of(rev_text.as_str())) {
                        Some(r) => r,
                        None => 0,
                    };
                    self.cur = Some(LogEntry::new(rev));
                } else if chars_equal(&name, &chars_of("path")) {
                    let action = first_char_or(attr(tag, "action").as_str(), '?');
                    let kind = attr(tag, "kind");
                    self.pending = Some((action, kind));
                }
                self.text = Vec::new();
            },
            XmlEvent::Empty(tag) => {
                let name = name_text(&tag.name);
                if chars_equal(&name, &chars_of("path")) {
                    let action = first_char_or(attr(tag, "action").as_str(), '?');
                    let kind = attr(tag, "kind");
                    self.add_change(Change { action, kind, path: String::new() });
                }
                self.text = Vec::new();
            },
            XmlEvent::Text(raw) => {
                let t = event_text(raw);
                extend_chars(&mut self.text, &chars_of(t.as_str()));
            },
            XmlEvent::End(name) => {
                let n = name_text(name);
                let t = string_of(&trim_chars(&self.text));
                if chars_equal(&n, &chars_of("logentry")) {
                    match self.cur.take() {
                        Some(mut e) => {
                            e.date = format_local_date(e.rfc3339.as_str());
                            self.entries.push(e);
                        },
                        None => {},
                    }
                } else if chars_equal(&n, &chars_of("path")) {
                    match self.pending.take() {
                        Some((a, k)) => {
                            self.add_change(Change { action: a, kind: k, path: t });
                        },
                        None => {},
                    }
                } else if chars_equal(&n, &chars_of("author")) {
                    match self.cur.take() {
                        Some(mut e) => {
                            e.author = t;
                            self.cur = Some(e);
                        },
                        None => {},
                    }
                } else if chars_equal(&n, &chars_of("date")) {
                    match self.cur.take() {
                        Some(mut e) => {
                            e.rfc3339 = t;
                            self.cur = Some(e);
                        },
                        None => {},
                    }
                } else if chars_equal(&n, &chars_of("msg")) {
                    match self.cur.take() {
                        Some(mut e) => {
                            e.msg = t;
                            self.cur = Some(e);
                        },
                        None => {},
                    }
                }
                self.text = Vec::new();
            },
            XmlEvent::Other => {},
        }
    }
}

/// The first character of `s`, or `dflt` for an empty string.
pub fn first_char_or(s: &str, dflt: char) -> (c: char)
    ensures
        c == (if s@.len() > 0 {
            s@[0]
        } else {
            dflt
        }),
{
    let v = chars_of(s);
    if v.len() > 0 {
        v[0]
    } else {
        dflt
    }
}

proof fn lemma_log_after_take(evs: Seq<XmlEventView>, k: int)
    requires
        0 <= k < evs.len(),
    ensures
        log_after(evs.take(k + 1)) == log_step(log_after(evs.take(k)), evs[k]),
{
    assert(evs.take(k + 1).drop_last() =~= evs.take(k));
}

/// A `<logentry>` element holding `<author>`, `<date>` and `<msg>`
/// elements, each with its character data, is read as one commit: its
/// revision is the `revision` attribute (0 when that is no number), and
/// its author, time and message are the whole trimmed text of those
/// elements, however many lines the message has.
pub proof fn lemma_log_entry_takes_whole_texts(
    xml: Seq<char>,
    entry: XmlTagView,
    author: XmlTagView,
    date: XmlTagView,
    msg: XmlTagView,
    author_text: Seq<u8>,
    date_text: Seq<u8>,
    msg_text: Seq<u8>,
    author_end: Seq<u8>,
    date_end: Seq<u8>,
    msg_end: Seq<u8>,
    entry_end: Seq<u8>,
)
    requires
        lossy_utf8(entry.name) == "logentry"@,
        lossy_utf8(author.name) == "author"@,
        lossy_utf8(date.name) == "date"@,
        lossy_utf8(msg.name) == "msg"@,
        lossy_utf8(author_end) == "author"@,
        lossy_utf8(date_end) == "date"@,
        lossy_utf8(msg_end) == "msg"@,
        lossy_utf8(entry_end) == "logentry"@,
        xml_events_of(xml) == seq![
            XmlEventView::Start(entry),
            XmlEventView::Start(author),
            XmlEventView::Text(author_text),
            XmlEventView::End(author_end),
            XmlEventView::Start(date),
            XmlEventView::Text(date_text),
            XmlEventView::End(date_end),
            XmlEventView::Start(msg),
            XmlEventView::Text(msg_text),
            XmlEventView::End(msg_end),
            XmlEventView::End(entry_end),
        ],
    ensures
        log_entries_of(xml).len() == 1,
        log_entries_of(xml)[0].revision == match i64_of_text(
            attr_text(entry, "revision".spec_bytes()),
        ) {
            Some(r) => r,
            None => 0,
        },
        log_entries_of(xml)[0].author == trimmed(text_of(author_text)),
        log_entries_of(xml)[0].rfc3339 == trimmed(text_of(date_text)),
        log_entries_of(xml)[0].msg == trimmed(text_of(msg_text)),
        log_entries_of(xml)[0].changes.len() == 0,
{
    reveal_strlit("logentry");
    reveal_strlit("path");
    reveal_strlit("author");
    reveal_strlit("date");
    reveal_strlit("msg");
    let evs = xml_events_of(xml);
    assert(evs.take(0) =~= Seq::<XmlEventView>::empty());
    lemma_log_after_take(evs, 0);
    lemma_log_after_take(evs, 1);
    lemma_log_after_take(evs, 2);
    lemma_log_after_take(evs, 3);
    lemma_log_after_take(evs, 4);
    lemma_log_after_take(evs, 5);
    lemma_log_after_take(evs, 6);
    lemma_log_after_take(evs, 7);
    lemma_log_after_take(evs, 8);
    lemma_log_after_take(evs, 9);
    lemma_log_after_take(evs, 10);
    assert("logentry"@[0] == 'l' && "path"@[0] == 'p' && "author"@[0] == 'a' && "date"@[0] == 'd'
        && "msg"@[0] == 'm');
    assert("logentry"@ != "path"@);
    assert("author"@ != "logentry"@ && "author"@ != "path"@);
    assert("date"@ != "logentry"@ && "date"@ != "path"@ && "date"@ != "author"@);
    assert("msg"@ != "logentry"@ && "msg"@ != "path"@ && "msg"@ != "author"@ && "msg"@ != "date"@);
    let s1 = log_after(evs.take(1));
    assert(s1.cur == Some(blank_entry(rev_attr(entry))));
    let s4 = log_after(evs.take(4));
    assert(s4.cur == Some(LogEntryView { author: trimmed(text_of(author_text)), ..blank_entry(rev_attr(entry)) }));
    let s7 = log_after(evs.take(7));
    assert(s7.cur == Some(LogEntryView {
        author: trimmed(text_of(author_text)),
        rfc3339: trimmed(text_of(date_text)),
        ..blank_entry(rev_attr(entry))
    }));
    let s10 = log_after(evs.take(10));
    assert(s10.cur == Some(LogEntryView {
        author: trimmed(text_of(author_text)),
        rfc3339: trimmed(text_of(date_text)),
        msg: trimmed(text_of(msg_text)),
        ..blank_entry(rev_attr(entry))
    }));
    assert(evs.take(11) =~= evs);
    assert(log_after(evs).entries.len() == 1);
}

/// Reads the events of `svn log -v --xml` output: the commits they list,
/// in order, each with the changed paths of its `<paths>` element and
/// with its date shown in local time.
pub fn log_from_events(evs: &Vec<XmlEvent>) -> (r: Vec<LogEntry>)
    ensures
        r@.len() == log_after(events_view(evs@)).entries.len(),
        forall|i: int|
            0 <= i < r@.len() ==> dated(#[trigger] r@[i]@, log_after(events_view(evs@)).entries[i]),
{
    let ghost ev = events_view(evs@);
    let mut acc = LogAcc { entries: Vec::new(), cur: None, text: Vec::new(), pending: None };
    let mut i: usize = 0;
    assert(ev.take(0) =~= Seq::<XmlEventView>::empty());
    while i < evs.len()
        invariant
            i <= evs@.len(),
            ev == events_view(evs@),
            acc.holds(log_after(ev.take(i as int))),
        decreases evs.len() - i,
    {
        assert(ev.take(i + 1).drop_last() =~= ev.take(i as int));
        assert(ev[i as int] == evs@[i as int]@);
        acc.step(&evs[i], Ghost(log_after(ev.take(i as int))));
        i += 1;
    }
    assert(ev.take(evs.len() as int) =~= ev);
    acc.entries
}

/// Reads `svn log -v --xml` output: the commits it lists, in order, each
/// with the changed paths of its `<paths>` element and with its date
/// shown in local time.  Reading stops at the first malformed part;
/// what was read before it is kept.
pub fn parse_log(xml: &str) -> (r: Vec<LogEntry>)
    ensures
        r@.len() == log_entries_of(xml@).len(),
        forall|i: int| 0 <= i < r@.len() ==> dated(#[trigger] r@[i]@, log_entries_of(xml@)[i]),
{
    let evs = read_events(xml);
    log_from_events(&evs)
}

} // verus!
