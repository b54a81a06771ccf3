//! What the commit browser shows: the rows of the commit and changed
//! file lists, the selection, and the diff pane.
use vstd::prelude::*;

use crate::diff::{render, render_msg, styled_as, ColoredLine, GRAY, RED};
use crate::svn::{Change, LogEntry};
use crate::text::{
    chars_of, i64_of_text, i64_to_string, int_decimal, lines_of, parse_i64_chars, split_lines,
    string_of, trim_chars, trimmed,
};

verus! {

/// The repository to connect to, as typed: the input without its
/// surrounding whitespace, or `None` when nothing but whitespace was
/// typed.
pub fn connection_target(input: &str) -> (r: Option<String>)
    ensures
        trimmed(input@).len() == 0 ==> r is None,
        trimmed(input@).len() > 0 ==> (r matches Some(t) && t@ == trimmed(input@)),
{
    let v = chars_of(input);
    let t = trim_chars(&v);
    if t.len() == 0 {
        None
    } else {
        Some(string_of(&t))
    }
}

/// One row of the commit list.  The row after the last commit, shown
/// while older commits may exist, is the `loading` row: when it comes
/// into view the next batch is fetched.
pub struct CommitRow {
    pub rev: String,
    pub author: String,
    pub date: String,
    pub msg: String,
    pub loading: bool,
}

/// `row` shows commit `e`.
pub open spec fn shows_commit(row: CommitRow, e: LogEntry) -> bool {
    &&& row.rev@ == int_decimal(e.revision as int)
    &&& row.author@ == e.author@
    &&& row.date@ == e.date@
    &&& row.msg@ == e.msg@
    &&& !row.loading
}

pub open spec fn is_loading_row(row: CommitRow) -> bool {
    &&& row.rev@.len() == 0
    &&& row.author@.len() == 0
    &&& row.date@.len() == 0
    &&& row.msg@.len() == 0
    &&& row.loading
}

/// The row of one commit.
pub fn commit_row(e: &LogEntry) -> (r: CommitRow)
    ensures
        shows_commit(r, *e),
{
    CommitRow {
        rev: i64_to_string(e.revision),
        author: e.author.clone(),
        date: e.date.clone(),
        msg: e.msg.clone(),
        loading: false,
    }
}

/// The "load more" row put after the last commit.
pub fn sentinel_row() -> (r: CommitRow)
    ensures
        is_loading_row(r),
{
    CommitRow {
        rev: String::new(),
        author: String::new(),
        date: String::new(),
        msg: String::new(),
        loading: true,
    }
}

/// The rows for `entries`, followed by the loading row when older
/// commits may exist.
pub fn commit_rows(entries: &Vec<LogEntry>, has_more: bool) -> (r: Vec<CommitRow>)
    ensures
        r@.len() == entries@.len() + if has_more {
            1int
        } else {
            0int
        },
        forall|i: int| 0 <= i < entries@.len() ==> shows_commit(#[trigger] r@[i], entries@[i]),
        has_more ==> is_loading_row(r@[entries@.len() as int]),
{
    let mut out: Vec<CommitRow> = Vec::new();
    let mut i: usize = 0;
    while i < entries.len()
        invariant
            i <= entries@.len(),
            out@.len() == i,
            forall|k: int| 0 <= k < i ==> shows_commit(#[trigger] out@[k], entries@[k]),
        decreases entries.len() - i,
    {
        out.push(commit_row(&entries[i]));
        i += 1;
    }
    if has_more {
        out.push(sentinel_row());
    }
    out
}

/// One row of the changed file list: the action letter and the path.
pub struct ChangeRow {
    pub action: String,
    pub path: String,
}

/// The rows of the changed file list of a commit.
pub fn change_rows(changes: &Vec<Change>) -> (r: Vec<ChangeRow>)
    ensures
        r@.len() == changes@.len(),
        forall|i: int|
            0 <= i < changes@.len() ==> (#[trigger] r@[i]).action@ == seq![changes@[i].action]
                && r@[i].path@ == changes@[i].path@,
{
    let mut out: Vec<ChangeRow> = Vec::new();
    let mut i: usize = 0;
    while i < changes.len()
        invariant
            i <= changes@.len(),
            out@.len() == i,
            forall|k: int|
                0 <= k < i ==> (#[trigger] out@[k]).action@ == seq![changes@[k].action]
                    && out@[k].path@ == changes@[k].path@,
        decreases changes.len() - i,
    {
        let mut a: Vec<char> = Vec::new();
        a.push(changes[i].action);
        out.push(ChangeRow { action: crate::text::string_of(&a), path: changes[i].path.clone() });
        i += 1;
    }
    out
}

/// The position of the first commit with revision `rev`.
pub fn find_commit(commits: &Vec<LogEntry>, rev: i64) -> (r: Option<usize>)
    ensures
        r matches Some(i) ==> i < commits@.len() && commits@[i as int].revision == rev && forall|
            k: int,
        | 0 <= k < i ==> commits@[k].revision != rev,
        r is None ==> forall|k: int| 0 <= k < commits@.len() ==> commits@[k].revision != rev,
{
    let mut i: usize = 0;
    while i < commits.len()
        invariant
            i <= commits@.len(),
            forall|k: int| 0 <= k < i ==> commits@[k].revision != rev,
        decreases commits.len() - i,
    {
        if commits[i].revision == rev {
            return Some(i);
        }
        i += 1;
    }
    None
}

/// The revision of the selected commit as the list shows it; 0 when the
/// text is no number.
pub fn selected_rev(text: &str) -> (r: i64)
    ensures
        r == match i64_of_text(trimmed(text@)) {
            Some(v) => v,
            None => 0,
        },
{
    let v = chars_of(text);
    match parse_i64_chars(&trim_chars(&v)) {
        Some(r) => r,
        None => 0,
    }
}

/// The position of the selected changed file, when `idx` (as the list
/// reports it, possibly negative) names one of `count` files.
pub fn change_index(count: usize, idx: i32) -> (r: Option<usize>)
    ensures
        r is Some <==> 0 <= idx < count,
        r matches Some(i) ==> i == idx,
{
    if idx >= 0 && (idx as usize) < count {
        Some(idx as usize)
    } else {
        None
    }
}

/// The note shown for a change without text differences.
#[verifier::allow_in_spec]
pub fn no_text_diff_message() -> &'static str
    returns
        "（无文本差异：可能是纯属性/二进制变更）",
{
    "（无文本差异：可能是纯属性/二进制变更）"
}

/// The diff pane for the text svn returned, and the number of lines of
/// that text: a gray note when the text is blank, else the rendered
/// lines.
pub fn diff_display(text: &str) -> (r: (Vec<ColoredLine>, usize))
    ensures
        r.1 == lines_of(text@).len(),
        trimmed(text@).len() == 0 ==> r.0@.len() == 1 && r.0@[0].text@ == no_text_diff_message()@
            && r.0@[0].rgb == GRAY && !r.0@[0].bold && !r.0@[0].italic,
        trimmed(text@).len() > 0 ==> r.0@.len() == lines_of(text@).len() && forall|i: int|
            0 <= i < r.0@.len() ==> styled_as(#[trigger] r.0@[i], lines_of(text@)[i]),
{
    let count = split_lines(text).len();
    let v = chars_of(text);
    let t = trim_chars(&v);
    if t.len() == 0 {
        (render_msg(no_text_diff_message(), GRAY), count)
    } else {
        (render(text), count)
    }
}

/// The diff pane when svn failed: the message in red.
pub fn diff_error_display(msg: &str) -> (r: Vec<ColoredLine>)
    ensures
        r@.len() == 1,
        r@[0].text@ == msg@,
        r@[0].rgb == RED,
        !r@[0].bold,
        !r@[0].italic,
{
    render_msg(msg, RED)
}

} // verus!
