//! Log entries as the Subversion library reports them, and their
//! translation into the browser's commits.
use vstd::multiset::Multiset;
use vstd::prelude::*;

use crate::dates::{format_local_date, local_text_of, rfc3339_instant};
use crate::svn::{changes_view, Change, ChangeView, LogEntry};
use crate::text::{chars_of, trim, trimmed};

verus! {

/// The kind of node a changed path is.
#[derive(Debug, Clone, Copy, PartialEq, Eq, Structural)]
pub enum NodeKind {
    File,
    Dir,
    Absent,
    Unknown,
    Symlink,
}

/// One changed path of a library log entry.
pub struct ChangedPath {
    pub path: String,
    pub action: char,
    pub node_kind: NodeKind,
}

/// A log entry as the library reports it; every part may be missing.
pub struct RawLogEntry {
    pub revision: Option<i64>,
    pub author: Option<String>,
    pub date: Option<String>,
    pub message: Option<String>,
    pub changed_paths: Option<Vec<ChangedPath>>,
}

/// The kind text the browser shows: `file`, `dir`, or `?`.
pub open spec fn kind_text(k: NodeKind) -> Seq<char> {
    match k {
        NodeKind::File => "file"@,
        NodeKind::Dir => "dir"@,
        _ => "?"@,
    }
}

/// The kind text of a node kind.
pub fn kind_name(k: NodeKind) -> (r: String)
    ensures
        r@ == kind_text(k),
{
    match k {
        NodeKind::File => "file".to_owned(),
        NodeKind::Dir => "dir".to_owned(),
        _ => "?".to_owned(),
    }
}

/// `a` sorts before `b`: the order of `String::cmp`, lexicographic by
/// code point.
pub open spec fn path_lt(a: Seq<char>, b: Seq<char>) -> bool
    decreases a.len(),
{
    if a.len() == 0 {
        b.len() > 0
    } else if b.len() == 0 {
        false
    } else if a[0] != b[0] {
        a[0] < b[0]
    } else {
        path_lt(a.drop_first(), b.drop_first())
    }
}

/// Whether `a` sorts before `b`.
pub fn chars_less(a: &Vec<char>, b: &Vec<char>) -> (r: bool)
    ensures
        r == path_lt(a@, b@),
{
    let mut i: usize = 0;
    assert(a@.skip(0) =~= a@);
    assert(b@.skip(0) =~= b@);
    while i < a.len() && i < b.len() && a[i] == b[i]
        invariant
            i <= a@.len(),
            i <= b@.len(),
            path_lt(a@, b@) == path_lt(a@.skip(i as int), b@.skip(i as int)),
        decreases a.len() - i,
    {
        assert(a@.skip(i as int).drop_first() =~= a@.skip(i + 1));
        assert(b@.skip(i as int).drop_first() =~= b@.skip(i + 1));
        i += 1;
    }
    if i == a.len() {
        i < b.len()
    } else if i == b.len() {
        false
    } else {
        assert(a@.skip(i as int)[0] == a@[i as int]);
        assert(b@.skip(i as int)[0] == b@[i as int]);
        a[i] < b[i]
    }
}

/// `s` with `x` put after every element that does not sort after it
/// (one step of a stable insertion sort).
pub open spec fn insert_by_path(s: Seq<ChangeView>, x: ChangeView) -> Seq<ChangeView>
    decreases s.len(),
{
    if s.len() > 0 && path_lt(x.path, s.last().path) {
        insert_by_path(s.drop_last(), x).push(s.last())
    } else {
        s.push(x)
    }
}

/// `s` sorted by path, keeping the order of equal paths: what
/// `sort_by(|a, b| a.path.cmp(&b.path))` yields.
pub open spec fn sort_by_path(s: Seq<ChangeView>) -> Seq<ChangeView>
    decreases s.len(),
{
    if s.len() == 0 {
        seq![]
    } else {
        insert_by_path(sort_by_path(s.drop_last()), s.last())
    }
}

proof fn lemma_insert_at(s: Seq<ChangeView>, x: ChangeView, j: int)
    requires
        0 <= j <= s.len(),
        forall|k: int| j <= k < s.len() ==> path_lt(x.path, #[trigger] s[k].path),
        j > 0 ==> !path_lt(x.path, s[j - 1].path),
    ensures
        insert_by_path(s, x) == s.insert(j, x),
    decreases s.len(),
{
    if s.len() > 0 && path_lt(x.path, s.last().path) {
        lemma_insert_at(s.drop_last(), x, j);
        assert(s.drop_last().insert(j, x).push(s.last()) =~= s.insert(j, x));
    } else {
        if j < s.len() {
            assert(path_lt(x.path, s[s.len() - 1].path));
        }
        assert(s.push(x) =~= s.insert(j, x));
    }
}

/// No change of `s` sorts before one that comes earlier.
pub open spec fn sorted_by_path(s: Seq<ChangeView>) -> bool {
    forall|i: int, j: int| 0 <= i < j < s.len() ==> !path_lt(#[trigger] s[j].path, #[trigger] s[i].path)
}

proof fn lemma_path_lt_asymmetric(a: Seq<char>, b: Seq<char>)
    requires
        path_lt(a, b),
    ensures
        !path_lt(b, a),
    decreases a.len(),
{
    if a.len() > 0 && b.len() > 0 && a[0] == b[0] {
        lemma_path_lt_asymmetric(a.drop_first(), b.drop_first());
    }
}

proof fn lemma_path_lt_transitive(a: Seq<char>, b: Seq<char>, c: Seq<char>)
    requires
        path_lt(a, b),
        path_lt(b, c),
    ensures
        path_lt(a, c),
    decreases a.len(),
{
    if a.len() > 0 && a[0] == b[0] && b[0] == c[0] {
        lemma_path_lt_transitive(a.drop_first(), b.drop_first(), c.drop_first());
    }
}

proof fn lemma_path_lt_total(a: Seq<char>, b: Seq<char>)
    requires
        !path_lt(a, b),
        !path_lt(b, a),
    ensures
        a == b,
    decreases a.len(),
{
    if a.len() > 0 && b.len() > 0 {
        if a[0] == b[0] {
            lemma_path_lt_total(a.drop_first(), b.drop_first());
            assert(a =~= seq![a[0]] + a.drop_first());
            assert(b =~= seq![b[0]] + b.drop_first());
        } else {
            assert(a[0] < b[0] || b[0] < a[0]);
        }
    } else {
        assert(a =~= b);
    }
}

/// Where `insert_by_path` puts `x`: after every element that does not
/// sort after it.
proof fn lemma_insert_position(s: Seq<ChangeView>, x: ChangeView) -> (j: int)
    ensures
        0 <= j <= s.len(),
        insert_by_path(s, x) == s.insert(j, x),
        forall|k: int| j <= k < s.len() ==> path_lt(x.path, #[trigger] s[k].path),
        j > 0 ==> !path_lt(x.path, s[j - 1].path),
    decreases s.len(),
{
    if s.len() > 0 && path_lt(x.path, s.last().path) {
        let j = lemma_insert_position(s.drop_last(), x);
        assert(s.drop_last().insert(j, x).push(s.last()) =~= s.insert(j, x));
        assert forall|k: int| j <= k < s.len() implies path_lt(x.path, #[trigger] s[k].path) by {
            if k < s.len() - 1 {
                assert(s[k] == s.drop_last()[k]);
            }
        }
        if j > 0 {
            assert(s[j - 1] == s.drop_last()[j - 1]);
        }
        j
    } else {
        assert(s.push(x) =~= s.insert(s.len() as int, x));
        s.len() as int
    }
}

proof fn lemma_insert_keeps_sorted(s: Seq<ChangeView>, x: ChangeView)
    requires
        sorted_by_path(s),
    ensures
        sorted_by_path(insert_by_path(s, x)),
        insert_by_path(s, x).to_multiset() =~= s.to_multiset().insert(x),
{
    broadcast use vstd::seq_lib::group_to_multiset_ensures;

    let j = lemma_insert_position(s, x);
    let r = s.insert(j, x);
    assert forall|a: int, b: int| 0 <= a < b < r.len() implies !path_lt(
        #[trigger] r[b].path,
        #[trigger] r[a].path,
    ) by {
        if b < j {
            assert(r[a] == s[a] && r[b] == s[b]);
        } else if b == j {
            assert(r[a] == s[a]);
            if path_lt(x.path, s[a].path) {
                if a < j - 1 {
                    assert(!path_lt(s[j - 1].path, s[a].path));
                    if path_lt(s[a].path, s[j - 1].path) {
                        lemma_path_lt_transitive(x.path, s[a].path, s[j - 1].path);
                    } else {
                        lemma_path_lt_total(s[a].path, s[j - 1].path);
                    }
                }
            }
        } else if a == j {
            assert(r[b] == s[b - 1]);
            lemma_path_lt_asymmetric(x.path, s[b - 1].path);
        } else if a < j {
            assert(r[a] == s[a] && r[b] == s[b - 1]);
        } else {
            assert(r[a] == s[a - 1] && r[b] == s[b - 1]);
        }
    }
    assert(r.remove(j) =~= s);
    assert(r[j] == x);
    assert(r.to_multiset().remove(x) =~= s.to_multiset());
    assert(r.to_multiset().count(x) > 0) by {
        assert(r.contains(x));
    }
    assert(r.to_multiset() =~= s.to_multiset().insert(x));
}

/// Sorting by path yields the changes it was given, each as often as it
/// was given, in an order where no path sorts before an earlier one.
pub proof fn lemma_sort_by_path_sorts(s: Seq<ChangeView>)
    ensures
        sorted_by_path(sort_by_path(s)),
        sort_by_path(s).to_multiset() =~= s.to_multiset(),
    decreases s.len(),
{
    broadcast use vstd::seq_lib::group_to_multiset_ensures;

    if s.len() > 0 {
        lemma_sort_by_path_sorts(s.drop_last());
        lemma_insert_keeps_sorted(sort_by_path(s.drop_last()), s.last());
        assert(s.drop_last().push(s.last()) =~= s);
    } else {
        assert(s.to_multiset() =~= Multiset::<ChangeView>::empty());
    }
}

/// The changes in the order `sort_by` on their paths gives.
pub fn sort_changes(v: Vec<Change>) -> (r: Vec<Change>)
    ensures
        changes_view(r@) == sort_by_path(changes_view(v@)),
{
    let ghost orig = changes_view(v@);
    let n = v.len();
    let mut rest = v;
    let mut out: Vec<Change> = Vec::new();
    let mut paths: Vec<Vec<char>> = Vec::new();
    let mut i: usize = 0;
    assert(orig.take(0) =~= Seq::<ChangeView>::empty());
    while i < n
        invariant
            i <= n == orig.len(),
            changes_view(rest@) == orig.skip(i as int),
            changes_view(out@) == sort_by_path(orig.take(i as int)),
            paths@.len() == out@.len(),
            forall|k: int| 0 <= k < out@.len() ==> (#[trigger] paths@[k])@ == out@[k].path@,
        decreases n - i,
    {
        assert(changes_view(rest@).len() == n - i);
        assert(changes_view(rest@)[0] == rest@[0]@);
        let ghost prev = rest@;
        let c = rest.remove(0);
        assert forall|k: int| 0 <= k < rest@.len() implies changes_view(rest@)[k] == orig.skip(
            i + 1,
        )[k] by {
            assert(rest@[k] == prev[k + 1]);
            assert(changes_view(prev)[k + 1] == prev[k + 1]@);
        }
        assert(changes_view(rest@) =~= orig.skip(i + 1));
        assert(c@ == orig[i as int]);
        let cp = chars_of(c.path.as_str());
        let ghost s = changes_view(out@);
        let mut j = out.len();
        while j > 0 && chars_less(&cp, &paths[j - 1])
            invariant
                j <= out@.len() == s.len() == paths@.len(),
                s == changes_view(out@),
                cp@ == c.path@,
                forall|k: int| 0 <= k < out@.len() ==> (#[trigger] paths@[k])@ == out@[k].path@,
                forall|k: int| j <= k < s.len() ==> path_lt(cp@, #[trigger] s[k].path),
            decreases j,
        {
            assert(s[j - 1] == out@[j - 1]@);
            j -= 1;
        }
        proof {
            if j > 0 {
                assert(s[j - 1] == out@[j - 1]@);
            }
            lemma_insert_at(s, c@, j as int);
        }
        out.insert(j, c);
        paths.insert(j, cp);
        assert(changes_view(out@) =~= s.insert(j as int, orig[i as int]));
        assert(orig.take(i + 1).drop_last() =~= orig.take(i as int));
        assert forall|k: int| 0 <= k < out@.len() implies (#[trigger] paths@[k])@ == out@[k].path@ by {
            if k < j {
            } else if k == j {
            } else {
            }
        }
        i += 1;
    }
    assert(orig.take(n as int) =~= orig);
    out
}

/// The text of an optional library string; empty when missing.
pub open spec fn text_or_empty(s: Option<String>) -> Seq<char> {
    match s {
        Some(t) => t@,
        None => seq![],
    }
}

fn take_text(s: Option<String>) -> (r: String)
    ensures
        r@ == text_or_empty(s),
{
    match s {
        Some(t) => t,
        None => String::new(),
    }
}

/// The browser's change for one library changed path.
pub open spec fn change_of(p: ChangedPath) -> ChangeView {
    ChangeView { action: p.action, kind: kind_text(p.node_kind), path: p.path@ }
}

/// Translates a library log entry: missing parts become 0 or empty, the
/// date is shown in local time, and the changes are sorted by path.
pub fn translate(entry: RawLogEntry) -> (e: LogEntry)
    ensures
        e.revision == match entry.revision {
            Some(r) => r,
            None => 0,
        },
        e.author@ == text_or_empty(entry.author),
        e.rfc3339@ == text_or_empty(entry.date),
        e.msg@ == text_or_empty(entry.message),
        rfc3339_instant(e.rfc3339@) is None ==> e.date@ == e.rfc3339@,
        local_text_of(e.rfc3339@, e.date@),
        changes_view(e.changes@) == match entry.changed_paths {
            Some(ps) => sort_by_path(ps@.map_values(|p: ChangedPath| change_of(p))),
            None => Seq::<ChangeView>::empty(),
        },
{
    let revision = match entry.revision {
        Some(r) => r,
        None => 0,
    };
    let author = take_text(entry.author);
    let rfc3339 = take_text(entry.date);
    let date = format_local_date(rfc3339.as_str());
    let msg = take_text(entry.message);
    let changes = match entry.changed_paths {
        Some(ps) => {
            let ghost pv = ps@.map_values(|p: ChangedPath| change_of(p));
            let mut cs: Vec<Change> = Vec::new();
            let mut rest = ps;
            let n = rest.len();
            let mut i: usize = 0;
            while i < n
                invariant
                    i <= n,
                    pv.len() == n,
                    rest@.len() == n - i,
                    forall|k: int| 0 <= k < rest@.len() ==> change_of(#[trigger] rest@[k]) == pv[i + k],
                    changes_view(cs@) == pv.take(i as int),
                decreases n - i,
            {
                let ghost prev = rest@;
                let p = rest.remove(0);
                assert(change_of(p) == pv[i as int]);
                assert forall|k: int| 0 <= k < rest@.len() implies change_of(#[trigger] rest@[k])
                    == pv[i + 1 + k] by {
                    assert(rest@[k] == prev[k + 1]);
                }
                let ghost pc = change_of(p);
                let kind = kind_name(p.node_kind);
                assert(changes_view(cs@).len() == cs@.len());
                assert(cs@.len() == i);
                let ghost before = cs@;
                cs.push(Change { action: p.action, kind, path: p.path });
                assert(cs@[i as int]@ == pc);
                assert forall|k: int| 0 <= k < i implies cs@[k] == before[k] by {}
                assert(changes_view(cs@) =~= pv.take(i + 1));
                i += 1;
            }
            assert(pv.take(n as int) =~= pv);
            sort_changes(cs)
        },
        None => {
            let cs: Vec<Change> = Vec::new();
            assert(changes_view(cs@) =~= Seq::<ChangeView>::empty());
            cs
        },
    };
    LogEntry { revision, author, date, rfc3339, msg, changes }
}

/// The revision at which the library is asked about a target.
#[derive(Debug, Clone, Copy, PartialEq, Eq, Structural)]
pub enum InfoRevision {
    /// The newest revision of the repository.
    Head,
    /// The base revision of a working copy.
    Working,
}

/// A URL is looked up at HEAD, a working copy path at its base revision
/// (as `svn info` does for each).
pub fn info_revision(is_url: bool) -> (r: InfoRevision)
    ensures
        is_url ==> r == InfoRevision::Head,
        !is_url ==> r == InfoRevision::Working,
{
    if is_url {
        InfoRevision::Head
    } else {
        InfoRevision::Working
    }
}

/// The message of a failed diff: what the library wrote to its error
/// stream, or the library's own error message when that stream holds
/// only whitespace.
pub fn diff_failure_message(stderr: String, library_message: String) -> (r: String)
    ensures
        trimmed(stderr@).len() == 0 ==> r@ == library_message@,
        trimmed(stderr@).len() > 0 ==> r@ == stderr@,
{
    let t = trim(stderr.as_str());
    if t.as_str().is_empty() {
        library_message
    } else {
        stderr
    }
}

} // verus!
