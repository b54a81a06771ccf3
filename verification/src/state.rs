//! The commit filter: its fields, how they are read from the filter
//! panel, and which commits it admits.
use vstd::prelude::*;

use crate::dates::{date_before, local_date, local_day_of, parse_date, rfc3339_instant, CalendarDate};
use crate::svn::{LogEntry, LogEntryView, batch_size, effective_limit};
use crate::text::{
    chars_contain, chars_of, contains, i64_of_text, int_decimal, is_ws, lemma_int_decimal_reads_back,
    lemma_trimmed_padding, parse_i64_chars, parse_usize_chars, trim, trim_chars, trimmed,
    usize_of_text,
};

verus! {

/// Conditions on the commits shown.  All fields must hold at once; an
/// empty text field or a missing bound does not restrict.
#[derive(Debug, Clone)]
pub struct FilterSpec {
    /// Text looked for, ignoring case, in the message or a changed path.
    pub keyword: String,
    /// Text that the author name must contain.
    pub author: String,
    /// Smallest revision shown.
    pub rev_min: Option<i64>,
    /// Largest revision shown.
    pub rev_max: Option<i64>,
    /// Earliest local commit day shown.
    pub date_min: Option<CalendarDate>,
    /// Latest local commit day shown.
    pub date_max: Option<CalendarDate>,
    /// Number of commits fetched per batch.
    pub limit: usize,
}

impl Default for FilterSpec {
    fn default() -> (r: Self)
        ensures
            r.keyword@.len() == 0,
            r.author@.len() == 0,
            r.rev_min is None,
            r.rev_max is None,
            r.date_min is None,
            r.date_max is None,
            r.limit == 0,
    {
        FilterSpec {
            keyword: String::new(),
            author: String::new(),
            rev_min: None,
            rev_max: None,
            date_min: None,
            date_max: None,
            limit: 0,
        }
    }
}

/// What `str::to_lowercase` yields on `s`.
pub uninterp spec fn lowercase_of(s: Seq<char>) -> Seq<char>;

/// The ASCII lower-case letter of an ASCII upper-case letter; any other
/// character itself.
pub open spec fn ascii_lower(c: char) -> char {
    if 'A' <= c <= 'Z' {
        (c as int + 32) as char
    } else {
        c
    }
}

pub open spec fn all_ascii(s: Seq<char>) -> bool {
    forall|i: int| 0 <= i < s.len() ==> (#[trigger] s[i] as int) < 128
}

/// `str::to_lowercase`, taken as given by `lowercase_of`.  Unicode maps
/// `A`..`Z` to `a`..`z` and leaves every other ASCII character as it is,
/// so on ASCII text the result is the text with its letters lowered.
#[verifier::external_body]
fn lowercase(s: &str) -> (r: String)
    ensures
        r@ == lowercase_of(s@),
        all_ascii(s@) ==> r@ == s@.map_values(|c: char| ascii_lower(c)),
{
    s.to_lowercase()
}

/// `kw` occurs, ignoring case, in the message of `e` or in one of its
/// changed paths.
pub open spec fn keyword_hit(kw: Seq<char>, e: LogEntryView) -> bool {
    let k = lowercase_of(kw);
    ||| contains(lowercase_of(e.msg), k)
    ||| exists|i: int| 0 <= i < e.changes.len() && contains(lowercase_of(#[trigger] e.changes[i].path), k)
}

impl FilterSpec {
    pub open spec fn rev_ok(&self, rev: i64) -> bool {
        &&& (self.rev_min matches Some(mn) ==> mn <= rev)
        &&& (self.rev_max matches Some(mx) ==> rev <= mx)
    }

    pub open spec fn author_ok(&self, author: Seq<char>) -> bool {
        self.author@.len() == 0 || contains(author, self.author@)
    }

    /// The day bounds hold of a known local commit day; an unknown day
    /// passes them.
    pub open spec fn date_ok(&self, day: Option<CalendarDate>) -> bool {
        match day {
            Some(d) => {
                &&& (self.date_min matches Some(mn) ==> !date_before(d, mn))
                &&& (self.date_max matches Some(mx) ==> !date_before(mx, d))
            },
            None => true,
        }
    }

    pub open spec fn keyword_ok(&self, e: LogEntryView) -> bool {
        self.keyword@.len() == 0 || keyword_hit(self.keyword@, e)
    }

    /// Every condition but the day bounds holds of `e`.
    pub open spec fn admits_undated(&self, e: LogEntryView) -> bool {
        self.rev_ok(e.revision) && self.author_ok(e.author) && self.keyword_ok(e)
    }

    /// The filter admits commit `e` whose local commit day is `day`.
    pub open spec fn admits(&self, e: LogEntryView, day: Option<CalendarDate>) -> bool {
        self.admits_undated(e) && self.date_ok(day)
    }

    /// Whether the filter admits commit `e`, given its local commit day.
    pub fn matches_at_date(&self, e: &LogEntry, day: Option<CalendarDate>) -> (r: bool)
        ensures
            r == self.admits(e@, day),
    {
        if let Some(mn) = self.rev_min {
            if e.revision < mn {
                return false;
            }
        }
        if let Some(mx) = self.rev_max {
            if e.revision > mx {
                return false;
            }
        }
        if !self.author.as_str().is_empty() {
            let a = chars_of(e.author.as_str());
            let p = chars_of(self.author.as_str());
            if !chars_contain(&a, &p) {
                return false;
            }
        }
        if let Some(d) = day {
            if let Some(mn) = self.date_min {
                if d.is_before(&mn) {
                    return false;
                }
            }
            if let Some(mx) = self.date_max {
                if mx.is_before(&d) {
                    return false;
                }
            }
        }
        if !self.keyword.as_str().is_empty() {
            let k = chars_of(lowercase(self.keyword.as_str()).as_str());
            let m = chars_of(lowercase(e.msg.as_str()).as_str());
            if chars_contain(&m, &k) {
                return true;
            }
            let mut i: usize = 0;
            while i < e.changes.len()
                invariant
                    i <= e.changes@.len(),
                    self.rev_ok(e.revision),
                    self.author_ok(e.author@),
                    self.date_ok(day),
                    self.keyword@.len() > 0,
                    k@ == lowercase_of(self.keyword@),
                    !contains(lowercase_of(e.msg@), k@),
                    forall|j: int|
                        0 <= j < i ==> !contains(lowercase_of(#[trigger] e@.changes[j].path), k@),
                decreases e.changes.len() - i,
            {
                let p = chars_of(lowercase(e.changes[i].path.as_str()).as_str());
                assert(e@.changes[i as int] == e.changes@[i as int]@);
                if chars_contain(&p, &k) {
                    assert(contains(lowercase_of(e@.changes[i as int].path), k@));
                    return true;
                }
                i += 1;
            }
            return false;
        }
        true
    }

    /// Whether the filter admits commit `e`.  Its local commit day is
    /// read from `rfc3339` in the machine's time zone; when that is no
    /// valid timestamp the day bounds are not applied.
    pub fn matches(&self, e: &LogEntry) -> (r: bool)
        ensures
            r ==> self.admits_undated(e@),
            self.admits_undated(e@) && self.date_min is None && self.date_max is None ==> r,
            rfc3339_instant(e.rfc3339@) is None ==> r == self.admits(e@, None),
            exists|d: Option<CalendarDate>| local_day_of(e.rfc3339@, d) && r == self.admits(e@, d),
    {
        let day = local_date(e.rfc3339.as_str());
        let r = self.matches_at_date(e, day);
        assert(local_day_of(e.rfc3339@, day) && r == self.admits(e@, day));
        r
    }
}

/// A revision typed into a filter field: `None` for a blank field or
/// text that is no `i64`.
pub open spec fn rev_field(s: Seq<char>) -> Option<i64> {
    if trimmed(s).len() == 0 {
        None
    } else {
        i64_of_text(trimmed(s))
    }
}

/// Reads a revision from a filter field.
pub fn parse_rev(s: &str) -> (r: Option<i64>)
    ensures
        r == rev_field(s@),
{
    let v = chars_of(s);
    let t = trim_chars(&v);
    if t.len() == 0 {
        None
    } else {
        parse_i64_chars(&t)
    }
}

/// A revision typed as its decimal text, with any whitespace around it,
/// reads back as that revision.
pub proof fn lemma_parse_rev_round_trip(n: i64, a: Seq<char>, b: Seq<char>)
    requires
        forall|i: int| 0 <= i < a.len() ==> is_ws(#[trigger] a[i]),
        forall|i: int| 0 <= i < b.len() ==> is_ws(#[trigger] b[i]),
    ensures
        rev_field(a + int_decimal(n as int) + b) == Some(n),
{
    lemma_int_decimal_reads_back(n);
    lemma_trimmed_padding(a, int_decimal(n as int), b);
}

/// The batch size typed into the filter panel: the default for blank,
/// malformed or zero input.
pub open spec fn limit_field(s: Seq<char>) -> usize {
    match usize_of_text(trimmed(s)) {
        Some(n) => batch_size(n),
        None => batch_size(500),
    }
}

impl FilterSpec {
    /// The filter described by the texts of the filter panel's fields.
    pub fn from_fields(
        keyword: &str,
        author: &str,
        rev_min: &str,
        rev_max: &str,
        date_min: &str,
        date_max: &str,
        limit: &str,
    ) -> (f: FilterSpec)
        ensures
            f.keyword@ == trimmed(keyword@),
            f.author@ == trimmed(author@),
            f.rev_min == rev_field(rev_min@),
            f.rev_max == rev_field(rev_max@),
            f.date_min == crate::dates::date_field(date_min@),
            f.date_max == crate::dates::date_field(date_max@),
            f.limit == limit_field(limit@),
            f.limit > 0,
    {
        let lv = chars_of(limit);
        let n = match parse_usize_chars(&trim_chars(&lv)) {
            Some(n) => n,
            None => 500,
        };
        FilterSpec {
            keyword: trim(keyword),
            author: trim(author),
            rev_min: parse_rev(rev_min),
            rev_max: parse_rev(rev_max),
            date_min: parse_date(date_min),
            date_max: parse_date(date_max),
            limit: effective_limit(n),
        }
    }
}

/// The keyword is looked for, ignoring case, in the message and in
/// every changed path: with a keyword, a commit that passes the other
/// fields is admitted exactly when the lowered keyword occurs in its
/// lowered message or in the lowered path of any one of its changes;
/// without one, exactly when it passes the other fields.
pub proof fn lemma_keyword_searches_message_and_every_path(
    f: FilterSpec,
    e: LogEntryView,
    day: Option<CalendarDate>,
)
    ensures
        f.keyword@.len() > 0 ==> (f.admits(e, day) <==> f.rev_ok(e.revision) && f.author_ok(
            e.author,
        ) && f.date_ok(day) && (contains(lowercase_of(e.msg), lowercase_of(f.keyword@)) || exists|
            i: int,
        |
            0 <= i < e.changes.len() && contains(
                lowercase_of(#[trigger] e.changes[i].path),
                lowercase_of(f.keyword@),
            ))),
        f.keyword@.len() == 0 ==> (f.admits(e, day) <==> f.rev_ok(e.revision) && f.author_ok(
            e.author,
        ) && f.date_ok(day)),
        forall|i: int|
            0 <= i < e.changes.len() && f.rev_ok(e.revision) && f.author_ok(e.author) && f.date_ok(
                day,
            ) && contains(lowercase_of(#[trigger] e.changes[i].path), lowercase_of(f.keyword@))
                ==> f.admits(e, day),
{
}

/// A filter with every field empty admits every commit.
pub proof fn lemma_blank_filter_admits_all(f: FilterSpec, e: LogEntryView, day: Option<CalendarDate>)
    requires
        f.keyword@.len() == 0,
        f.author@.len() == 0,
        f.rev_min is None,
        f.rev_max is None,
        f.date_min is None,
        f.date_max is None,
    ensures
        f.admits(e, day),
{
}

/// The fields combine by "and", and an empty field does not restrict:
/// emptying any fields of a filter never hides a commit that it showed.
pub proof fn lemma_clearing_fields_widens(
    f: FilterSpec,
    g: FilterSpec,
    e: LogEntryView,
    day: Option<CalendarDate>,
)
    requires
        g.keyword@.len() == 0 || g.keyword@ == f.keyword@,
        g.author@.len() == 0 || g.author@ == f.author@,
        g.rev_min is None || g.rev_min == f.rev_min,
        g.rev_max is None || g.rev_max == f.rev_max,
        g.date_min is None || g.date_min == f.date_min,
        g.date_max is None || g.date_max == f.date_max,
        f.admits(e, day),
    ensures
        g.admits(e, day),
{
}

} // verus!
