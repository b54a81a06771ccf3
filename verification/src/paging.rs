//! Loading the commit list: the first batch after a (re)load, and the
//! older batches fetched when the list is scrolled to its end.
use vstd::prelude::*;

use crate::dates::{local_date, local_day_of, CalendarDate};
use crate::state::FilterSpec;
use crate::svn::{LogEntry, LogEntryView};

verus! {

pub open spec fn entries_view(v: Seq<LogEntry>) -> Seq<LogEntryView> {
    v.map_values(|e: LogEntry| e@)
}

pub open spec fn revisions(v: Seq<LogEntryView>) -> Seq<i64> {
    v.map_values(|e: LogEntryView| e.revision)
}

/// `days` gives one local commit day per entry, and none for an entry
/// whose time is no valid RFC 3339 timestamp.
pub open spec fn days_fit(es: Seq<LogEntryView>, days: Seq<Option<CalendarDate>>) -> bool {
    &&& days.len() == es.len()
    &&& forall|i: int| 0 <= i < es.len() ==> local_day_of(#[trigger] es[i].rfc3339, days[i])
}

/// The local commit day of each entry.
pub fn local_days(entries: &Vec<LogEntry>) -> (r: Vec<Option<CalendarDate>>)
    ensures
        days_fit(entries_view(entries@), r@),
{
    let mut out: Vec<Option<CalendarDate>> = Vec::new();
    let mut i: usize = 0;
    while i < entries.len()
        invariant
            i <= entries@.len(),
            out@.len() == i,
            forall|k: int| 0 <= k < i ==> local_day_of(#[trigger] entries@[k].rfc3339@, out@[k]),
        decreases entries.len() - i,
    {
        out.push(local_date(entries[i].rfc3339.as_str()));
        i += 1;
    }
    assert forall|k: int| 0 <= k < entries@.len() implies local_day_of(
        #[trigger] entries_view(entries@)[k].rfc3339,
        out@[k],
    ) by {
        assert(entries_view(entries@)[k] == entries@[k]@);
    }
    out
}

/// The entries, in order, that the filter admits, given their days.
pub open spec fn kept(f: FilterSpec, es: Seq<LogEntryView>, days: Seq<Option<CalendarDate>>) -> Seq<
    LogEntryView,
>
    decreases es.len(),
{
    if es.len() == 0 {
        seq![]
    } else {
        let rest = kept(f, es.drop_last(), days.drop_last());
        if f.admits(es.last(), days.last()) {
            rest.push(es.last())
        } else {
            rest
        }
    }
}

/// The result of (re)loading the newest batch of commits.
pub struct ReloadPage {
    /// The commits the filter admits, newest first.
    pub entries: Vec<LogEntry>,
    /// How many commits svn returned.
    pub total: usize,
    /// Whether an older batch may exist: the batch was full.
    pub has_more: bool,
    /// The oldest revision svn returned: where the next batch starts.
    pub floor: Option<i64>,
}

/// The batch `fetched` as the list shows it, given each commit's local day.
pub fn reload_page_with_days(
    fetched: Vec<LogEntry>,
    days: &Vec<Option<CalendarDate>>,
    filter: &FilterSpec,
) -> (r: ReloadPage)
    requires
        days@.len() == fetched@.len(),
    ensures
        r.total == fetched@.len(),
        r.has_more == (fetched@.len() >= filter.limit && fetched@.len() > 0),
        r.floor == (if fetched@.len() > 0 {
            Some(fetched@.last().revision)
        } else {
            None
        }),
        entries_view(r.entries@) == kept(*filter, entries_view(fetched@), days@),
{
    let total = fetched.len();
    let floor = if total > 0 {
        Some(fetched[total - 1].revision)
    } else {
        None
    };
    let ghost orig = entries_view(fetched@);
    let mut rest = fetched;
    let mut out: Vec<LogEntry> = Vec::new();
    let mut i: usize = 0;
    assert(orig.take(0) =~= Seq::<LogEntryView>::empty());
    while i < total
        invariant
            i <= total == orig.len() == days@.len(),
            entries_view(rest@) == orig.skip(i as int),
            entries_view(out@) == kept(*filter, orig.take(i as int), days@.take(i as int)),
        decreases total - i,
    {
        assert(entries_view(rest@).len() == total - i);
        assert(entries_view(rest@)[0] == rest@[0]@);
        let ghost prev = rest@;
        let e = rest.remove(0);
        assert(e@ == orig[i as int]);
        assert(orig.take(i + 1).drop_last() =~= orig.take(i as int));
        assert(days@.take(i + 1).drop_last() =~= days@.take(i as int));
        assert forall|k: int| 0 <= k < rest@.len() implies entries_view(rest@)[k] == orig.skip(
            i + 1,
        )[k] by {
            assert(rest@[k] == prev[k + 1]);
            assert(entries_view(prev)[k + 1] == prev[k + 1]@);
        }
        assert(entries_view(rest@) =~= orig.skip(i + 1));
        if filter.matches_at_date(&e, days[i]) {
            out.push(e);
            assert(entries_view(out@) =~= kept(*filter, orig.take(i as int), days@.take(i as int)).push(
                orig[i as int],
            ));
        }
        i += 1;
    }
    assert(orig.take(total as int) =~= orig);
    assert(days@.take(total as int) =~= days@);
    ReloadPage { entries: out, total, has_more: total >= filter.limit && total > 0, floor }
}

/// The batch `fetched` as the list shows it, each commit's day read in
/// the machine's time zone.
pub fn reload_page(fetched: Vec<LogEntry>, filter: &FilterSpec) -> (r: ReloadPage)
    ensures
        r.total == fetched@.len(),
        r.has_more == (fetched@.len() >= filter.limit && fetched@.len() > 0),
        r.floor == (if fetched@.len() > 0 {
            Some(fetched@.last().revision)
        } else {
            None
        }),
        exists|days: Seq<Option<CalendarDate>>|
            days_fit(entries_view(fetched@), days) && entries_view(r.entries@) == kept(
                *filter,
                entries_view(fetched@),
                days,
            ),
{
    let days = local_days(&fetched);
    let ghost fv = entries_view(fetched@);
    let r = reload_page_with_days(fetched, &days, filter);
    assert(days_fit(fv, days@));
    r
}

/// At most this many batches are fetched for one "load more".
pub const MAX_REQUESTS: u32 = 64;

/// Fetching older batches after the list was scrolled to its end.
///
/// Each round asks svn for the commits older than the deepest one
/// loaded, starting right below it (`next_request`), then takes the
/// batch (`on_page`): the
/// commits the filter admits and that are not shown yet are appended.
/// It stops when something was appended, a batch was short or empty,
/// the oldest revision was reached, svn failed, or after
/// `MAX_REQUESTS` rounds.
pub struct Pager {
    /// The deepest revision fetched so far.
    pub floor: i64,
    /// The newest revision of the repository.
    pub head: i64,
    /// The batch size.
    pub limit: usize,
    /// The revisions shown before this load started.
    pub shown: Ghost<Seq<i64>>,
    /// The revisions shown so far.
    pub seen: Vec<i64>,
    /// The commits appended by this load, in order.
    pub appended: Vec<LogEntry>,
    /// How many commits the status line reports as appended.
    pub appended_count: usize,
    /// Whether older commits may still exist.
    pub has_more: bool,
    /// Batches requested so far.
    pub requests: u32,
    /// A batch was requested and has not been handed in.
    pub awaiting: bool,
    /// The load is over.
    pub finished: bool,
}

/// What absorbing the batch `es` does: each admitted commit whose
/// revision was not seen yet is appended and its revision marked seen.
pub open spec fn absorb(
    f: FilterSpec,
    seen: Seq<i64>,
    es: Seq<LogEntryView>,
    days: Seq<Option<CalendarDate>>,
) -> (Seq<i64>, Seq<LogEntryView>)
    decreases es.len(),
{
    if es.len() == 0 {
        (seen, seq![])
    } else {
        let (s1, a1) = absorb(f, seen, es.drop_last(), days.drop_last());
        let e = es.last();
        if f.admits(e, days.last()) && !s1.contains(e.revision) {
            (s1.push(e.revision), a1.push(e))
        } else {
            (s1, a1)
        }
    }
}

impl Pager {
    /// Revisions appended by this load are pairwise different and were
    /// not shown before it; `seen` is what was shown plus what was
    /// appended.
    pub open spec fn wf(&self) -> bool {
        let added = revisions(entries_view(self.appended@));
        &&& self.seen@ == self.shown@ + added
        &&& forall|i: int, j: int| 0 <= i < j < added.len() ==> added[i] != added[j]
        &&& forall|i: int| 0 <= i < added.len() ==> !self.shown@.contains(#[trigger] added[i])
        &&& self.requests <= MAX_REQUESTS
        &&& self.appended_count <= self.appended@.len()
        &&& self.awaiting ==> !self.finished
    }

    /// Everything but the request bookkeeping is as in `other`.
    pub open spec fn same_load(&self, other: &Pager) -> bool {
        &&& self.floor == other.floor
        &&& self.head == other.head
        &&& self.limit == other.limit
        &&& self.shown@ == other.shown@
        &&& self.seen@ == other.seen@
        &&& self.appended@ == other.appended@
        &&& self.appended_count == other.appended_count
    }

    /// A load that starts below `floor`, with the revisions in `shown`
    /// already in the list.
    pub fn new(floor: i64, head: i64, limit: usize, shown: Vec<i64>) -> (p: Pager)
        ensures
            p.wf(),
            p.floor == floor,
            p.head == head,
            p.limit == limit,
            p.shown@ == shown@,
            p.appended@.len() == 0,
            p.appended_count == 0,
            p.has_more,
            p.requests == 0,
            !p.awaiting,
            !p.finished,
    {
        let ghost s = shown@;
        let p = Pager {
            floor,
            head,
            limit,
            shown: Ghost(s),
            seen: shown,
            appended: Vec::new(),
            appended_count: 0,
            has_more: true,
            requests: 0,
            awaiting: false,
            finished: false,
        };
        assert(revisions(entries_view(p.appended@)) =~= Seq::<i64>::empty());
        assert(p.seen@ =~= p.shown@ + revisions(entries_view(p.appended@)));
        p
    }

    /// The revision below which the next batch is to be fetched (the
    /// `upto` of `log_upto_args`), or `None` when the load is over.  The
    /// batch is the newest revisions below the floor that do not exceed
    /// the head: none is skipped.
    pub fn next_request(&mut self) -> (r: Option<i64>)
        requires
            old(self).wf(),
            !old(self).awaiting,
        ensures
            final(self).wf(),
            final(self).same_load(old(self)),
            old(self).finished ==> r is None && final(self).finished && final(self).has_more
                == old(self).has_more && final(self).requests == old(self).requests,
            !old(self).finished && old(self).requests >= MAX_REQUESTS ==> r is None
                && final(self).finished && final(self).has_more == old(self).has_more,
            !old(self).finished && old(self).requests < MAX_REQUESTS && old(self).floor <= 1 ==> r
                is None && final(self).finished && !final(self).has_more,
            !old(self).finished && old(self).requests < MAX_REQUESTS && old(self).floor > 1 ==> {
                let newest: int = if old(self).floor - 1 <= old(self).head {
                    old(self).floor - 1
                } else {
                    old(self).head as int
                };
                &&& newest < 1 ==> r is None && final(self).finished && !final(self).has_more
                &&& newest >= 1 ==> r == Some((newest + 1) as i64) && final(self).awaiting
                    && !final(self).finished && final(self).requests == old(self).requests + 1
                    && final(self).has_more == old(self).has_more
            },
            r matches Some(upto) ==> 2 <= upto <= old(self).floor,
            old(self).floor <= old(self).head + 1 ==> (r matches Some(upto) ==> upto == old(self).floor),
            r is None ==> !final(self).awaiting,
    {
        if self.finished {
            return None;
        }
        if self.requests >= MAX_REQUESTS {
            self.finished = true;
            return None;
        }
        if self.floor <= 1 {
            self.has_more = false;
            self.finished = true;
            return None;
        }
        let newest = if self.floor - 1 <= self.head {
            self.floor - 1
        } else {
            self.head
        };
        if newest < 1 {
            self.has_more = false;
            self.finished = true;
            return None;
        }
        self.requests = self.requests + 1;
        self.awaiting = true;
        Some(newest + 1)
    }

    /// `new` is `old` after taking the batch `es` whose commits have the
    /// local days `days`.
    pub open spec fn took_page(
        old: &Pager,
        new: &Pager,
        es: Seq<LogEntryView>,
        days: Seq<Option<CalendarDate>>,
        f: FilterSpec,
    ) -> bool {
        &&& new.head == old.head
        &&& new.limit == old.limit
        &&& new.shown@ == old.shown@
        &&& new.requests == old.requests
        &&& !new.awaiting
        &&& es.len() == 0 ==> {
            &&& new.floor == old.floor
            &&& new.seen@ == old.seen@
            &&& new.appended@ == old.appended@
            &&& new.appended_count == old.appended_count
            &&& new.finished
            &&& !new.has_more
        }
        &&& es.len() > 0 ==> {
            let (s, a) = absorb(f, old.seen@, es, days);
            &&& new.floor == es.last().revision
            &&& new.seen@ == s
            &&& entries_view(new.appended@) == entries_view(old.appended@) + a
            &&& new.appended_count == old.appended_count + a.len()
            &&& new.finished == (new.appended_count > 0 || es.len() < old.limit)
            &&& new.has_more == old.has_more
        }
    }

    fn absorb_one(&mut self, e: LogEntry, day: Option<CalendarDate>, filter: &FilterSpec)
        requires
            old(self).wf(),
            old(self).appended_count < old(self).appended@.len() + 1,
            old(self).appended_count + 1 <= usize::MAX,
        ensures
            final(self).wf(),
            final(self).floor == old(self).floor,
            final(self).head == old(self).head,
            final(self).limit == old(self).limit,
            final(self).shown@ == old(self).shown@,
            final(self).requests == old(self).requests,
            final(self).has_more == old(self).has_more,
            final(self).awaiting == old(self).awaiting,
            final(self).finished == old(self).finished,
            ({
                let (s, a) = absorb(*filter, old(self).seen@, seq![e@], seq![day]);
                &&& final(self).seen@ == s
                &&& entries_view(final(self).appended@) == entries_view(old(self).appended@) + a
                &&& final(self).appended_count == old(self).appended_count + a.len()
            }),
    {
        let ghost one = seq![e@];
        assert(one.drop_last() =~= Seq::<LogEntryView>::empty());
        assert(seq![day].drop_last() =~= Seq::<Option<CalendarDate>>::empty());
        let ghost base = absorb(*filter, self.seen@, one.drop_last(), seq![day].drop_last());
        assert(base.0 == self.seen@ && base.1 == Seq::<LogEntryView>::empty());
        let ghost old_added = revisions(entries_view(self.appended@));
        if filter.matches_at_date(&e, day) && !contains_i64(&self.seen, e.revision) {
            let rev = e.revision;
            self.seen.push(rev);
            self.appended.push(e);
            self.appended_count = self.appended_count + 1;
            let ghost added = revisions(entries_view(self.appended@));
            assert(entries_view(self.appended@) =~= entries_view(old(self).appended@).push(
                one[0],
            ));
            assert(added =~= old_added.push(rev));
            assert(self.seen@ =~= self.shown@ + added);
            assert forall|i: int| 0 <= i < added.len() implies !self.shown@.contains(
                #[trigger] added[i],
            ) by {
                if i == added.len() - 1 {
                    if self.shown@.contains(rev) {
                        let k = choose|k: int| 0 <= k < self.shown@.len() && self.shown@[k] == rev;
                        assert(old(self).seen@[k] == rev);
                    }
                } else {
                    assert(added[i] == old_added[i]);
                }
            }
            assert forall|i: int, j: int| 0 <= i < j < added.len() implies added[i] != added[j] by {
                if j == added.len() - 1 {
                    assert(old(self).seen@[self.shown@.len() + i] == added[i]);
                } else {
                    assert(added[i] == old_added[i]);
                    assert(added[j] == old_added[j]);
                }
            }
        } else {
            assert(entries_view(self.appended@) =~= entries_view(old(self).appended@) + seq![]);
        }
    }

    /// Takes the batch svn returned for the last request, given each
    /// commit's local day.
    pub fn on_page_with_days(
        &mut self,
        fetched: Vec<LogEntry>,
        days: &Vec<Option<CalendarDate>>,
        filter: &FilterSpec,
    )
        requires
            old(self).wf(),
            old(self).awaiting,
            days@.len() == fetched@.len(),
            old(self).appended_count + fetched@.len() <= usize::MAX,
        ensures
            final(self).wf(),
            Pager::took_page(old(self), final(self), entries_view(fetched@), days@, *filter),
    {
        self.awaiting = false;
        let n = fetched.len();
        if n == 0 {
            self.has_more = false;
            self.finished = true;
            return ;
        }
        self.floor = fetched[n - 1].revision;
        let ghost orig = entries_view(fetched@);
        let ghost start_seen = self.seen@;
        let ghost start_app = entries_view(self.appended@);
        let ghost start_count = self.appended_count;
        let mut rest = fetched;
        let mut i: usize = 0;
        assert(orig.take(0) =~= Seq::<LogEntryView>::empty());
        assert(days@.take(0) =~= Seq::<Option<CalendarDate>>::empty());
        assert(start_app + seq![] =~= start_app);
        while i < n
            invariant
                self.wf(),
                i <= n == orig.len() == days@.len(),
                !self.awaiting,
                self.head == old(self).head,
                self.limit == old(self).limit,
                self.shown@ == old(self).shown@,
                self.requests == old(self).requests,
                self.has_more == old(self).has_more,
                self.finished == old(self).finished,
                self.floor == orig.last().revision,
                start_seen == old(self).seen@,
                start_app == entries_view(old(self).appended@),
                start_count == old(self).appended_count,
                start_count + n <= usize::MAX,
                entries_view(rest@) == orig.skip(i as int),
                ({
                    let (s, a) = absorb(*filter, start_seen, orig.take(i as int), days@.take(i as int));
                    &&& self.seen@ == s
                    &&& entries_view(self.appended@) == start_app + a
                    &&& self.appended_count == start_count + a.len()
                    &&& a.len() <= i
                }),
            decreases n - i,
        {
            assert(entries_view(rest@).len() == n - i);
            assert(entries_view(rest@)[0] == rest@[0]@);
            let ghost prev = rest@;
            let e = rest.remove(0);
            assert(e@ == orig[i as int]);
            assert forall|k: int| 0 <= k < rest@.len() implies entries_view(rest@)[k] == orig.skip(
                i + 1,
            )[k] by {
                assert(rest@[k] == prev[k + 1]);
                assert(entries_view(prev)[k + 1] == prev[k + 1]@);
            }
            assert(entries_view(rest@) =~= orig.skip(i + 1));
            let ghost t = orig.take(i + 1);
            let ghost dt = days@.take(i + 1);
            assert(t.drop_last() =~= orig.take(i as int));
            assert(dt.drop_last() =~= days@.take(i as int));
            let ghost (s0, a0) = absorb(*filter, start_seen, orig.take(i as int), days@.take(i as int));
            let ghost before = entries_view(self.appended@);
            self.absorb_one(e, days[i], filter);
            proof {
                let (s1, a1) = absorb(*filter, s0, seq![orig[i as int]], seq![days@[i as int]]);
                assert(seq![orig[i as int]].drop_last() =~= Seq::<LogEntryView>::empty());
                assert(seq![days@[i as int]].drop_last() =~= Seq::<Option<CalendarDate>>::empty());
                let base = absorb(*filter, s0, Seq::<LogEntryView>::empty(), Seq::<Option<CalendarDate>>::empty());
                assert(base.0 == s0 && base.1 == Seq::<LogEntryView>::empty());
                assert(t.last() == orig[i as int]);
                assert(dt.last() == days@[i as int]);
                let (s2, a2) = absorb(*filter, start_seen, t, dt);
                assert(s2 == s1);
                assert(a2 =~= a0 + a1);
                assert(entries_view(self.appended@) =~= start_app + a2);
            }
            i += 1;
        }
        assert(orig.take(n as int) =~= orig);
        assert(days@.take(n as int) =~= days@);
        if self.appended_count > 0 || n < self.limit {
            self.finished = true;
        }
    }

    /// Takes the batch svn returned for the last request; each commit's
    /// day is read in the machine's time zone.
    pub fn on_page(&mut self, fetched: Vec<LogEntry>, filter: &FilterSpec)
        requires
            old(self).wf(),
            old(self).awaiting,
            old(self).appended_count + fetched@.len() <= usize::MAX,
        ensures
            final(self).wf(),
            exists|days: Seq<Option<CalendarDate>>|
                days_fit(entries_view(fetched@), days) && Pager::took_page(
                    old(self),
                    final(self),
                    entries_view(fetched@),
                    days,
                    *filter,
                ),
    {
        let days = local_days(&fetched);
        let ghost fv = entries_view(fetched@);
        self.on_page_with_days(fetched, &days, filter);
        assert(days_fit(fv, days@));
    }

    /// svn failed on the last request: the load is over, nothing more is
    /// offered, and the status reports nothing appended.
    pub fn on_error(&mut self)
        requires
            old(self).wf(),
        ensures
            final(self).wf(),
            final(self).finished,
            !final(self).awaiting,
            !final(self).has_more,
            final(self).appended_count == 0,
            final(self).floor == old(self).floor,
            final(self).seen@ == old(self).seen@,
            final(self).appended@ == old(self).appended@,
            final(self).shown@ == old(self).shown@,
    {
        self.awaiting = false;
        self.has_more = false;
        self.appended_count = 0;
        self.finished = true;
    }
}

/// Whether `x` occurs in `v`.
pub fn contains_i64(v: &Vec<i64>, x: i64) -> (r: bool)
    ensures
        r == v@.contains(x),
{
    let mut i: usize = 0;
    while i < v.len()
        invariant
            i <= v@.len(),
            forall|k: int| 0 <= k < i ==> v@[k] != x,
        decreases v.len() - i,
    {
        if v[i] == x {
            return true;
        }
        i += 1;
    }
    false
}

/// A load never appends a revision twice, nor one that was shown before
/// it started.
pub proof fn lemma_load_appends_only_new_revisions(p: Pager)
    requires
        p.wf(),
    ensures
        forall|i: int, j: int|
            0 <= i < j < p.appended@.len() ==> p.appended@[i].revision != p.appended@[j].revision,
        forall|i: int| 0 <= i < p.appended@.len() ==> !p.shown@.contains(#[trigger] p.appended@[i].revision),
{
    let added = revisions(entries_view(p.appended@));
    assert forall|i: int, j: int| 0 <= i < j < p.appended@.len() implies p.appended@[i].revision
        != p.appended@[j].revision by {
        assert(added[i] == p.appended@[i].revision);
        assert(added[j] == p.appended@[j].revision);
    }
    assert forall|i: int| 0 <= i < p.appended@.len() implies !p.shown@.contains(
        #[trigger] p.appended@[i].revision,
    ) by {
        assert(added[i] == p.appended@[i].revision);
    }
}

/// `out` is the commits of `es` at the strictly increasing positions
/// `ix`, each admitted by the filter at its day, and every position whose
/// commit the filter admits is among `ix`: `out` is `es` with exactly
/// the admitted commits kept, in order.
pub open spec fn admitted_selection(
    f: FilterSpec,
    es: Seq<LogEntryView>,
    days: Seq<Option<CalendarDate>>,
    ix: Seq<int>,
    out: Seq<LogEntryView>,
) -> bool {
    &&& ix.len() == out.len()
    &&& forall|k: int|
        0 <= k < ix.len() ==> 0 <= #[trigger] ix[k] < es.len() && out[k] == es[ix[k]] && f.admits(
            es[ix[k]],
            days[ix[k]],
        )
    &&& forall|k: int, l: int| 0 <= k < l < ix.len() ==> ix[k] < ix[l]
    &&& forall|i: int|
        0 <= i < es.len() && f.admits(#[trigger] es[i], days[i]) ==> exists|k: int|
            0 <= k < ix.len() && ix[k] == i
}

/// Reloading keeps exactly the fetched commits that the filter admits
/// at their days, in their order.
pub proof fn lemma_reload_keeps_exactly_the_admitted(
    f: FilterSpec,
    es: Seq<LogEntryView>,
    days: Seq<Option<CalendarDate>>,
)
    requires
        days.len() == es.len(),
    ensures
        exists|ix: Seq<int>| #[trigger] admitted_selection(f, es, days, ix, kept(f, es, days)),
    decreases es.len(),
{
    if es.len() == 0 {
        let ix = Seq::<int>::empty();
        assert(admitted_selection(f, es, days, ix, kept(f, es, days)));
    } else {
        let n = es.len() - 1;
        let es0 = es.drop_last();
        let d0 = days.drop_last();
        lemma_reload_keeps_exactly_the_admitted(f, es0, d0);
        let ix0 = choose|ix: Seq<int>| #[trigger] admitted_selection(f, es0, d0, ix, kept(f, es0, d0));
        if f.admits(es[n], days[n]) {
            let ix = ix0.push(n);
            let out = kept(f, es, days);
            assert(out == kept(f, es0, d0).push(es[n]));
            assert forall|k: int| 0 <= k < ix.len() implies 0 <= #[trigger] ix[k] < es.len() && out[k]
                == es[ix[k]] && f.admits(es[ix[k]], days[ix[k]]) by {
                if k < ix0.len() {
                    assert(ix[k] == ix0[k]);
                    assert(0 <= ix0[k] < es0.len());
                    assert(es[ix0[k]] == es0[ix0[k]]);
                    assert(days[ix0[k]] == d0[ix0[k]]);
                }
            }
            assert forall|i: int|
                0 <= i < es.len() && f.admits(#[trigger] es[i], days[i]) implies exists|k: int|
                0 <= k < ix.len() && ix[k] == i by {
                if i < n {
                    assert(es0[i] == es[i] && d0[i] == days[i]);
                    let k = choose|k: int| 0 <= k < ix0.len() && ix0[k] == i;
                    assert(ix[k] == i);
                } else {
                    assert(ix[ix.len() - 1] == i);
                }
            }
            assert forall|k: int, l: int| 0 <= k < l < ix.len() implies ix[k] < ix[l] by {
                if l < ix0.len() {
                    assert(ix[k] == ix0[k] && ix[l] == ix0[l]);
                } else {
                    assert(ix[k] == ix0[k]);
                    assert(0 <= ix0[k] < es0.len());
                }
            }
            assert(admitted_selection(f, es, days, ix, out));
        } else {
            let ix = ix0;
            let out = kept(f, es, days);
            assert(out == kept(f, es0, d0));
            assert forall|k: int| 0 <= k < ix.len() implies 0 <= #[trigger] ix[k] < es.len() && out[k]
                == es[ix[k]] && f.admits(es[ix[k]], days[ix[k]]) by {
                assert(0 <= ix0[k] < es0.len());
                assert(es[ix0[k]] == es0[ix0[k]]);
                assert(days[ix0[k]] == d0[ix0[k]]);
            }
            assert forall|i: int|
                0 <= i < es.len() && f.admits(#[trigger] es[i], days[i]) implies exists|k: int|
                0 <= k < ix.len() && ix[k] == i by {
                assert(i < n);
                assert(es0[i] == es[i] && d0[i] == days[i]);
            }
            assert(admitted_selection(f, es, days, ix, out));
        }
    }
}

proof fn lemma_absorb_facts(
    f: FilterSpec,
    seen: Seq<i64>,
    es: Seq<LogEntryView>,
    days: Seq<Option<CalendarDate>>,
)
    requires
        days.len() == es.len(),
    ensures
        forall|k: int|
            0 <= k < absorb(f, seen, es, days).1.len() ==> exists|i: int|
                0 <= i < es.len() && #[trigger] absorb(f, seen, es, days).1[k] == es[i] && f.admits(
                    es[i],
                    days[i],
                ),
        forall|i: int|
            0 <= i < es.len() && f.admits(#[trigger] es[i], days[i]) ==> absorb(
                f,
                seen,
                es,
                days,
            ).0.contains(es[i].revision),
        forall|x: i64| seen.contains(x) ==> #[trigger] absorb(f, seen, es, days).0.contains(x),
    decreases es.len(),
{
    if es.len() > 0 {
        let n = es.len() - 1;
        let es0 = es.drop_last();
        let d0 = days.drop_last();
        lemma_absorb_facts(f, seen, es0, d0);
        let (s1, a1) = absorb(f, seen, es0, d0);
        let (s, a) = absorb(f, seen, es, days);
        let e = es.last();
        assert forall|k: int| 0 <= k < a.len() implies exists|i: int|
            0 <= i < es.len() && #[trigger] a[k] == es[i] && f.admits(es[i], days[i]) by {
            if k < a1.len() {
                assert(a[k] == a1[k]);
                let i = choose|i: int| 0 <= i < es0.len() && a1[k] == es0[i] && f.admits(es0[i], d0[i]);
                assert(es[i] == es0[i] && days[i] == d0[i]);
            } else {
                assert(a[k] == es[n]);
            }
        }
        assert forall|i: int| 0 <= i < es.len() && f.admits(#[trigger] es[i], days[i]) implies s.contains(
            es[i].revision,
        ) by {
            if i < n {
                assert(es0[i] == es[i] && d0[i] == days[i]);
                assert(s1.contains(es[i].revision));
                if s != s1 {
                    assert(s == s1.push(e.revision));
                    let j = choose|j: int| 0 <= j < s1.len() && s1[j] == es[i].revision;
                    assert(s[j] == s1[j]);
                }
            } else {
                if !s1.contains(e.revision) {
                    assert(s == s1.push(e.revision));
                    assert(s[s.len() - 1] == e.revision);
                }
            }
        }
        assert forall|x: i64| seen.contains(x) implies #[trigger] s.contains(x) by {
            assert(s1.contains(x));
            if s != s1 {
                let j = choose|j: int| 0 <= j < s1.len() && s1[j] == x;
                assert(s[j] == s1[j]);
            }
        }
    }
}

/// `e` is a commit of the batch `es` that the filter admits at its own
/// local day (its day in `days`).
pub open spec fn fetched_and_admitted(
    f: FilterSpec,
    es: Seq<LogEntryView>,
    days: Seq<Option<CalendarDate>>,
    e: LogEntryView,
) -> bool {
    exists|i: int|
        0 <= i < es.len() && e == #[trigger] es[i] && local_day_of(es[i].rfc3339, days[i]) && f.admits(
            es[i],
            days[i],
        )
}

impl Pager {
    proof fn lemma_appended_one(
        before: Pager,
        after: Pager,
        es: Seq<LogEntryView>,
        days: Seq<Option<CalendarDate>>,
        f: FilterSpec,
        k: int,
    )
        requires
            Pager::took_page(&before, &after, es, days, f),
            days_fit(es, days),
            before.appended@.len() <= k < after.appended@.len(),
        ensures
            fetched_and_admitted(f, es, days, after.appended@[k]@),
    {
        lemma_absorb_facts(f, before.seen@, es, days);
        let a = absorb(f, before.seen@, es, days).1;
        let o = before.appended@.len() as int;
        assert(es.len() > 0);
        assert(entries_view(after.appended@) == entries_view(before.appended@) + a);
        assert(entries_view(after.appended@)[k] == after.appended@[k]@);
        assert(entries_view(before.appended@).len() == o);
        assert(entries_view(after.appended@)[k] == a[k - o]);
        assert(0 <= k - o < a.len());
        let i = choose|i: int| 0 <= i < es.len() && a[k - o] == es[i] && f.admits(es[i], days[i]);
        assert(local_day_of(es[i].rfc3339, days[i]));
    }

    /// A batch taken by a load appends only commits of that batch which
    /// the filter admits at their own local days, and every commit of
    /// the batch that the filter admits ends up shown: it was shown
    /// before or is appended now.
    pub proof fn lemma_page_appends_only_admitted(
        before: Pager,
        after: Pager,
        es: Seq<LogEntryView>,
        days: Seq<Option<CalendarDate>>,
        f: FilterSpec,
    )
        requires
            Pager::took_page(&before, &after, es, days, f),
            days_fit(es, days),
        ensures
            forall|k: int|
                before.appended@.len() <= k < after.appended@.len() ==> fetched_and_admitted(
                    f,
                    es,
                    days,
                    #[trigger] after.appended@[k]@,
                ),
            forall|i: int|
                0 <= i < es.len() && f.admits(#[trigger] es[i], days[i]) ==> after.seen@.contains(
                    es[i].revision,
                ),
    {
        if es.len() == 0 {
            assert(after.appended@.len() == before.appended@.len());
        } else {
            lemma_absorb_facts(f, before.seen@, es, days);
            assert forall|k: int|
                before.appended@.len() <= k < after.appended@.len() implies fetched_and_admitted(
                f,
                es,
                days,
                #[trigger] after.appended@[k]@,
            ) by {
                Pager::lemma_appended_one(before, after, es, days, f, k);
            }
        }
    }
}

} // verus!
