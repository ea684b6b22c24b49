//! Matchday recaps, held in memory: at most one per league and matchday,
//! with the navigation between a league's matchdays.
//!
//! A matchday is a calendar day counted from the Common Era (`0001-01-01` is
//! day `1`); instants are seconds since the Unix epoch.

use vstd::prelude::*;

verus! {

broadcast use vstd::seq_lib::group_seq_properties;

/// The recap of one matchday of a league.
#[derive(Debug, Clone)]
pub struct MatchdayReport {
    pub league_id: u128,
    pub matchday_date: i32,
    pub language: String,
    /// Markdown body as returned by the model.
    pub content: String,
    pub model: String,
    pub generated_at: i64,
}

/// Whether the league has a recap of that matchday.
pub open spec fn has_report(rs: Seq<MatchdayReport>, league: u128, date: i32) -> bool {
    exists|i: int| 0 <= i < rs.len() && (#[trigger] rs[i]).league_id == league && rs[i].matchday_date == date
}

/// Index of the league's recap of that matchday.
pub open spec fn find_report(rs: Seq<MatchdayReport>, league: u128, date: i32) -> Option<int>
    decreases rs.len(),
{
    if rs.len() == 0 {
        None
    } else {
        match find_report(rs.drop_last(), league, date) {
            Some(i) => Some(i),
            None => if rs.last().league_id == league && rs.last().matchday_date == date { Some(rs.len() - 1) } else { None },
        }
    }
}

/// The latest of the league's matchdays with a date in `lo < date < hi`
/// (`None` bounds are open).
pub open spec fn latest_between(rs: Seq<MatchdayReport>, league: u128, lo: Option<i32>, hi: Option<i32>) -> Option<i32>
    decreases rs.len(),
{
    if rs.len() == 0 {
        None
    } else {
        let r = latest_between(rs.drop_last(), league, lo, hi);
        let d = rs.last().matchday_date;
        let inside = rs.last().league_id == league
            && (match lo { Some(l) => l < d, None => true })
            && (match hi { Some(h) => d < h, None => true });
        if inside {
            match r {
                Some(m) => if m >= d { Some(m) } else { Some(d) },
                None => Some(d),
            }
        } else {
            r
        }
    }
}

/// The earliest of the league's matchdays after `lo`.
pub open spec fn earliest_after(rs: Seq<MatchdayReport>, league: u128, lo: i32) -> Option<i32>
    decreases rs.len(),
{
    if rs.len() == 0 {
        None
    } else {
        let r = earliest_after(rs.drop_last(), league, lo);
        let d = rs.last().matchday_date;
        if rs.last().league_id == league && lo < d {
            match r {
                Some(m) => if m <= d { Some(m) } else { Some(d) },
                None => Some(d),
            }
        } else {
            r
        }
    }
}

/// The recaps after inserting one: unchanged when the league already has a
/// recap of that matchday.
pub open spec fn inserted(rs: Seq<MatchdayReport>, report: MatchdayReport) -> Seq<MatchdayReport> {
    if has_report(rs, report.league_id, report.matchday_date) {
        rs
    } else {
        rs.push(report)
    }
}

fn copy_report(r: &MatchdayReport) -> (c: MatchdayReport)
    ensures
        c == *r,
{
    MatchdayReport {
        league_id: r.league_id,
        matchday_date: r.matchday_date,
        language: r.language.clone(),
        content: r.content.clone(),
        model: r.model.clone(),
        generated_at: r.generated_at,
    }
}

/// The recaps, held in memory.
pub struct MemoryMatchdayReportRepo {
    reports: Vec<MatchdayReport>,
}

impl MemoryMatchdayReportRepo {
    /// The recaps, in order of insertion.
    pub closed spec fn reports(&self) -> Seq<MatchdayReport> {
        self.reports@
    }

    /// No recaps.
    pub fn new() -> (r: Self)
        ensures
            r.reports() == Seq::<MatchdayReport>::empty(),
    {
        MemoryMatchdayReportRepo { reports: Vec::new() }
    }

    /// The league's recap of that matchday.
    pub fn get(&self, league_id: u128, date: i32) -> (r: Option<MatchdayReport>)
        ensures
            r is Some <==> find_report(self.reports(), league_id, date) is Some,
            r matches Some(x) ==> x == self.reports()[find_report(self.reports(), league_id, date).unwrap()],
    {
        let ghost rs = self.reports@;
        let mut i: usize = 0;
        while i < self.reports.len()
            invariant
                i <= self.reports@.len(),
                rs == self.reports@,
                find_report(rs.take(i as int), league_id, date) is None,
            decreases self.reports@.len() - i,
        {
            assert(rs.take(i as int + 1).drop_last() =~= rs.take(i as int));
            if self.reports[i].league_id == league_id && self.reports[i].matchday_date == date {
                proof { lemma_find_report_prefix(rs, league_id, date, i as int + 1); }
                return Some(copy_report(&self.reports[i]));
            }
            i = i + 1;
        }
        assert(rs.take(i as int) =~= rs);
        None
    }

    /// Whether the league has a recap of that matchday.
    pub fn report_exists(&self, league_id: u128, date: i32) -> (b: bool)
        ensures
            b == has_report(self.reports(), league_id, date),
    {
        let mut i: usize = 0;
        while i < self.reports.len()
            invariant
                i <= self.reports@.len(),
                forall|j: int| 0 <= j < i ==> !((#[trigger] self.reports@[j]).league_id == league_id && self.reports@[j].matchday_date == date),
            decreases self.reports@.len() - i,
        {
            if self.reports[i].league_id == league_id && self.reports[i].matchday_date == date {
                return true;
            }
            i = i + 1;
        }
        false
    }

    /// The league's latest matchday in `lo < date < hi`.
    fn latest_in(&self, league_id: u128, lo: Option<i32>, hi: Option<i32>) -> (r: Option<i32>)
        ensures
            r == latest_between(self.reports(), league_id, lo, hi),
    {
        let ghost rs = self.reports@;
        let mut best: Option<i32> = None;
        let mut i: usize = 0;
        while i < self.reports.len()
            invariant
                i <= self.reports@.len(),
                rs == self.reports@,
                best == latest_between(rs.take(i as int), league_id, lo, hi),
            decreases self.reports@.len() - i,
        {
            assert(rs.take(i as int + 1).drop_last() =~= rs.take(i as int));
            let d = self.reports[i].matchday_date;
            let above = match lo {
                Some(l) => l < d,
                None => true,
            };
            let below = match hi {
                Some(h) => d < h,
                None => true,
            };
            if self.reports[i].league_id == league_id && above && below {
                best = match best {
                    Some(m) => if m >= d { Some(m) } else { Some(d) },
                    None => Some(d),
                };
            }
            i = i + 1;
        }
        assert(rs.take(i as int) =~= rs);
        best
    }

    /// The league's latest matchday with a recap.
    pub fn latest_date(&self, league_id: u128) -> (d: Option<i32>)
        ensures
            d == latest_between(self.reports(), league_id, None, None),
    {
        self.latest_in(league_id, None, None)
    }

    /// The league's matchdays with a recap just before and just after
    /// `date`, for arrow navigation.
    pub fn neighbors(&self, league_id: u128, date: i32) -> (n: (Option<i32>, Option<i32>))
        ensures
            n.0 == latest_between(self.reports(), league_id, None, Some(date)),
            n.1 == earliest_after(self.reports(), league_id, date),
    {
        let older = self.latest_in(league_id, None, Some(date));
        let ghost rs = self.reports@;
        let mut newer: Option<i32> = None;
        let mut i: usize = 0;
        while i < self.reports.len()
            invariant
                i <= self.reports@.len(),
                rs == self.reports@,
                newer == earliest_after(rs.take(i as int), league_id, date),
            decreases self.reports@.len() - i,
        {
            assert(rs.take(i as int + 1).drop_last() =~= rs.take(i as int));
            let d = self.reports[i].matchday_date;
            if self.reports[i].league_id == league_id && date < d {
                newer = match newer {
                    Some(m) => if m <= d { Some(m) } else { Some(d) },
                    None => Some(d),
                };
            }
            i = i + 1;
        }
        assert(rs.take(i as int) =~= rs);
        (older, newer)
    }

    /// Stores a recap unless the league already has one of that matchday.
    pub fn insert(&mut self, report: &MatchdayReport)
        ensures
            final(self).reports() == inserted(old(self).reports(), *report),
    {
        if !self.report_exists(report.league_id, report.matchday_date) {
            self.reports.push(copy_report(report));
        }
    }
}

proof fn lemma_find_report_prefix(rs: Seq<MatchdayReport>, league: u128, date: i32, n: int)
    requires
        0 <= n <= rs.len(),
        find_report(rs.take(n), league, date) is Some,
    ensures
        find_report(rs, league, date) == find_report(rs.take(n), league, date),
    decreases rs.len() - n,
{
    if n < rs.len() {
        assert(rs.take(n + 1).drop_last() =~= rs.take(n));
        lemma_find_report_prefix(rs, league, date, n + 1);
    } else {
        assert(rs.take(n) =~= rs);
    }
}

/// Inserting a recap twice is inserting it once; afterwards the league has
/// a recap of that matchday.
pub proof fn lemma_insert_idempotent(rs: Seq<MatchdayReport>, report: MatchdayReport)
    ensures
        inserted(inserted(rs, report), report) == inserted(rs, report),
        has_report(inserted(rs, report), report.league_id, report.matchday_date),
{
    if !has_report(rs, report.league_id, report.matchday_date) {
        let r = rs.push(report);
        assert(r[rs.len() as int] == report);
    }
}

/// The latest matchday in a range is one of the league's recaps in the range,
/// and no recap of the league in the range is later.
pub proof fn lemma_latest_between(rs: Seq<MatchdayReport>, league: u128, lo: Option<i32>, hi: Option<i32>)
    ensures
        latest_between(rs, league, lo, hi) matches Some(m) ==> {
            &&& has_report(rs, league, m)
            &&& (match lo { Some(l) => l < m, None => true })
            &&& (match hi { Some(h) => m < h, None => true })
        },
        forall|i: int| 0 <= i < rs.len() && (#[trigger] rs[i]).league_id == league
            && (match lo { Some(l) => l < rs[i].matchday_date, None => true })
            && (match hi { Some(h) => rs[i].matchday_date < h, None => true })
            ==> (latest_between(rs, league, lo, hi) matches Some(m) && rs[i].matchday_date <= m),
    decreases rs.len(),
{
    if rs.len() > 0 {
        let init = rs.drop_last();
        lemma_latest_between(init, league, lo, hi);
        assert forall|i: int| 0 <= i < init.len() implies init[i] == rs[i] by {}
        if latest_between(rs, league, lo, hi) is Some {
            let m = latest_between(rs, league, lo, hi).unwrap();
            if latest_between(init, league, lo, hi) == Some(m) {
                let w = choose|j: int| 0 <= j < init.len() && (#[trigger] init[j]).league_id == league && init[j].matchday_date == m;
                assert(rs[w] == init[w]);
            } else {
                assert(rs[rs.len() - 1] == rs.last());
            }
        }
    }
}

/// The earliest matchday after a day is one of the league's recaps after
/// it, and no recap of the league after it is earlier.
pub proof fn lemma_earliest_after(rs: Seq<MatchdayReport>, league: u128, lo: i32)
    ensures
        earliest_after(rs, league, lo) matches Some(m) ==> has_report(rs, league, m) && lo < m,
        forall|i: int| 0 <= i < rs.len() && (#[trigger] rs[i]).league_id == league && lo < rs[i].matchday_date
            ==> (earliest_after(rs, league, lo) matches Some(m) && m <= rs[i].matchday_date),
    decreases rs.len(),
{
    if rs.len() > 0 {
        let init = rs.drop_last();
        lemma_earliest_after(init, league, lo);
        assert forall|i: int| 0 <= i < init.len() implies init[i] == rs[i] by {}
        if earliest_after(rs, league, lo) is Some {
            let m = earliest_after(rs, league, lo).unwrap();
            if earliest_after(init, league, lo) == Some(m) {
                let w = choose|j: int| 0 <= j < init.len() && (#[trigger] init[j]).league_id == league && init[j].matchday_date == m;
                assert(rs[w] == init[w]);
            } else {
                assert(rs[rs.len() - 1] == rs.last());
            }
        }
    }
}

/// The matchday a league's recap is due for: its latest finished matchday,
/// unless the league already has a recap of that day; nothing when no
/// matchday is finished yet.
pub open spec fn recap_due_of(latest_finished: Option<i32>, already_written: bool) -> Option<i32> {
    match latest_finished {
        Some(d) => if already_written { None } else { Some(d) },
        None => None,
    }
}

/// Decides whether a recap is written on this run and for which matchday.
pub fn recap_due(latest_finished: Option<i32>, already_written: bool) -> (d: Option<i32>)
    ensures
        d == recap_due_of(latest_finished, already_written),
{
    match latest_finished {
        Some(day) => if already_written { None } else { Some(day) },
        None => None,
    }
}

} // verus!
