//! The fixtures, held in memory: the dashboard listing with the viewer's
//! tips, the lock data of a match, the first kickoffs, the champion, the
//! finished group matches, and the updates from the ESPN sync.
//!
//! Instants are seconds since the Unix epoch.

use vstd::prelude::*;

use crate::dashboard::IndexMatchRow;
use crate::order::{count_by, lemma_sort_by, sort_by, sorted_by, total_preorder};
use crate::stage::{stage_order, stage_rank, Stage};
use crate::standings::FinishedGroupMatch;
use crate::text::{chars_of, owned, str_eq, string_of};
use crate::tipping::MatchLockInfo;

verus! {

broadcast use vstd::seq_lib::group_seq_properties;

/// A fixture as stored.
#[derive(Debug, Clone)]
pub struct FakeMatch {
    pub id: i32,
    pub stage: Stage,
    pub group_letter: Option<String>,
    pub kickoff_time: Option<i64>,
    pub status: String,
    pub score_home: Option<i32>,
    pub score_away: Option<i32>,
    pub team_home_id: Option<i32>,
    pub team_away_id: Option<i32>,
    pub home_name: String,
    pub away_name: String,
    pub home_flag: Option<String>,
    pub away_flag: Option<String>,
}

impl FakeMatch {
    /// A locked-looking, unfinished group match between two known teams
    /// (ids 1 and 2, `TeamA` and `TeamB`) of group A.
    pub fn locked_unfinished(id: i32, kickoff: i64) -> (m: FakeMatch)
        ensures
            m.id == id,
            m.stage == Stage::Group,
            (match m.group_letter { Some(g) => Some(g@), None => None }) == Some("A"@),
            m.kickoff_time == Some(kickoff),
            m.status@ == "scheduled"@,
            m.score_home is None && m.score_away is None,
            m.team_home_id == Some(1i32) && m.team_away_id == Some(2i32),
            m.home_name@ == "TeamA"@ && m.away_name@ == "TeamB"@,
            m.home_flag is None && m.away_flag is None,
    {
        FakeMatch {
            id,
            stage: Stage::Group,
            group_letter: Some(owned("A")),
            kickoff_time: Some(kickoff),
            status: owned("scheduled"),
            score_home: None,
            score_away: None,
            team_home_id: Some(1),
            team_away_id: Some(2),
            home_name: owned("TeamA"),
            away_name: owned("TeamB"),
            home_flag: None,
            away_flag: None,
        }
    }
}

/// A fixture update from the ESPN sync.
#[derive(Debug, Clone)]
pub struct EspnMatchUpsert<'a> {
    pub espn_event_id: i64,
    pub stage: Stage,
    pub group_letter: Option<&'a str>,
    pub team_home_id: Option<i32>,
    pub team_away_id: Option<i32>,
    pub score_home: Option<i32>,
    pub score_away: Option<i32>,
    pub kickoff_time: Option<i64>,
    pub status: &'a str,
}

/// A tip as recorded for the listing `(user id, match id, home, away)`.
pub type ListedTip = (u128, i32, i32, i32);

/// The latest tip recorded for the player on the match.
pub open spec fn tip_for(tips: Seq<ListedTip>, user_id: u128, match_id: i32) -> Option<(i32, i32)>
    decreases tips.len(),
{
    if tips.len() == 0 {
        None
    } else if tips.last().0 == user_id && tips.last().1 == match_id {
        Some((tips.last().2, tips.last().3))
    } else {
        tip_for(tips.drop_last(), user_id, match_id)
    }
}

/// The dashboard line of a fixture with the viewer's tip.
pub open spec fn index_row(m: FakeMatch, tip: Option<(i32, i32)>) -> IndexMatchRow {
    IndexMatchRow {
        id: m.id,
        stage: m.stage,
        group_letter: m.group_letter,
        kickoff_time: m.kickoff_time,
        status: m.status,
        score_home: m.score_home,
        score_away: m.score_away,
        team_home_id: m.team_home_id,
        team_away_id: m.team_away_id,
        home_name: m.home_name,
        away_name: m.away_name,
        home_flag: m.home_flag,
        away_flag: m.away_flag,
        predicted_home: match tip {
            Some(t) => Some(t.0),
            None => None,
        },
        predicted_away: match tip {
            Some(t) => Some(t.1),
            None => None,
        },
    }
}

/// The dashboard lines of the fixtures, in fixture order.
pub open spec fn index_rows(ms: Seq<FakeMatch>, tips: Seq<ListedTip>, user_id: u128) -> Seq<IndexMatchRow> {
    ms.map_values(|m: FakeMatch| index_row(m, tip_for(tips, user_id, m.id)))
}

/// An unknown kickoff sorts before a known one.
pub open spec fn kickoff_le(a: Option<i64>, b: Option<i64>) -> bool {
    match (a, b) {
        (None, _) => true,
        (Some(_), None) => false,
        (Some(x), Some(y)) => x <= y,
    }
}

/// Dashboard order: by stage (group stage first), then kickoff, then id.
pub open spec fn index_le() -> spec_fn(IndexMatchRow, IndexMatchRow) -> bool {
    |a: IndexMatchRow, b: IndexMatchRow|
        if stage_rank(a.stage) != stage_rank(b.stage) {
            stage_rank(a.stage) < stage_rank(b.stage)
        } else if a.kickoff_time != b.kickoff_time {
            kickoff_le(a.kickoff_time, b.kickoff_time)
        } else {
            a.id <= b.id
        }
}

/// Index of the first fixture with that id.
pub open spec fn find_match(ms: Seq<FakeMatch>, id: i32) -> Option<int>
    decreases ms.len(),
{
    if ms.len() == 0 {
        None
    } else {
        match find_match(ms.drop_last(), id) {
            Some(i) => Some(i),
            None => if ms.last().id == id { Some(ms.len() - 1) } else { None },
        }
    }
}

/// Lock data of a fixture.
pub open spec fn lock_info(m: FakeMatch) -> MatchLockInfo {
    MatchLockInfo {
        kickoff_time: m.kickoff_time,
        team_home_id: m.team_home_id,
        team_away_id: m.team_away_id,
        stage: m.stage,
        home_name: m.home_name,
        away_name: m.away_name,
        home_flag_code: m.home_flag,
        away_flag_code: m.away_flag,
    }
}

/// The earliest known kickoff of the fixtures `keep` selects.
pub open spec fn earliest_kickoff(ms: Seq<FakeMatch>, knockout_only: bool) -> Option<i64>
    decreases ms.len(),
{
    if ms.len() == 0 {
        None
    } else {
        let r = earliest_kickoff(ms.drop_last(), knockout_only);
        let m = ms.last();
        if knockout_only && m.stage == Stage::Group {
            r
        } else {
            match m.kickoff_time {
                Some(t) => match r {
                    Some(e) => if e <= t { Some(e) } else { Some(t) },
                    None => Some(t),
                },
                None => r,
            }
        }
    }
}

/// Whether a fixture is a finished final.
pub open spec fn finished_final(m: FakeMatch) -> bool {
    m.stage == Stage::Final && m.status@ == "finished"@
}

/// The finished final with the latest kickoff (the last one among equals).
pub open spec fn latest_final(ms: Seq<FakeMatch>) -> Option<FakeMatch>
    decreases ms.len(),
{
    if ms.len() == 0 {
        None
    } else {
        let r = latest_final(ms.drop_last());
        let m = ms.last();
        if finished_final(m) {
            match r {
                Some(b) => if kickoff_le(b.kickoff_time, m.kickoff_time) { Some(m) } else { Some(b) },
                None => Some(m),
            }
        } else {
            r
        }
    }
}

/// The winner of a final: the team that scored more; nobody on a draw or
/// while a score or the winning team is unknown.
pub open spec fn winner_of(m: FakeMatch) -> Option<i32> {
    match (m.score_home, m.score_away) {
        (Some(sh), Some(sa)) => if sh > sa {
            m.team_home_id
        } else if sa > sh {
            m.team_away_id
        } else {
            None
        },
        _ => None,
    }
}

/// The champion: the winner of the latest finished final.
pub open spec fn champion_of(ms: Seq<FakeMatch>) -> Option<i32> {
    match latest_final(ms) {
        Some(m) => winner_of(m),
        None => None,
    }
}

/// Whether a fixture is a finished group match with everything the
/// standings need.
pub open spec fn complete_group_match(m: FakeMatch) -> bool {
    &&& m.stage == Stage::Group
    &&& m.status@ == "finished"@
    &&& m.group_letter is Some
    &&& m.score_home is Some
    &&& m.score_away is Some
    &&& m.team_home_id is Some
    &&& m.team_away_id is Some
}

/// The standings input of a complete finished group match.
pub open spec fn group_row(m: FakeMatch) -> FinishedGroupMatch {
    FinishedGroupMatch {
        group_letter: m.group_letter.unwrap(),
        home_id: m.team_home_id.unwrap(),
        away_id: m.team_away_id.unwrap(),
        score_home: m.score_home.unwrap(),
        score_away: m.score_away.unwrap(),
        home_name: m.home_name,
        home_flag: m.home_flag,
        away_name: m.away_name,
        away_flag: m.away_flag,
    }
}

/// The finished group matches, in fixture order.
pub open spec fn group_rows(ms: Seq<FakeMatch>) -> Seq<FinishedGroupMatch>
    decreases ms.len(),
{
    if ms.len() == 0 {
        Seq::empty()
    } else {
        let r = group_rows(ms.drop_last());
        if complete_group_match(ms.last()) { r.push(group_row(ms.last())) } else { r }
    }
}

/// Whether a fixture with both teams known has kicked off before `now`.
pub open spec fn started_known(m: FakeMatch, now: i64) -> bool {
    m.team_home_id is Some && m.team_away_id is Some && (m.kickoff_time matches Some(t) && t < now)
}

/// Number of fixtures with both teams known that have kicked off.
pub open spec fn started_count(ms: Seq<FakeMatch>, now: i64) -> nat
    decreases ms.len(),
{
    if ms.len() == 0 {
        0
    } else {
        started_count(ms.drop_last(), now) + if started_known(ms.last(), now) { 1nat } else { 0nat }
    }
}

/// The group letter a sync stores: the first character of the given one
/// (a blank when it is empty).
pub open spec fn first_letter(g: Option<Seq<char>>) -> Option<Seq<char>> {
    match g {
        Some(s) => Some(seq![if s.len() > 0 { s[0] } else { ' ' }]),
        None => None,
    }
}

fn copy_opt(s: &Option<String>) -> (c: Option<String>)
    ensures
        c == *s,
{
    match s {
        Some(x) => Some(x.clone()),
        None => None,
    }
}

fn copy_match(m: &FakeMatch) -> (c: FakeMatch)
    ensures
        c == *m,
{
    FakeMatch {
        id: m.id,
        stage: m.stage,
        group_letter: copy_opt(&m.group_letter),
        kickoff_time: m.kickoff_time,
        status: m.status.clone(),
        score_home: m.score_home,
        score_away: m.score_away,
        team_home_id: m.team_home_id,
        team_away_id: m.team_away_id,
        home_name: m.home_name.clone(),
        away_name: m.away_name.clone(),
        home_flag: copy_opt(&m.home_flag),
        away_flag: copy_opt(&m.away_flag),
    }
}

fn kickoff_before_eq(a: Option<i64>, b: Option<i64>) -> (r: bool)
    ensures
        r == kickoff_le(a, b),
{
    match (a, b) {
        (None, _) => true,
        (Some(_), None) => false,
        (Some(x), Some(y)) => x <= y,
    }
}

fn same_kickoff(a: Option<i64>, b: Option<i64>) -> (r: bool)
    ensures
        r == (a == b),
{
    match (a, b) {
        (None, None) => true,
        (Some(x), Some(y)) => x == y,
        _ => false,
    }
}

/// Whether `a` may stand before `b` on the dashboard.
fn index_before(a: &IndexMatchRow, b: &IndexMatchRow) -> (r: bool)
    ensures
        r == index_le()(*a, *b),
{
    let sa = stage_order(a.stage);
    let sb = stage_order(b.stage);
    if sa != sb {
        sa < sb
    } else if !same_kickoff(a.kickoff_time, b.kickoff_time) {
        kickoff_before_eq(a.kickoff_time, b.kickoff_time)
    } else {
        a.id <= b.id
    }
}

/// The first character of a group letter as stored by a sync.
fn first_letter_of(g: Option<&str>) -> (r: Option<String>)
    ensures
        match r {
            Some(s) => first_letter(match g { Some(x) => Some(x@), None => None }) == Some(s@),
            None => g is None,
        },
{
    match g {
        Some(x) => {
            let c = chars_of(x);
            let ch = if c.len() > 0 { c[0] } else { ' ' };
            let mut v: Vec<char> = Vec::new();
            v.push(ch);
            assert(v@ =~= seq![ch]);
            Some(string_of(&v))
        },
        None => None,
    }
}

/// The fixtures and the recorded tips, held in memory.
pub struct MemoryMatchRepo {
    matches: Vec<FakeMatch>,
    predictions: Vec<ListedTip>,
}

impl MemoryMatchRepo {
    /// The fixtures, in order of seeding.
    pub closed spec fn fixtures(&self) -> Seq<FakeMatch> {
        self.matches@
    }

    /// The recorded tips, oldest first.
    pub closed spec fn tips(&self) -> Seq<ListedTip> {
        self.predictions@
    }

    /// No fixtures, no tips.
    pub fn new() -> (r: Self)
        ensures
            r.fixtures() == Seq::<FakeMatch>::empty(),
            r.tips() == Seq::<ListedTip>::empty(),
    {
        MemoryMatchRepo { matches: Vec::new(), predictions: Vec::new() }
    }

    /// Adds a fixture as it is.
    pub fn seed(&mut self, m: FakeMatch)
        ensures
            final(self).fixtures() == old(self).fixtures().push(m),
            final(self).tips() == old(self).tips(),
    {
        self.matches.push(m);
    }

    /// Records a tip for the listing; a later tip of the player on the
    /// match replaces it.
    pub fn record_prediction(&mut self, user_id: u128, match_id: i32, h: i32, a: i32)
        ensures
            final(self).tips() == old(self).tips().push((user_id, match_id, h, a)),
            final(self).fixtures() == old(self).fixtures(),
    {
        self.predictions.push((user_id, match_id, h, a));
    }

    /// The latest tip of the player on the match.
    fn tip_of(&self, user_id: u128, match_id: i32) -> (t: Option<(i32, i32)>)
        ensures
            t == tip_for(self.tips(), user_id, match_id),
    {
        let ghost ts = self.predictions@;
        let mut i: usize = self.predictions.len();
        while i > 0
            invariant
                i <= self.predictions@.len(),
                ts == self.predictions@,
                tip_for(ts, user_id, match_id) == tip_for(ts.take(i as int), user_id, match_id),
            decreases i,
        {
            assert(ts.take(i as int).drop_last() =~= ts.take(i as int - 1));
            let p = self.predictions[i - 1];
            if p.0 == user_id && p.1 == match_id {
                return Some((p.2, p.3));
            }
            i = i - 1;
        }
        None
    }

    /// Every fixture with the viewer's tip, by stage, then kickoff, then id.
    pub fn list_for_index(&self, user_id: u128) -> (out: Vec<IndexMatchRow>)
        ensures
            out@ == sort_by(index_rows(self.fixtures(), self.tips(), user_id), index_le()),
    {
        let ghost all = index_rows(self.matches@, self.predictions@, user_id);
        let mut out: Vec<IndexMatchRow> = Vec::new();
        let mut j: usize = 0;
        while j < self.matches.len()
            invariant
                j <= self.matches@.len(),
                all == index_rows(self.matches@, self.predictions@, user_id),
                all.len() == self.matches@.len(),
                out@ == sort_by(all.take(j as int), index_le()),
            decreases self.matches@.len() - j,
        {
            assert(all.take(j as int + 1).drop_last() =~= all.take(j as int));
            let m = &self.matches[j];
            let tip = self.tip_of(user_id, m.id);
            let row = IndexMatchRow {
                id: m.id,
                stage: m.stage,
                group_letter: copy_opt(&m.group_letter),
                kickoff_time: m.kickoff_time,
                status: m.status.clone(),
                score_home: m.score_home,
                score_away: m.score_away,
                team_home_id: m.team_home_id,
                team_away_id: m.team_away_id,
                home_name: m.home_name.clone(),
                away_name: m.away_name.clone(),
                home_flag: copy_opt(&m.home_flag),
                away_flag: copy_opt(&m.away_flag),
                predicted_home: match tip {
                    Some(t) => Some(t.0),
                    None => None,
                },
                predicted_away: match tip {
                    Some(t) => Some(t.1),
                    None => None,
                },
            };
            assert(row == all[j as int]);
            let mut cnt: usize = 0;
            let mut k: usize = 0;
            while k < out.len()
                invariant
                    k <= out@.len(),
                    cnt <= k,
                    cnt == count_by(out@.take(k as int), row, index_le()),
                decreases out@.len() - k,
            {
                assert(out@.take(k as int + 1).drop_last() =~= out@.take(k as int));
                if index_before(&out[k], &row) {
                    cnt = cnt + 1;
                }
                k = k + 1;
            }
            assert(out@.take(k as int) =~= out@);
            out.insert(cnt, row);
            j = j + 1;
        }
        assert(all.take(j as int) =~= all);
        out
    }

    /// Index of the first fixture with that id.
    fn index_of(&self, id: i32) -> (r: Option<usize>)
        ensures
            match r {
                Some(i) => i < self.matches@.len() && find_match(self.fixtures(), id) == Some(i as int),
                None => find_match(self.fixtures(), id) is None,
            },
    {
        let ghost ms = self.matches@;
        let mut i: usize = 0;
        while i < self.matches.len()
            invariant
                i <= self.matches@.len(),
                ms == self.matches@,
                find_match(ms.take(i as int), id) is None,
            decreases self.matches@.len() - i,
        {
            assert(ms.take(i as int + 1).drop_last() =~= ms.take(i as int));
            if self.matches[i].id == id {
                proof { lemma_find_match_prefix(ms, id, i as int + 1); }
                return Some(i);
            }
            i = i + 1;
        }
        assert(ms.take(i as int) =~= ms);
        None
    }

    /// Lock data of the fixture; `None` for an unknown id.
    pub fn find_lock_info(&self, match_id: i32) -> (r: Option<MatchLockInfo>)
        ensures
            r == match find_match(self.fixtures(), match_id) {
                Some(k) => Some(lock_info(self.fixtures()[k])),
                None => None,
            },
    {
        match self.index_of(match_id) {
            Some(i) => {
                let m = &self.matches[i];
                Some(MatchLockInfo {
                    kickoff_time: m.kickoff_time,
                    team_home_id: m.team_home_id,
                    team_away_id: m.team_away_id,
                    stage: m.stage,
                    home_name: m.home_name.clone(),
                    away_name: m.away_name.clone(),
                    home_flag_code: copy_opt(&m.home_flag),
                    away_flag_code: copy_opt(&m.away_flag),
                })
            },
            None => None,
        }
    }

    fn earliest(&self, knockout_only: bool) -> (r: Option<i64>)
        ensures
            r == earliest_kickoff(self.fixtures(), knockout_only),
    {
        let ghost ms = self.matches@;
        let mut best: Option<i64> = None;
        let mut i: usize = 0;
        while i < self.matches.len()
            invariant
                i <= self.matches@.len(),
                ms == self.matches@,
                best == earliest_kickoff(ms.take(i as int), knockout_only),
            decreases self.matches@.len() - i,
        {
            assert(ms.take(i as int + 1).drop_last() =~= ms.take(i as int));
            let m = &self.matches[i];
            if !(knockout_only && m.stage == Stage::Group) {
                match m.kickoff_time {
                    Some(t) => {
                        best = match best {
                            Some(e) => if e <= t { Some(e) } else { Some(t) },
                            None => Some(t),
                        };
                    },
                    None => {},
                }
            }
            i = i + 1;
        }
        assert(ms.take(i as int) =~= ms);
        best
    }

    /// The earliest known kickoff: the champion pick locks then.
    pub fn first_kickoff(&self) -> (r: Option<i64>)
        ensures
            r == earliest_kickoff(self.fixtures(), false),
    {
        self.earliest(false)
    }

    /// The earliest known kickoff of a knockout match.
    pub fn first_knockout_kickoff(&self) -> (r: Option<i64>)
        ensures
            r == earliest_kickoff(self.fixtures(), true),
    {
        self.earliest(true)
    }

    /// The winner of the latest finished final, if it was not drawn.
    pub fn actual_champion(&self) -> (r: Option<i32>)
        ensures
            r == champion_of(self.fixtures()),
    {
        let ghost ms = self.matches@;
        let mut best: Option<usize> = None;
        let mut i: usize = 0;
        while i < self.matches.len()
            invariant
                i <= self.matches@.len(),
                ms == self.matches@,
                match best {
                    Some(b) => b < i && latest_final(ms.take(i as int)) == Some(ms[b as int]),
                    None => latest_final(ms.take(i as int)) is None,
                },
            decreases self.matches@.len() - i,
        {
            assert(ms.take(i as int + 1).drop_last() =~= ms.take(i as int));
            let m = &self.matches[i];
            if m.stage == Stage::Final && str_eq(m.status.as_str(), "finished") {
                best = match best {
                    Some(b) => if kickoff_before_eq(self.matches[b].kickoff_time, m.kickoff_time) { Some(i) } else { Some(b) },
                    None => Some(i),
                };
            }
            i = i + 1;
        }
        assert(ms.take(i as int) =~= ms);
        match best {
            Some(b) => {
                let m = &self.matches[b];
                match (m.score_home, m.score_away) {
                    (Some(sh), Some(sa)) => {
                        if sh > sa {
                            m.team_home_id
                        } else if sa > sh {
                            m.team_away_id
                        } else {
                            None
                        }
                    },
                    _ => None,
                }
            },
            None => None,
        }
    }

    /// The complete finished group matches, in fixture order.
    pub fn finished_group_rows(&self) -> (out: Vec<FinishedGroupMatch>)
        ensures
            out@ == group_rows(self.fixtures()),
    {
        let ghost ms = self.matches@;
        let mut out: Vec<FinishedGroupMatch> = Vec::new();
        let mut i: usize = 0;
        while i < self.matches.len()
            invariant
                i <= self.matches@.len(),
                ms == self.matches@,
                out@ == group_rows(ms.take(i as int)),
            decreases self.matches@.len() - i,
        {
            assert(ms.take(i as int + 1).drop_last() =~= ms.take(i as int));
            let m = &self.matches[i];
            if m.stage == Stage::Group && str_eq(m.status.as_str(), "finished") {
                match (&m.group_letter, m.score_home, m.score_away, m.team_home_id, m.team_away_id) {
                    (Some(g), Some(sh), Some(sa), Some(h), Some(a)) => {
                        out.push(FinishedGroupMatch {
                            group_letter: g.clone(),
                            home_id: h,
                            away_id: a,
                            score_home: sh,
                            score_away: sa,
                            home_name: m.home_name.clone(),
                            home_flag: copy_opt(&m.home_flag),
                            away_name: m.away_name.clone(),
                            away_flag: copy_opt(&m.away_flag),
                        });
                    },
                    _ => {},
                }
            }
            i = i + 1;
        }
        assert(ms.take(i as int) =~= ms);
        out
    }

    /// Number of fixtures with both teams known that kicked off before
    /// `now`.
    pub fn started_with_both_teams_count(&self, now: i64) -> (n: i64)
        requires
            self.fixtures().len() <= i64::MAX,
        ensures
            n == started_count(self.fixtures(), now),
    {
        let ghost ms = self.matches@;
        let mut n: i64 = 0;
        let mut i: usize = 0;
        while i < self.matches.len()
            invariant
                i <= self.matches@.len(),
                ms == self.matches@,
                ms.len() <= i64::MAX,
                n == started_count(ms.take(i as int), now),
                n <= i,
            decreases self.matches@.len() - i,
        {
            assert(ms.take(i as int + 1).drop_last() =~= ms.take(i as int));
            let m = &self.matches[i];
            let started = match m.kickoff_time {
                Some(t) => t < now,
                None => false,
            };
            if m.team_home_id.is_some() && m.team_away_id.is_some() && started {
                n = n + 1;
            }
            i = i + 1;
        }
        assert(ms.take(i as int) =~= ms);
        n
    }

    /// Applies a sync update to the fixture whose id is the ESPN event id:
    /// stage, group letter and status are replaced; teams, scores and
    /// kickoff only where the update knows them. An unknown event is added
    /// under its id (truncated to 32 bits), without names or flags.
    pub fn upsert_from_espn(&mut self, u: EspnMatchUpsert<'_>)
        ensures
            final(self).tips() == old(self).tips(),
            ({
                let ms = old(self).fixtures();
                let letter = first_letter(match u.group_letter { Some(x) => Some(x@), None => None });
                match find_event(ms, u.espn_event_id) {
                    Some(k) => {
                        let m = final(self).fixtures()[k];
                        &&& final(self).fixtures().len() == ms.len()
                        &&& forall|j: int| 0 <= j < ms.len() && j != k ==> #[trigger] final(self).fixtures()[j] == ms[j]
                        &&& m.id == ms[k].id
                        &&& m.stage == u.stage
                        &&& (match m.group_letter { Some(x) => Some(x@), None => None }) == letter
                        &&& m.team_home_id == (if u.team_home_id is Some { u.team_home_id } else { ms[k].team_home_id })
                        &&& m.team_away_id == (if u.team_away_id is Some { u.team_away_id } else { ms[k].team_away_id })
                        &&& m.score_home == (if u.score_home is Some { u.score_home } else { ms[k].score_home })
                        &&& m.score_away == (if u.score_away is Some { u.score_away } else { ms[k].score_away })
                        &&& m.kickoff_time == (if u.kickoff_time is Some { u.kickoff_time } else { ms[k].kickoff_time })
                        &&& m.status@ == u.status@
                        &&& m.home_name == ms[k].home_name
                        &&& m.away_name == ms[k].away_name
                        &&& m.home_flag == ms[k].home_flag
                        &&& m.away_flag == ms[k].away_flag
                    },
                    None => {
                        let m = final(self).fixtures().last();
                        &&& final(self).fixtures().len() == ms.len() + 1
                        &&& final(self).fixtures().drop_last() == ms
                        &&& m.id == u.espn_event_id as i32
                        &&& m.stage == u.stage
                        &&& (match m.group_letter { Some(x) => Some(x@), None => None }) == letter
                        &&& m.kickoff_time == u.kickoff_time
                        &&& m.status@ == u.status@
                        &&& m.score_home == u.score_home
                        &&& m.score_away == u.score_away
                        &&& m.team_home_id == u.team_home_id
                        &&& m.team_away_id == u.team_away_id
                        &&& m.home_name@ == Seq::<char>::empty()
                        &&& m.away_name@ == Seq::<char>::empty()
                        &&& m.home_flag is None
                        &&& m.away_flag is None
                    },
                }
            }),
    {
        let letter = first_letter_of(u.group_letter);
        let ghost ms = self.matches@;
        let mut i: usize = 0;
        while i < self.matches.len()
            invariant
                i <= self.matches@.len(),
                ms == self.matches@,
                ms == old(self).matches@,
                self.predictions@ == old(self).predictions@,
                find_event(ms.take(i as int), u.espn_event_id) is None,
                match letter {
                    Some(s) => first_letter(match u.group_letter { Some(x) => Some(x@), None => None }) == Some(s@),
                    None => u.group_letter is None,
                },
            decreases self.matches@.len() - i,
        {
            assert(ms.take(i as int + 1).drop_last() =~= ms.take(i as int));
            if self.matches[i].id as i64 == u.espn_event_id {
                proof { lemma_find_event_prefix(ms, u.espn_event_id, i as int + 1); }
                let mut m = copy_match(&self.matches[i]);
                m.stage = u.stage;
                m.group_letter = letter;
                if u.team_home_id.is_some() {
                    m.team_home_id = u.team_home_id;
                }
                if u.team_away_id.is_some() {
                    m.team_away_id = u.team_away_id;
                }
                if u.score_home.is_some() {
                    m.score_home = u.score_home;
                }
                if u.score_away.is_some() {
                    m.score_away = u.score_away;
                }
                if u.kickoff_time.is_some() {
                    m.kickoff_time = u.kickoff_time;
                }
                m.status = owned(u.status);
                self.matches.set(i, m);
                assert(find_event(ms, u.espn_event_id) == Some(i as int));
                assert(self.matches@[i as int] == m);
                return;
            }
            i = i + 1;
        }
        assert(ms.take(i as int) =~= ms);
        self.matches.push(FakeMatch {
            id: u.espn_event_id as i32,
            stage: u.stage,
            group_letter: letter,
            kickoff_time: u.kickoff_time,
            status: owned(u.status),
            score_home: u.score_home,
            score_away: u.score_away,
            team_home_id: u.team_home_id,
            team_away_id: u.team_away_id,
            home_name: String::new(),
            away_name: String::new(),
            home_flag: None,
            away_flag: None,
        });
        assert(self.matches@.drop_last() =~= ms);
    }

    /// Sets the result and status of the first fixture with that id.
    pub fn update_result(&mut self, match_id: i32, score_home: Option<i32>, score_away: Option<i32>, status: &str)
        ensures
            final(self).tips() == old(self).tips(),
            match find_match(old(self).fixtures(), match_id) {
                Some(k) => {
                    &&& final(self).fixtures().len() == old(self).fixtures().len()
                    &&& forall|j: int| 0 <= j < old(self).fixtures().len() && j != k
                        ==> #[trigger] final(self).fixtures()[j] == old(self).fixtures()[j]
                    &&& final(self).fixtures()[k].score_home == score_home
                    &&& final(self).fixtures()[k].score_away == score_away
                    &&& final(self).fixtures()[k].status@ == status@
                    &&& final(self).fixtures()[k].id == old(self).fixtures()[k].id
                    &&& final(self).fixtures()[k].stage == old(self).fixtures()[k].stage
                    &&& final(self).fixtures()[k].kickoff_time == old(self).fixtures()[k].kickoff_time
                    &&& final(self).fixtures()[k].team_home_id == old(self).fixtures()[k].team_home_id
                    &&& final(self).fixtures()[k].team_away_id == old(self).fixtures()[k].team_away_id
                    &&& final(self).fixtures()[k].group_letter == old(self).fixtures()[k].group_letter
                },
                None => final(self).fixtures() == old(self).fixtures(),
            },
    {
        if let Some(i) = self.index_of(match_id) {
            let mut m = copy_match(&self.matches[i]);
            m.score_home = score_home;
            m.score_away = score_away;
            m.status = owned(status);
            self.matches.set(i, m);
        }
    }
}

/// Index of the first fixture whose id is the ESPN event id.
pub open spec fn find_event(ms: Seq<FakeMatch>, event: i64) -> Option<int>
    decreases ms.len(),
{
    if ms.len() == 0 {
        None
    } else {
        match find_event(ms.drop_last(), event) {
            Some(i) => Some(i),
            None => if ms.last().id as i64 == event { Some(ms.len() - 1) } else { None },
        }
    }
}

proof fn lemma_find_match_prefix(ms: Seq<FakeMatch>, id: i32, n: int)
    requires
        0 <= n <= ms.len(),
        find_match(ms.take(n), id) is Some,
    ensures
        find_match(ms, id) == find_match(ms.take(n), id),
    decreases ms.len() - n,
{
    if n < ms.len() {
        assert(ms.take(n + 1).drop_last() =~= ms.take(n));
        lemma_find_match_prefix(ms, id, n + 1);
    } else {
        assert(ms.take(n) =~= ms);
    }
}

proof fn lemma_find_event_prefix(ms: Seq<FakeMatch>, event: i64, n: int)
    requires
        0 <= n <= ms.len(),
        find_event(ms.take(n), event) is Some,
    ensures
        find_event(ms, event) == find_event(ms.take(n), event),
    decreases ms.len() - n,
{
    if n < ms.len() {
        assert(ms.take(n + 1).drop_last() =~= ms.take(n));
        lemma_find_event_prefix(ms, event, n + 1);
    } else {
        assert(ms.take(n) =~= ms);
    }
}

/// The dashboard order is total and transitive.
pub proof fn lemma_index_le_total_preorder()
    ensures
        total_preorder(index_le()),
{
}

/// The dashboard lists every fixture once, by stage, then kickoff, then id.
pub proof fn lemma_index_sorted(ms: Seq<FakeMatch>, tips: Seq<ListedTip>, user_id: u128)
    ensures
        sorted_by(sort_by(index_rows(ms, tips, user_id), index_le()), index_le()),
        sort_by(index_rows(ms, tips, user_id), index_le()).to_multiset() == index_rows(ms, tips, user_id).to_multiset(),
{
    lemma_index_le_total_preorder();
    lemma_sort_by(index_rows(ms, tips, user_id), index_le());
}

/// The first kickoff is a kickoff of a fixture and no fixture kicks off
/// earlier.
pub proof fn lemma_earliest_kickoff(ms: Seq<FakeMatch>, knockout_only: bool)
    ensures
        earliest_kickoff(ms, knockout_only) matches Some(t) ==> exists|i: int| 0 <= i < ms.len() && (#[trigger] ms[i]).kickoff_time == Some(t),
        forall|i: int| 0 <= i < ms.len() && !(knockout_only && (#[trigger] ms[i]).stage == Stage::Group) && ms[i].kickoff_time is Some
            ==> (earliest_kickoff(ms, knockout_only) matches Some(t) && t <= ms[i].kickoff_time.unwrap()),
    decreases ms.len(),
{
    if ms.len() > 0 {
        let init = ms.drop_last();
        lemma_earliest_kickoff(init, knockout_only);
        assert forall|i: int| 0 <= i < init.len() implies init[i] == ms[i] by {}
        if earliest_kickoff(ms, knockout_only) is Some {
            let t = earliest_kickoff(ms, knockout_only).unwrap();
            if earliest_kickoff(init, knockout_only) == Some(t) {
                let w = choose|i: int| 0 <= i < init.len() && (#[trigger] init[i]).kickoff_time == Some(t);
                assert(ms[w] == init[w]);
            } else {
                assert(ms[ms.len() - 1] == ms.last());
            }
        }
    }
}

} // verus!
