//! The match tips, held in memory: one tip per player and match, which a
//! later tip overwrites, and the per-league joins the badges and the
//! leaderboard read.

use vstd::prelude::*;

use crate::badges::PredictionRow;
use crate::leaderboard::LeaderboardPredictionRow;
use crate::scoring::MatchScoringSystem;
use crate::stage::Stage;

verus! {

broadcast use vstd::seq_lib::group_seq_properties;

/// A tip `(user id, match id, predicted home goals, predicted away goals)`.
pub type TipRow = (u128, i32, i32, i32);

/// A finished match with one player's tip on it. Instants are seconds since
/// the Unix epoch.
#[derive(Debug, Clone)]
pub struct FinishedPredictionJoin {
    pub user_id: u128,
    pub match_id: i32,
    pub stage: Stage,
    pub kickoff: i64,
    pub score_home: i32,
    pub score_away: i32,
    pub predicted_home: i32,
    pub predicted_away: i32,
}

/// A finished tip as seeded, with the league it belongs to.
#[derive(Debug, Clone)]
pub struct FakeFinishedRow {
    pub user_id: u128,
    pub league_id: u128,
    pub match_id: i32,
    pub stage: Stage,
    pub kickoff: i64,
    pub score_home: i32,
    pub score_away: i32,
    pub predicted_home: i32,
    pub predicted_away: i32,
}

/// A leaderboard line as seeded, with the league it belongs to.
#[derive(Debug, Clone)]
pub struct FakeLeaderboardRow {
    pub league_id: u128,
    pub user_name: String,
    pub stage: Stage,
    pub kickoff_time: Option<i64>,
    pub status: String,
    pub score_home: Option<i32>,
    pub score_away: Option<i32>,
    pub predicted_home: i32,
    pub predicted_away: i32,
}

/// Index of the tip of that player on that match.
pub open spec fn find_tip(rows: Seq<TipRow>, user_id: u128, match_id: i32) -> Option<int>
    decreases rows.len(),
{
    if rows.len() == 0 {
        None
    } else {
        match find_tip(rows.drop_last(), user_id, match_id) {
            Some(i) => Some(i),
            None => if rows.last().0 == user_id && rows.last().1 == match_id { Some(rows.len() - 1) } else { None },
        }
    }
}

/// No player tips a match twice.
pub open spec fn tips_distinct(rows: Seq<TipRow>) -> bool {
    forall|i: int, j: int| 0 <= i < j < rows.len()
        ==> !((#[trigger] rows[i]).0 == (#[trigger] rows[j]).0 && rows[i].1 == rows[j].1)
}

/// The tips after an upsert: the player's tip on the match replaced, or
/// added at the end.
pub open spec fn upserted(rows: Seq<TipRow>, user_id: u128, match_id: i32, home: i32, away: i32) -> Seq<TipRow> {
    match find_tip(rows, user_id, match_id) {
        Some(k) => rows.update(k, (user_id, match_id, home, away)),
        None => rows.push((user_id, match_id, home, away)),
    }
}

/// The player's tip on the match, if any.
pub open spec fn tip_of(rows: Seq<TipRow>, user_id: u128, match_id: i32) -> Option<(i32, i32)> {
    match find_tip(rows, user_id, match_id) {
        Some(k) => Some((rows[k].2, rows[k].3)),
        None => None,
    }
}

/// Number of tips of a player.
pub open spec fn tips_by(rows: Seq<TipRow>, user_id: u128) -> nat
    decreases rows.len(),
{
    if rows.len() == 0 {
        0
    } else {
        tips_by(rows.drop_last(), user_id) + if rows.last().0 == user_id { 1nat } else { 0nat }
    }
}

/// The finished tips of a league, as joined rows, in seeding order.
pub open spec fn finished_of(rows: Seq<FakeFinishedRow>, league: u128) -> Seq<FinishedPredictionJoin>
    decreases rows.len(),
{
    if rows.len() == 0 {
        Seq::empty()
    } else {
        let r = finished_of(rows.drop_last(), league);
        let f = rows.last();
        if f.league_id == league {
            r.push(FinishedPredictionJoin {
                user_id: f.user_id,
                match_id: f.match_id,
                stage: f.stage,
                kickoff: f.kickoff,
                score_home: f.score_home,
                score_away: f.score_away,
                predicted_home: f.predicted_home,
                predicted_away: f.predicted_away,
            })
        } else {
            r
        }
    }
}

/// The leaderboard lines of a league, in seeding order.
pub open spec fn leaderboard_of(rows: Seq<FakeLeaderboardRow>, league: u128) -> Seq<LeaderboardPredictionRow>
    decreases rows.len(),
{
    if rows.len() == 0 {
        Seq::empty()
    } else {
        let r = leaderboard_of(rows.drop_last(), league);
        let f = rows.last();
        if f.league_id == league {
            r.push(LeaderboardPredictionRow {
                user_name: f.user_name,
                stage: f.stage,
                kickoff_time: f.kickoff_time,
                status: f.status,
                score_home: f.score_home,
                score_away: f.score_away,
                predicted_home: f.predicted_home,
                predicted_away: f.predicted_away,
            })
        } else {
            r
        }
    }
}

/// The badge input of a finished tip, scored under the league's system.
pub open spec fn row_of(j: FinishedPredictionJoin, system: MatchScoringSystem) -> PredictionRow {
    PredictionRow {
        user_id: j.user_id,
        match_id: j.match_id,
        stage: j.stage,
        kickoff: j.kickoff,
        score_h: j.score_home,
        score_a: j.score_away,
        pred_h: j.predicted_home,
        pred_a: j.predicted_away,
        scoring_system: system,
    }
}

/// The badge inputs of a league's finished tips, in the same order.
pub fn prediction_rows(joins: &Vec<FinishedPredictionJoin>, system: MatchScoringSystem) -> (rows: Vec<PredictionRow>)
    ensures
        rows@ == joins@.map_values(|j: FinishedPredictionJoin| row_of(j, system)),
{
    let mut rows: Vec<PredictionRow> = Vec::new();
    let mut i: usize = 0;
    while i < joins.len()
        invariant
            i <= joins@.len(),
            rows@ == joins@.take(i as int).map_values(|j: FinishedPredictionJoin| row_of(j, system)),
        decreases joins@.len() - i,
    {
        let j = &joins[i];
        rows.push(PredictionRow {
            user_id: j.user_id,
            match_id: j.match_id,
            stage: j.stage,
            kickoff: j.kickoff,
            score_h: j.score_home,
            score_a: j.score_away,
            pred_h: j.predicted_home,
            pred_a: j.predicted_away,
            scoring_system: system,
        });
        assert(joins@.take(i as int + 1) =~= joins@.take(i as int).push(joins@[i as int]));
        assert(rows@ =~= joins@.take(i as int + 1).map_values(|j: FinishedPredictionJoin| row_of(j, system)));
        i = i + 1;
    }
    assert(joins@.take(i as int) =~= joins@);
    rows
}

/// The tips, held in memory, with the seeded joins.
pub struct MemoryPredictionRepo {
    rows: Vec<TipRow>,
    finished: Vec<FakeFinishedRow>,
    leaderboard: Vec<FakeLeaderboardRow>,
}

impl MemoryPredictionRepo {
    /// The stored tips, in order of first tip.
    pub closed spec fn tips(&self) -> Seq<TipRow> {
        self.rows@
    }

    /// The seeded finished tips.
    pub closed spec fn finished(&self) -> Seq<FakeFinishedRow> {
        self.finished@
    }

    /// The seeded leaderboard lines.
    pub closed spec fn leaderboard(&self) -> Seq<FakeLeaderboardRow> {
        self.leaderboard@
    }

    /// No tips, nothing seeded.
    pub fn new() -> (r: Self)
        ensures
            r.tips() == Seq::<TipRow>::empty(),
            r.finished() == Seq::<FakeFinishedRow>::empty(),
            r.leaderboard() == Seq::<FakeLeaderboardRow>::empty(),
            tips_distinct(r.tips()),
    {
        MemoryPredictionRepo { rows: Vec::new(), finished: Vec::new(), leaderboard: Vec::new() }
    }

    /// Every stored tip.
    pub fn all(&self) -> (rows: Vec<TipRow>)
        ensures
            rows@ == self.tips(),
    {
        let mut out: Vec<TipRow> = Vec::new();
        let mut i: usize = 0;
        while i < self.rows.len()
            invariant
                i <= self.rows@.len(),
                out@ == self.rows@.take(i as int),
            decreases self.rows@.len() - i,
        {
            out.push(self.rows[i]);
            assert(out@ =~= self.rows@.take(i as int + 1));
            i = i + 1;
        }
        assert(self.rows@.take(i as int) =~= self.rows@);
        out
    }

    /// Adds a finished tip for `list_finished_join`.
    pub fn seed_finished(&mut self, row: FakeFinishedRow)
        ensures
            final(self).finished() == old(self).finished().push(row),
            final(self).tips() == old(self).tips(),
            final(self).leaderboard() == old(self).leaderboard(),
    {
        self.finished.push(row);
    }

    /// Adds a leaderboard line for `list_leaderboard_join`.
    pub fn seed_leaderboard(&mut self, row: FakeLeaderboardRow)
        ensures
            final(self).leaderboard() == old(self).leaderboard().push(row),
            final(self).tips() == old(self).tips(),
            final(self).finished() == old(self).finished(),
    {
        self.leaderboard.push(row);
    }

    /// Stores the player's tip on the match, replacing an earlier one.
    pub fn upsert(&mut self, user_id: u128, match_id: i32, predicted_home: i32, predicted_away: i32)
        requires
            tips_distinct(old(self).tips()),
        ensures
            final(self).tips() == upserted(old(self).tips(), user_id, match_id, predicted_home, predicted_away),
            tips_distinct(final(self).tips()),
            final(self).finished() == old(self).finished(),
            final(self).leaderboard() == old(self).leaderboard(),
    {
        let ghost rows = self.rows@;
        let mut i: usize = 0;
        while i < self.rows.len()
            invariant
                i <= self.rows@.len(),
                rows == self.rows@,
                rows == old(self).rows@,
                tips_distinct(rows),
                self.finished@ == old(self).finished@,
                self.leaderboard@ == old(self).leaderboard@,
                find_tip(rows.take(i as int), user_id, match_id) is None,
            decreases self.rows@.len() - i,
        {
            assert(rows.take(i as int + 1).drop_last() =~= rows.take(i as int));
            if self.rows[i].0 == user_id && self.rows[i].1 == match_id {
                proof { lemma_find_tip_prefix(rows, user_id, match_id, i as int + 1); }
                self.rows.set(i, (user_id, match_id, predicted_home, predicted_away));
                assert(tips_distinct(self.rows@)) by {
                    assert forall|a: int, b: int| 0 <= a < b < self.rows@.len()
                        implies !((#[trigger] self.rows@[a]).0 == (#[trigger] self.rows@[b]).0 && self.rows@[a].1 == self.rows@[b].1) by {
                        assert(rows[a].0 == self.rows@[a].0 && rows[a].1 == self.rows@[a].1);
                        assert(rows[b].0 == self.rows@[b].0 && rows[b].1 == self.rows@[b].1);
                        assert(!((rows[a]).0 == (rows[b]).0 && rows[a].1 == rows[b].1));
                    }
                }
                return;
            }
            i = i + 1;
        }
        assert(rows.take(i as int) =~= rows);
        proof { lemma_no_tip(rows, user_id, match_id); }
        self.rows.push((user_id, match_id, predicted_home, predicted_away));
    }

    /// Tips of other players on locked matches: the matches are not kept
    /// here, so there are none.
    pub fn list_other_users_locked(&self, viewer_user_id: u128, league_id: u128, now: i64) -> (out: Vec<crate::dashboard::OtherUserPrediction>)
        ensures
            out@.len() == 0,
    {
        Vec::new()
    }

    /// Number of tips of the player (the matches are not kept here, so every
    /// tip counts as started).
    pub fn count_user_started(&self, user_id: u128, now: i64) -> (n: i64)
        requires
            self.tips().len() <= i64::MAX,
        ensures
            n == tips_by(self.tips(), user_id),
    {
        let ghost rows = self.rows@;
        let mut n: i64 = 0;
        let mut i: usize = 0;
        while i < self.rows.len()
            invariant
                i <= self.rows@.len(),
                rows == self.rows@,
                rows.len() <= i64::MAX,
                n == tips_by(rows.take(i as int), user_id),
                n <= i,
            decreases self.rows@.len() - i,
        {
            assert(rows.take(i as int + 1).drop_last() =~= rows.take(i as int));
            if self.rows[i].0 == user_id {
                n = n + 1;
            }
            i = i + 1;
        }
        assert(rows.take(i as int) =~= rows);
        n
    }

    /// The league's finished tips, in seeding order.
    pub fn list_finished_join(&self, league_id: u128) -> (out: Vec<FinishedPredictionJoin>)
        ensures
            out@ == finished_of(self.finished(), league_id),
    {
        let mut out: Vec<FinishedPredictionJoin> = Vec::new();
        let mut i: usize = 0;
        while i < self.finished.len()
            invariant
                i <= self.finished@.len(),
                out@ == finished_of(self.finished@.take(i as int), league_id),
            decreases self.finished@.len() - i,
        {
            assert(self.finished@.take(i as int + 1).drop_last() =~= self.finished@.take(i as int));
            let f = &self.finished[i];
            if f.league_id == league_id {
                out.push(FinishedPredictionJoin {
                    user_id: f.user_id,
                    match_id: f.match_id,
                    stage: f.stage,
                    kickoff: f.kickoff,
                    score_home: f.score_home,
                    score_away: f.score_away,
                    predicted_home: f.predicted_home,
                    predicted_away: f.predicted_away,
                });
            }
            i = i + 1;
        }
        assert(self.finished@.take(i as int) =~= self.finished@);
        out
    }

    /// The league's leaderboard lines, in seeding order.
    pub fn list_leaderboard_join(&self, league_id: u128) -> (out: Vec<LeaderboardPredictionRow>)
        ensures
            out@ == leaderboard_of(self.leaderboard(), league_id),
    {
        let mut out: Vec<LeaderboardPredictionRow> = Vec::new();
        let mut i: usize = 0;
        while i < self.leaderboard.len()
            invariant
                i <= self.leaderboard@.len(),
                out@ == leaderboard_of(self.leaderboard@.take(i as int), league_id),
            decreases self.leaderboard@.len() - i,
        {
            assert(self.leaderboard@.take(i as int + 1).drop_last() =~= self.leaderboard@.take(i as int));
            let f = &self.leaderboard[i];
            if f.league_id == league_id {
                out.push(LeaderboardPredictionRow {
                    user_name: f.user_name.clone(),
                    stage: f.stage,
                    kickoff_time: f.kickoff_time,
                    status: f.status.clone(),
                    score_home: f.score_home,
                    score_away: f.score_away,
                    predicted_home: f.predicted_home,
                    predicted_away: f.predicted_away,
                });
            }
            i = i + 1;
        }
        assert(self.leaderboard@.take(i as int) =~= self.leaderboard@);
        out
    }
}

proof fn lemma_find_tip_prefix(rows: Seq<TipRow>, user_id: u128, match_id: i32, n: int)
    requires
        0 <= n <= rows.len(),
        find_tip(rows.take(n), user_id, match_id) is Some,
    ensures
        find_tip(rows, user_id, match_id) == find_tip(rows.take(n), user_id, match_id),
    decreases rows.len() - n,
{
    if n < rows.len() {
        assert(rows.take(n + 1).drop_last() =~= rows.take(n));
        lemma_find_tip_prefix(rows, user_id, match_id, n + 1);
    } else {
        assert(rows.take(n) =~= rows);
    }
}

/// Without a tip of the player on the match, no row has that pair.
proof fn lemma_no_tip(rows: Seq<TipRow>, user_id: u128, match_id: i32)
    requires
        find_tip(rows, user_id, match_id) is None,
    ensures
        forall|j: int| 0 <= j < rows.len() ==> !((#[trigger] rows[j]).0 == user_id && rows[j].1 == match_id),
    decreases rows.len(),
{
    if rows.len() > 0 {
        lemma_no_tip(rows.drop_last(), user_id, match_id);
        assert forall|j: int| 0 <= j < rows.len() - 1 implies rows.drop_last()[j] == rows[j] by {}
    }
}

/// The first tip with the pair is at `k` when no earlier row has it.
proof fn lemma_find_tip_facts(rows: Seq<TipRow>, user_id: u128, match_id: i32)
    ensures
        find_tip(rows, user_id, match_id) matches Some(k) ==> 0 <= k < rows.len() && rows[k].0 == user_id && rows[k].1 == match_id,
    decreases rows.len(),
{
    if rows.len() > 0 {
        lemma_find_tip_facts(rows.drop_last(), user_id, match_id);
    }
}

/// A tip reads back what was last stored for the player and match; every
/// other player's or match's tip is as before.
pub proof fn lemma_upsert_read_back(rows: Seq<TipRow>, user_id: u128, match_id: i32, home: i32, away: i32, other_user: u128, other_match: i32)
    requires
        tips_distinct(rows),
    ensures
        tip_of(upserted(rows, user_id, match_id, home, away), user_id, match_id) == Some((home, away)),
        (other_user != user_id || other_match != match_id)
            ==> tip_of(upserted(rows, user_id, match_id, home, away), other_user, other_match) == tip_of(rows, other_user, other_match),
{
    let r = upserted(rows, user_id, match_id, home, away);
    lemma_find_tip_facts(rows, user_id, match_id);
    lemma_tip_unique(rows, user_id, match_id);
    lemma_find_tip_facts(rows, other_user, other_match);
    lemma_tip_unique(rows, other_user, other_match);
    lemma_find_tip_facts(r, user_id, match_id);
    lemma_find_tip_facts(r, other_user, other_match);
    match find_tip(rows, user_id, match_id) {
        Some(k) => {
            lemma_find_tip_at(r, user_id, match_id, k);
            if other_user != user_id || other_match != match_id {
                match find_tip(rows, other_user, other_match) {
                    Some(q) => {
                        lemma_find_tip_at(r, other_user, other_match, q);
                    },
                    None => {
                        lemma_no_tip(rows, other_user, other_match);
                        lemma_tip_unique(r, other_user, other_match);
                        if find_tip(r, other_user, other_match) is Some {
                            let q = find_tip(r, other_user, other_match).unwrap();
                            assert(r[q] == rows[q]);
                        }
                    },
                }
            }
        },
        None => {
            lemma_no_tip(rows, user_id, match_id);
            lemma_find_tip_at(r, user_id, match_id, rows.len() as int);
            if other_user != user_id || other_match != match_id {
                assert(r.drop_last() =~= rows);
            }
        },
    }
}

/// Rows with distinct pairs: a row with the pair is the one found.
proof fn lemma_tip_unique(rows: Seq<TipRow>, user_id: u128, match_id: i32)
    ensures
        find_tip(rows, user_id, match_id) is None ==> forall|j: int| 0 <= j < rows.len() ==> !((#[trigger] rows[j]).0 == user_id && rows[j].1 == match_id),
{
    if find_tip(rows, user_id, match_id) is None {
        lemma_no_tip(rows, user_id, match_id);
    }
}

/// In rows with distinct pairs, the row holding the pair is the one found.
proof fn lemma_find_tip_at(rows: Seq<TipRow>, user_id: u128, match_id: i32, k: int)
    requires
        0 <= k < rows.len(),
        rows[k].0 == user_id && rows[k].1 == match_id,
        forall|j: int| 0 <= j < k ==> !((#[trigger] rows[j]).0 == user_id && rows[j].1 == match_id),
    ensures
        find_tip(rows, user_id, match_id) == Some(k),
    decreases rows.len(),
{
    if k < rows.len() - 1 {
        lemma_find_tip_at(rows.drop_last(), user_id, match_id, k);
    } else {
        assert forall|j: int| 0 <= j < rows.len() - 1 implies !((#[trigger] rows.drop_last()[j]).0 == user_id && rows.drop_last()[j].1 == match_id) by {
            assert(rows.drop_last()[j] == rows[j]);
        }
        lemma_find_tip_none(rows.drop_last(), user_id, match_id);
    }
}

proof fn lemma_find_tip_none(rows: Seq<TipRow>, user_id: u128, match_id: i32)
    requires
        forall|j: int| 0 <= j < rows.len() ==> !((#[trigger] rows[j]).0 == user_id && rows[j].1 == match_id),
    ensures
        find_tip(rows, user_id, match_id) is None,
    decreases rows.len(),
{
    if rows.len() > 0 {
        assert forall|j: int| 0 <= j < rows.len() - 1 implies !((#[trigger] rows.drop_last()[j]).0 == user_id && rows.drop_last()[j].1 == match_id) by {
            assert(rows.drop_last()[j] == rows[j]);
        }
        lemma_find_tip_none(rows.drop_last(), user_id, match_id);
        assert(!(rows[rows.len() - 1].0 == user_id && rows[rows.len() - 1].1 == match_id));
    }
}

} // verus!
