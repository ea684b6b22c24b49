//! The dashboard: which fixtures are open for tips, running or finished, the
//! points of the player and of the others on each, and the player's place in
//! the league.
//!
//! A fixture is locked once it has kicked off; in knockout-only leagues group
//! matches are always locked. Fixtures whose teams are not yet known are not
//! shown. Other players' tips are only shown on locked fixtures, best score
//! first once the fixture is finished.

use vstd::prelude::*;

use crate::clock::{berlin_display_of, format_kickoff, valid_instant};
use crate::leaderboard::{ChampionPickRow, LeaderboardEntry};
use crate::order::{count_by, lemma_sort_by, sort_by, sorted_by, total_preorder};
use crate::scoring::{calculate_match_points_for_system, match_points, max_points, max_points_for_phase_with_system, MatchScoringSystem};
use crate::stage::{phase_of, Stage};
use crate::text::{str_eq, trim, trim_of, string_of, chars_of};
use crate::util::{flag_url, flag_url_of, format_prediction_label, prediction_label_of};

verus! {

broadcast use vstd::seq_lib::group_seq_properties;

/// A fixture with the viewing player's own tip.
#[derive(Debug, Clone)]
pub struct IndexMatchRow {
    pub id: i32,
    pub stage: Stage,
    pub group_letter: Option<String>,
    pub kickoff_time: Option<i64>,
    pub status: String,
    pub score_home: Option<i32>,
    pub score_away: Option<i32>,
    pub team_home_id: Option<i32>,
    pub team_away_id: Option<i32>,
    pub home_name: String,
    pub away_name: String,
    pub home_flag: Option<String>,
    pub away_flag: Option<String>,
    pub predicted_home: Option<i32>,
    pub predicted_away: Option<i32>,
}

/// Another player's tip on a fixture.
#[derive(Debug, Clone)]
pub struct OtherUserPrediction {
    pub match_id: i32,
    pub user_name: String,
    pub predicted_home: i32,
    pub predicted_away: i32,
}

/// Another player's tip as shown on a fixture card.
#[derive(Debug, Clone)]
pub struct UserPrediction {
    pub name: String,
    pub label: String,
    pub points: Option<i32>,
}

/// A fixture card.
#[derive(Debug, Clone)]
pub struct MatchView {
    pub id: i32,
    pub stage: Stage,
    pub group_letter: Option<String>,
    pub home_name: String,
    pub away_name: String,
    pub home_flag: String,
    pub away_flag: String,
    pub score_home: Option<i32>,
    pub score_away: Option<i32>,
    pub predicted_home: Option<i32>,
    pub predicted_away: Option<i32>,
    pub prediction_display: Option<String>,
    pub kickoff_display: String,
    pub locked: bool,
    pub is_live: bool,
    pub is_finished: bool,
    pub own_points: Option<i32>,
    pub max_phase_points: i32,
    pub winner_only_mode: bool,
    pub allow_draw_prediction: bool,
    pub other_preds: Vec<UserPrediction>,
}

/// The fixture cards of the dashboard, by section, and the next deadline.
#[derive(Debug, Clone)]
pub struct DashboardMatches {
    pub started_in_progress: Vec<MatchView>,
    pub started_finished: Vec<MatchView>,
    pub open_matches: Vec<MatchView>,
    pub next_deadline: Option<i64>,
}

/// What the dashboard is computed for.
pub struct DashboardInput {
    pub rows: Vec<IndexMatchRow>,
    pub others: Vec<OtherUserPrediction>,
    pub now: i64,
    pub system: MatchScoringSystem,
    pub knockout_only: bool,
}

// ─── Model ────────────────────────────────────────────────────────────────────

/// Value of a shown tip.
pub struct PredView {
    pub name: Seq<char>,
    pub label: Seq<char>,
    pub points: Option<i32>,
}

impl View for UserPrediction {
    type V = PredView;

    open spec fn view(&self) -> PredView {
        PredView { name: self.name@, label: self.label@, points: self.points }
    }
}

/// Value of an optional text.
pub open spec fn text_opt(s: Option<String>) -> Option<Seq<char>> {
    match s {
        Some(x) => Some(x@),
        None => None,
    }
}

/// Value of a fixture card.
pub struct CardView {
    pub id: i32,
    pub stage: Stage,
    pub group_letter: Option<Seq<char>>,
    pub home_name: Seq<char>,
    pub away_name: Seq<char>,
    pub home_flag: Seq<char>,
    pub away_flag: Seq<char>,
    pub score_home: Option<i32>,
    pub score_away: Option<i32>,
    pub predicted_home: Option<i32>,
    pub predicted_away: Option<i32>,
    pub prediction_display: Option<Seq<char>>,
    pub kickoff_display: Seq<char>,
    pub locked: bool,
    pub is_live: bool,
    pub is_finished: bool,
    pub own_points: Option<i32>,
    pub max_phase_points: int,
    pub winner_only_mode: bool,
    pub allow_draw_prediction: bool,
    pub other_preds: Seq<PredView>,
}

impl View for MatchView {
    type V = CardView;

    open spec fn view(&self) -> CardView {
        CardView {
            id: self.id,
            stage: self.stage,
            group_letter: text_opt(self.group_letter),
            home_name: self.home_name@,
            away_name: self.away_name@,
            home_flag: self.home_flag@,
            away_flag: self.away_flag@,
            score_home: self.score_home,
            score_away: self.score_away,
            predicted_home: self.predicted_home,
            predicted_away: self.predicted_away,
            prediction_display: text_opt(self.prediction_display),
            kickoff_display: self.kickoff_display@,
            locked: self.locked,
            is_live: self.is_live,
            is_finished: self.is_finished,
            own_points: self.own_points,
            max_phase_points: self.max_phase_points as int,
            winner_only_mode: self.winner_only_mode,
            allow_draw_prediction: self.allow_draw_prediction,
            other_preds: self.other_preds@.map_values(|p: UserPrediction| p@),
        }
    }
}

/// Both teams of the fixture are known.
pub open spec fn shown(r: IndexMatchRow) -> bool {
    r.team_home_id is Some && r.team_away_id is Some
}

/// The fixture can no longer be tipped.
pub open spec fn locked_at(r: IndexMatchRow, now: i64, knockout_only: bool) -> bool {
    (r.kickoff_time matches Some(k) && k < now) || (knockout_only && r.stage == Stage::Group)
}

/// The fixture is finished.
pub open spec fn is_done(r: IndexMatchRow) -> bool {
    r.status@ == "finished"@
}

/// Points of a tip on a finished fixture with a result.
pub open spec fn tip_points(r: IndexMatchRow, system: MatchScoringSystem, ph: i32, pa: i32) -> Option<i32> {
    if is_done(r) {
        match (r.score_home, r.score_away) {
            (Some(sh), Some(sa)) => Some(match_points(system, r.stage, sh as int, sa as int, ph as int, pa as int) as i32),
            _ => None,
        }
    } else {
        None
    }
}

/// The other players' tips on fixture `id`, in their order.
pub open spec fn others_of(os: Seq<OtherUserPrediction>, id: i32) -> Seq<OtherUserPrediction>
    decreases os.len(),
{
    if os.len() == 0 {
        Seq::empty()
    } else {
        let t = others_of(os.drop_last(), id);
        if os.last().match_id == id {
            t.push(os.last())
        } else {
            t
        }
    }
}

/// How another player's tip is shown.
pub open spec fn pred_view_of(o: OtherUserPrediction, r: IndexMatchRow, system: MatchScoringSystem) -> PredView {
    PredView {
        name: o.user_name@,
        label: prediction_label_of(system, r.stage, r.home_name@, r.away_name@, o.predicted_home, o.predicted_away),
        points: tip_points(r, system, o.predicted_home, o.predicted_away),
    }
}

/// Option order with a missing value lowest: `a` is at least `b`.
pub open spec fn points_ge(a: Option<i32>, b: Option<i32>) -> bool {
    match (a, b) {
        (_, None) => true,
        (None, Some(_)) => false,
        (Some(x), Some(y)) => x >= y,
    }
}

/// Best score first.
pub open spec fn pred_le() -> spec_fn(PredView, PredView) -> bool {
    |a: PredView, b: PredView| points_ge(a.points, b.points)
}

impl DashboardInput {
    /// The shown tips of the others on a fixture: none while it is open,
    /// best score first once it is finished.
    pub open spec fn other_preds_of(&self, r: IndexMatchRow) -> Seq<PredView> {
        if locked_at(r, self.now, self.knockout_only) {
            let v = others_of(self.others@, r.id).map_values(|o: OtherUserPrediction| pred_view_of(o, r, self.system));
            if is_done(r) {
                sort_by(v, pred_le())
            } else {
                v
            }
        } else {
            Seq::empty()
        }
    }

    /// The card of a fixture.
    pub open spec fn card_of(&self, r: IndexMatchRow) -> CardView {
        CardView {
            id: r.id,
            stage: r.stage,
            group_letter: match r.group_letter {
                Some(g) => Some(trim_of(g@)),
                None => None,
            },
            home_name: r.home_name@,
            away_name: r.away_name@,
            home_flag: flag_url_of(text_opt(r.home_flag)),
            away_flag: flag_url_of(text_opt(r.away_flag)),
            score_home: r.score_home,
            score_away: r.score_away,
            predicted_home: r.predicted_home,
            predicted_away: r.predicted_away,
            prediction_display: match (r.predicted_home, r.predicted_away) {
                (Some(ph), Some(pa)) => Some(prediction_label_of(self.system, r.stage, r.home_name@, r.away_name@, ph, pa)),
                _ => None,
            },
            kickoff_display: match r.kickoff_time {
                Some(t) => berlin_display_of(t),
                None => "TBD"@,
            },
            locked: locked_at(r, self.now, self.knockout_only),
            is_live: r.status@ == "in_progress"@,
            is_finished: is_done(r),
            own_points: match (r.predicted_home, r.predicted_away) {
                (Some(ph), Some(pa)) => tip_points(r, self.system, ph, pa),
                _ => None,
            },
            max_phase_points: max_points(self.system, phase_of(r.stage)),
            winner_only_mode: self.system == MatchScoringSystem::WinnerOnly,
            allow_draw_prediction: r.stage == Stage::Group,
            other_preds: self.other_preds_of(r),
        }
    }

    /// Cards of the shown fixtures among `rows` in a section, in row order:
    /// section `0` open, `1` running, `2` finished.
    pub open spec fn section(&self, rows: Seq<IndexMatchRow>, sec: int) -> Seq<CardView>
        decreases rows.len(),
    {
        if rows.len() == 0 {
            Seq::empty()
        } else {
            let t = self.section(rows.drop_last(), sec);
            let r = rows.last();
            if shown(r) && section_of(locked_at(r, self.now, self.knockout_only), is_done(r)) == sec {
                t.push(self.card_of(r))
            } else {
                t
            }
        }
    }

    /// Earliest kickoff among the shown fixtures that can still be tipped.
    pub open spec fn deadline(&self, rows: Seq<IndexMatchRow>) -> Option<i64>
        decreases rows.len(),
    {
        if rows.len() == 0 {
            None
        } else {
            let d = self.deadline(rows.drop_last());
            let r = rows.last();
            if shown(r) && !locked_at(r, self.now, self.knockout_only) && r.kickoff_time is Some {
                let k = r.kickoff_time->0;
                match d {
                    Some(e) => Some(if k < e { k } else { e }),
                    None => Some(k),
                }
            } else {
                d
            }
        }
    }

    /// Every kickoff is in the handled range of instants.
    pub open spec fn wf(&self) -> bool {
        forall|i: int| 0 <= i < self.rows@.len() ==> ((#[trigger] self.rows@[i]).kickoff_time matches Some(k) ==> valid_instant(k))
    }
}

/// Section of a fixture: open, running or finished.
pub open spec fn section_of(locked: bool, finished: bool) -> int {
    if !locked {
        0
    } else if finished {
        2
    } else {
        1
    }
}

/// Values of cards.
pub open spec fn cards(v: Seq<MatchView>) -> Seq<CardView> {
    v.map_values(|m: MatchView| m@)
}

// ─── Computation ─────────────────────────────────────────────────────────────

/// Option order with a missing value lowest.
fn points_at_least(a: Option<i32>, b: Option<i32>) -> (r: bool)
    ensures
        r == points_ge(a, b),
{
    match (a, b) {
        (_, None) => true,
        (None, Some(_)) => false,
        (Some(x), Some(y)) => x >= y,
    }
}

/// Points of a tip on a finished fixture with a result.
fn points_of_tip(r: &IndexMatchRow, system: MatchScoringSystem, ph: i32, pa: i32) -> (p: Option<i32>)
    ensures
        p == tip_points(*r, system, ph, pa),
{
    if str_eq(r.status.as_str(), "finished") {
        match (r.score_home, r.score_away) {
            (Some(sh), Some(sa)) => {
                proof {
                    crate::scoring::lemma_match_points_within_max(system, r.stage, sh as int, sa as int, ph as int, pa as int);
                }
                Some(calculate_match_points_for_system(system, r.stage, sh, sa, ph, pa))
            },
            _ => None,
        }
    } else {
        None
    }
}

/// The shown tips of the others on a fixture.
fn other_preds(input: &DashboardInput, r: &IndexMatchRow, locked: bool) -> (v: Vec<UserPrediction>)
    requires
        locked == locked_at(*r, input.now, input.knockout_only),
    ensures
        v@.map_values(|p: UserPrediction| p@) == input.other_preds_of(*r),
{
    let mut v: Vec<UserPrediction> = Vec::new();
    if !locked {
        assert(v@.map_values(|p: UserPrediction| p@) =~= Seq::<PredView>::empty());
        return v;
    }
    let finished = str_eq(r.status.as_str(), "finished");
    let os = &input.others;
    let ghost mine = |j: int| others_of(os@.take(j), r.id).map_values(|o: OtherUserPrediction| pred_view_of(o, *r, input.system));
    let mut i: usize = 0;
    while i < os.len()
        invariant
            i <= os@.len(),
            os@ == input.others@,
            finished == is_done(*r),
            mine == (|j: int| others_of(os@.take(j), r.id).map_values(|o: OtherUserPrediction| pred_view_of(o, *r, input.system))),
            v@.map_values(|p: UserPrediction| p@) == if finished { sort_by(mine(i as int), pred_le()) } else { mine(i as int) },
        decreases os@.len() - i,
    {
        assert(os@.take(i as int + 1).drop_last() =~= os@.take(i as int));
        let o = &os[i];
        if o.match_id == r.id {
            let ghost before = others_of(os@.take(i as int), r.id);
            assert(others_of(os@.take(i as int + 1), r.id) == before.push(*o));
            assert(before.push(*o).map_values(|o: OtherUserPrediction| pred_view_of(o, *r, input.system))
                =~= before.map_values(|o: OtherUserPrediction| pred_view_of(o, *r, input.system)).push(pred_view_of(*o, *r, input.system)));
            let p = UserPrediction {
                name: o.user_name.clone(),
                label: format_prediction_label(input.system, r.stage, r.home_name.as_str(), r.away_name.as_str(), o.predicted_home, o.predicted_away),
                points: points_of_tip(r, input.system, o.predicted_home, o.predicted_away),
            };
            assert(p@ == pred_view_of(*o, *r, input.system));
            let ghost lines = v@.map_values(|p: UserPrediction| p@);
            if finished {
                let ghost m = mine(i as int);
                assert(mine(i as int + 1).drop_last() =~= m);
                let mut cnt: usize = 0;
                let mut k: usize = 0;
                while k < v.len()
                    invariant
                        k <= v@.len(),
                        lines == v@.map_values(|p: UserPrediction| p@),
                        cnt <= k,
                        cnt == count_by(lines.take(k as int), p@, pred_le()),
                    decreases v@.len() - k,
                {
                    assert(lines.take(k as int + 1).drop_last() =~= lines.take(k as int));
                    if points_at_least(v[k].points, p.points) {
                        cnt = cnt + 1;
                    }
                    k = k + 1;
                }
                assert(lines.take(k as int) =~= lines);
                let ghost pv = p@;
                v.insert(cnt, p);
                assert(v@.map_values(|p: UserPrediction| p@) =~= lines.insert(cnt as int, pv));
            } else {
                let ghost pv = p@;
                v.push(p);
                assert(v@.map_values(|p: UserPrediction| p@) =~= lines.push(pv));
            }
        }
        i = i + 1;
    }
    assert(os@.take(i as int) =~= os@);
    v
}

fn trimmed_opt(s: &Option<String>) -> (r: Option<String>)
    ensures
        text_opt(r) == match *s {
            Some(g) => Some(trim_of(g@)),
            None => None,
        },
{
    match s {
        Some(g) => {
            let c = chars_of(g.as_str());
            let t = trim(&c);
            Some(string_of(&t))
        },
        None => None,
    }
}

/// The card of a fixture.
fn card(input: &DashboardInput, r: &IndexMatchRow, locked: bool) -> (m: MatchView)
    requires
        locked == locked_at(*r, input.now, input.knockout_only),
        r.kickoff_time matches Some(k) ==> valid_instant(k),
    ensures
        m@ == input.card_of(*r),
{
    let finished = str_eq(r.status.as_str(), "finished");
    let own_points = match (r.predicted_home, r.predicted_away) {
        (Some(ph), Some(pa)) => points_of_tip(r, input.system, ph, pa),
        _ => None,
    };
    let prediction_display = match (r.predicted_home, r.predicted_away) {
        (Some(ph), Some(pa)) => Some(format_prediction_label(input.system, r.stage, r.home_name.as_str(), r.away_name.as_str(), ph, pa)),
        _ => None,
    };
    MatchView {
        id: r.id,
        stage: r.stage,
        group_letter: trimmed_opt(&r.group_letter),
        home_name: r.home_name.clone(),
        away_name: r.away_name.clone(),
        home_flag: flag_url(&r.home_flag),
        away_flag: flag_url(&r.away_flag),
        score_home: r.score_home,
        score_away: r.score_away,
        predicted_home: r.predicted_home,
        predicted_away: r.predicted_away,
        prediction_display,
        kickoff_display: format_kickoff(r.kickoff_time),
        locked,
        is_live: str_eq(r.status.as_str(), "in_progress"),
        is_finished: finished,
        own_points,
        max_phase_points: max_points_for_phase_with_system(input.system, r.stage.to_tournament_phase()),
        winner_only_mode: input.system.is_winner_only(),
        allow_draw_prediction: r.stage == Stage::Group,
        other_preds: other_preds(input, r, locked),
    }
}

/// The fixture cards of the dashboard: fixtures whose teams are known, split
/// into open, running and finished ones in fixture order, and the earliest
/// kickoff that can still be tipped.
pub fn dashboard_matches(input: &DashboardInput) -> (d: DashboardMatches)
    requires
        input.wf(),
    ensures
        cards(d.open_matches@) == input.section(input.rows@, 0),
        cards(d.started_in_progress@) == input.section(input.rows@, 1),
        cards(d.started_finished@) == input.section(input.rows@, 2),
        d.next_deadline == input.deadline(input.rows@),
{
    let rows = &input.rows;
    let mut open: Vec<MatchView> = Vec::new();
    let mut running: Vec<MatchView> = Vec::new();
    let mut done: Vec<MatchView> = Vec::new();
    let mut next: Option<i64> = None;
    let mut i: usize = 0;
    while i < rows.len()
        invariant
            i <= rows@.len(),
            input.wf(),
            rows@ == input.rows@,
            cards(open@) == input.section(rows@.take(i as int), 0),
            cards(running@) == input.section(rows@.take(i as int), 1),
            cards(done@) == input.section(rows@.take(i as int), 2),
            next == input.deadline(rows@.take(i as int)),
        decreases rows@.len() - i,
    {
        assert(rows@.take(i as int + 1).drop_last() =~= rows@.take(i as int));
        let r = &rows[i];
        assert(rows@.take(i as int + 1).last() == *r);
        if r.team_home_id.is_some() && r.team_away_id.is_some() {
            let started = match r.kickoff_time {
                Some(k) => k < input.now,
                None => false,
            };
            let locked = started || (input.knockout_only && r.stage == Stage::Group);
            let finished = str_eq(r.status.as_str(), "finished");
            if !locked {
                if let Some(k) = r.kickoff_time {
                    next = match next {
                        Some(e) => Some(if k < e { k } else { e }),
                        None => Some(k),
                    };
                }
            }
            let m = card(input, r, locked);
            let ghost mv = m@;
            if !locked {
                let ghost before = cards(open@);
                open.push(m);
                assert(cards(open@) =~= before.push(mv));
            } else if finished {
                let ghost before = cards(done@);
                done.push(m);
                assert(cards(done@) =~= before.push(mv));
            } else {
                let ghost before = cards(running@);
                running.push(m);
                assert(cards(running@) =~= before.push(mv));
            }
        }
        i = i + 1;
    }
    assert(rows@.take(i as int) =~= rows@);
    DashboardMatches { started_in_progress: running, started_finished: done, open_matches: open, next_deadline: next }
}

// ─── The player's place ──────────────────────────────────────────────────────

/// Index of the first leaderboard entry with that name.
pub open spec fn entry_index(lb: Seq<LeaderboardEntry>, name: Seq<char>) -> Option<int>
    decreases lb.len(),
{
    if lb.len() == 0 {
        None
    } else {
        match entry_index(lb.drop_last(), name) {
            Some(i) => Some(i),
            None => if lb.last().name@ == name { Some(lb.len() - 1) } else { None },
        }
    }
}

/// The player's points and place on the leaderboard: those of the first
/// entry with the player's name; without one, no points and the place after
/// the last.
pub fn user_standing(leaderboard: &Vec<LeaderboardEntry>, user_name: &str) -> (r: (i32, usize))
    requires
        leaderboard@.len() < usize::MAX,
    ensures
        match entry_index(leaderboard@, user_name@) {
            Some(i) => r.0 == leaderboard@[i].total_points && r.1 == i + 1,
            None => r.0 == 0 && r.1 == leaderboard@.len() + 1,
        },
{
    let mut i: usize = 0;
    while i < leaderboard.len()
        invariant
            i <= leaderboard@.len(),
            entry_index(leaderboard@.take(i as int), user_name@) is None,
        decreases leaderboard@.len() - i,
    {
        assert(leaderboard@.take(i as int + 1).drop_last() =~= leaderboard@.take(i as int));
        if str_eq(leaderboard[i].name.as_str(), user_name) {
            proof {
                lemma_entry_index_prefix(leaderboard@, i as int + 1, user_name@);
            }
            return (leaderboard[i].total_points, i + 1);
        }
        i = i + 1;
    }
    assert(leaderboard@.take(i as int) =~= leaderboard@);
    (0, leaderboard.len() + 1)
}

proof fn lemma_entry_index_prefix(lb: Seq<LeaderboardEntry>, k: int, name: Seq<char>)
    requires
        0 < k <= lb.len(),
        entry_index(lb.take(k), name) is Some,
    ensures
        entry_index(lb, name) == entry_index(lb.take(k), name),
    decreases lb.len() - k,
{
    if k < lb.len() {
        assert(lb.take(k + 1).drop_last() =~= lb.take(k));
        lemma_entry_index_prefix(lb, k + 1, name);
    } else {
        assert(lb.take(k) =~= lb);
    }
}

/// What the dashboard answers a visitor who is not logged in.
#[derive(Debug, Clone, Copy, PartialEq, Eq, Structural)]
pub enum VisitorAnswer {
    /// Nobody is registered yet: go to the first-run setup.
    GoToSetup,
    /// Players exist: the visitor must log in with their link.
    NotAuthenticated,
    /// The number of players could not be read.
    DatabaseError,
}

/// The answer to a visitor without a login, given the number of registered
/// players (`None` when it could not be read).
pub open spec fn visitor_answer_of(user_count: Option<i64>) -> VisitorAnswer {
    match user_count {
        None => VisitorAnswer::DatabaseError,
        Some(n) => if n == 0 { VisitorAnswer::GoToSetup } else { VisitorAnswer::NotAuthenticated },
    }
}

/// Decides the answer to a visitor who is not logged in.
pub fn visitor_answer(user_count: Option<i64>) -> (a: VisitorAnswer)
    ensures
        a == visitor_answer_of(user_count),
{
    match user_count {
        None => VisitorAnswer::DatabaseError,
        Some(n) => if n == 0 { VisitorAnswer::GoToSetup } else { VisitorAnswer::NotAuthenticated },
    }
}

/// The tournament is locked once its first counting fixture has kicked off.
pub fn tournament_locked(first_kickoff: Option<i64>, now: i64) -> (b: bool)
    ensures
        b == (first_kickoff matches Some(k) && k < now),
{
    match first_kickoff {
        Some(k) => k < now,
        None => false,
    }
}

/// The tab the dashboard opens on: open fixtures first, then the champion
/// pick while it is still open and missing, else the table.
pub fn default_tab(open_count: usize, tournament_locked: bool, champion_id: Option<i32>) -> (tab: &'static str)
    ensures
        tab@ == if open_count > 0 {
            "open"@
        } else if !tournament_locked && champion_id is None {
            "special"@
        } else {
            "table"@
        },
{
    if open_count > 0 {
        "open"
    } else if !tournament_locked && champion_id.is_none() {
        "special"
    } else {
        "table"
    }
}

/// A player's champion pick as the table shows it after the lock.
#[derive(Debug, Clone)]
pub struct ChampPrediction {
    pub name: String,
    pub team_name: String,
    pub team_flag: String,
    pub points: Option<i32>,
}

/// Value of a shown champion pick.
pub struct ChampView {
    pub name: Seq<char>,
    pub team_name: Seq<char>,
    pub team_flag: Seq<char>,
    pub points: Option<i32>,
}

impl View for ChampPrediction {
    type V = ChampView;

    open spec fn view(&self) -> ChampView {
        ChampView { name: self.name@, team_name: self.team_name@, team_flag: self.team_flag@, points: self.points }
    }
}

/// Points of a champion pick: ten for the champion, none for another team,
/// unknown while the cup is open.
pub open spec fn pick_result(pick: Option<i32>, actual: Option<i32>) -> Option<i32> {
    match (pick, actual) {
        (Some(p), Some(a)) => Some(if p == a { 10i32 } else { 0i32 }),
        _ => None,
    }
}

/// The shown champion picks: only once the tournament is locked, only
/// players who picked, in row order.
pub open spec fn champ_views(rows: Seq<ChampionPickRow>, actual: Option<i32>) -> Seq<ChampView>
    decreases rows.len(),
{
    if rows.len() == 0 {
        Seq::empty()
    } else {
        let t = champ_views(rows.drop_last(), actual);
        let r = rows.last();
        if r.champion_id is Some {
            t.push(ChampView {
                name: r.user_name@,
                team_name: match r.team_name {
                    Some(n) => n@,
                    None => Seq::empty(),
                },
                team_flag: flag_url_of(text_opt(r.flag_code)),
                points: pick_result(r.champion_id, actual),
            })
        } else {
            t
        }
    }
}

/// The champion picks of the league as the table shows them.
pub fn champion_predictions(rows: &Vec<ChampionPickRow>, actual: Option<i32>, tournament_locked: bool) -> (v: Vec<ChampPrediction>)
    ensures
        v@.map_values(|c: ChampPrediction| c@) == if tournament_locked { champ_views(rows@, actual) } else { Seq::empty() },
{
    let mut v: Vec<ChampPrediction> = Vec::new();
    if !tournament_locked {
        assert(v@.map_values(|c: ChampPrediction| c@) =~= Seq::<ChampView>::empty());
        return v;
    }
    let mut i: usize = 0;
    while i < rows.len()
        invariant
            i <= rows@.len(),
            v@.map_values(|c: ChampPrediction| c@) == champ_views(rows@.take(i as int), actual),
        decreases rows@.len() - i,
    {
        assert(rows@.take(i as int + 1).drop_last() =~= rows@.take(i as int));
        let r = &rows[i];
        if r.champion_id.is_some() {
            let points = match (r.champion_id, actual) {
                (Some(p), Some(a)) => Some(if p == a { 10i32 } else { 0i32 }),
                _ => None,
            };
            let c = ChampPrediction {
                name: r.user_name.clone(),
                team_name: match &r.team_name {
                    Some(n) => n.clone(),
                    None => String::new(),
                },
                team_flag: flag_url(&r.flag_code),
                points,
            };
            let ghost cv = c@;
            let ghost before = v@.map_values(|c: ChampPrediction| c@);
            v.push(c);
            assert(v@.map_values(|c: ChampPrediction| c@) =~= before.push(cv));
        }
        i = i + 1;
    }
    assert(rows@.take(i as int) =~= rows@);
    v
}

/// Finished fixtures list the others' tips best score first, every tip
/// once; tips of equal score keep their order.
pub proof fn lemma_finished_tips_best_first(v: Seq<PredView>)
    ensures
        total_preorder(pred_le()),
        sorted_by(sort_by(v, pred_le()), pred_le()),
        sort_by(v, pred_le()).to_multiset() == v.to_multiset(),
        forall|i: int, j: int| 0 <= i < j < sort_by(v, pred_le()).len()
            ==> points_ge(#[trigger] sort_by(v, pred_le())[i].points, #[trigger] sort_by(v, pred_le())[j].points),
{
    lemma_sort_by(v, pred_le());
}


/// The dashboard and the tip form agree: a fixture with both teams known is
/// listed as open exactly when a tip on it is accepted.
pub proof fn lemma_open_cards_can_be_tipped(r: IndexMatchRow, m: crate::tipping::MatchLockInfo, now: i64, knockout_only: bool)
    requires
        m.kickoff_time == r.kickoff_time,
        m.team_home_id == r.team_home_id,
        m.team_away_id == r.team_away_id,
        m.stage == r.stage,
        shown(r),
    ensures
        crate::tipping::tip_window(m, knockout_only, now) is Ok <==> !locked_at(r, now, knockout_only),
{
}


/// A fixture that is shown and can still be tipped at `now`.
pub open spec fn open_at(r: IndexMatchRow, now: i64, knockout_only: bool) -> bool {
    shown(r) && !locked_at(r, now, knockout_only)
}

/// The next deadline is the earliest kickoff among the fixtures that can
/// still be tipped: it is the kickoff of one of them and no later than any
/// of theirs; there is none exactly when none of them has a kickoff.
pub proof fn lemma_deadline_is_earliest_open_kickoff(input: DashboardInput, rows: Seq<IndexMatchRow>)
    ensures
        match input.deadline(rows) {
            Some(d) => (exists|i: int| 0 <= i < rows.len() && open_at(#[trigger] rows[i], input.now, input.knockout_only)
                    && rows[i].kickoff_time == Some(d))
                && forall|i: int| 0 <= i < rows.len() && open_at(#[trigger] rows[i], input.now, input.knockout_only)
                    && rows[i].kickoff_time is Some ==> d <= rows[i].kickoff_time->0,
            None => forall|i: int| 0 <= i < rows.len() && open_at(#[trigger] rows[i], input.now, input.knockout_only)
                ==> rows[i].kickoff_time is None,
        },
    decreases rows.len(),
{
    if rows.len() > 0 {
        let init = rows.drop_last();
        lemma_deadline_is_earliest_open_kickoff(input, init);
        let r = rows.last();
        assert(r == rows[rows.len() - 1]);
        assert forall|i: int| 0 <= i < init.len() implies #[trigger] init[i] == rows[i] by {}
        match input.deadline(rows) {
            Some(d) => {
                if open_at(r, input.now, input.knockout_only) && r.kickoff_time is Some && (input.deadline(init) is None
                    || r.kickoff_time->0 < input.deadline(init)->0) {
                    assert(rows[rows.len() - 1].kickoff_time == Some(d));
                } else {
                    let w = choose|i: int| 0 <= i < init.len() && open_at(#[trigger] init[i], input.now, input.knockout_only)
                        && init[i].kickoff_time == Some(input.deadline(init)->0);
                    assert(rows[w] == init[w]);
                }
                assert forall|i: int| 0 <= i < rows.len() && open_at(#[trigger] rows[i], input.now, input.knockout_only)
                    && rows[i].kickoff_time is Some implies d <= rows[i].kickoff_time->0 by {
                    if i < init.len() {
                        assert(init[i] == rows[i]);
                    }
                }
            },
            None => {
                assert forall|i: int| 0 <= i < rows.len() && open_at(#[trigger] rows[i], input.now, input.knockout_only)
                    implies rows[i].kickoff_time is None by {
                    if i < init.len() {
                        assert(init[i] == rows[i]);
                    }
                }
            },
        }
    }
}

/// Number of shown fixtures.
pub open spec fn shown_count(rows: Seq<IndexMatchRow>) -> nat
    decreases rows.len(),
{
    if rows.len() == 0 {
        0
    } else {
        shown_count(rows.drop_last()) + if shown(rows.last()) { 1nat } else { 0nat }
    }
}

/// Every shown fixture lands in exactly one of the three sections (open,
/// running, finished), so together they list each shown fixture once.
pub proof fn lemma_sections_partition(input: DashboardInput, rows: Seq<IndexMatchRow>)
    ensures
        input.section(rows, 0).len() + input.section(rows, 1).len() + input.section(rows, 2).len() == shown_count(rows),
    decreases rows.len(),
{
    if rows.len() > 0 {
        lemma_sections_partition(input, rows.drop_last());
    }
}

/// A finished fixture is never listed as open or as running once it is
/// locked, and an open fixture is always listed as open.
pub proof fn lemma_section_of_fixture(locked: bool, finished: bool)
    ensures
        !locked ==> section_of(locked, finished) == 0,
        locked && finished ==> section_of(locked, finished) == 2,
        locked && !finished ==> section_of(locked, finished) == 1,
{
}

} // verus!
