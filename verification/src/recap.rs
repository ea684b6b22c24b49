//! Structured input of the matchday recap: which matchday is due, and the
//! per-player figures the recap prompt is written from.
//!
//! A matchday is a calendar day in the recap's time zone. It is complete when
//! it has at least one relevant match (kickoff known, both teams known, a
//! knockout match in knockout-only leagues) and every relevant match of that
//! day is finished.

use vstd::prelude::*;

use crate::badges::{
    compute_all, count_where, current_streak_of, discipline_pct_display, display_of, matchday_wins_of, of_user_and,
    points_where, registry_order, rows_wf, solo_hits_of, tendency_pct_display, title_of, underdog_hits_of, Badge,
    BadgeContext, BadgeDisplay, BadgeKind, BadgeValue, ChampionView, CurrentStreakBadge, DisciplinePctBadge,
    PredictionRow, RowFilter, TendencyPctBadge, MAX_ROWS,
};
use crate::order::{count_by, lemma_sort_by, sort_by, sorted_by, total_preorder};
use crate::clock::{iso_date, iso_date_of, utc_day, valid_day, valid_instant, zone_day_of, Zone};
use crate::ranking::{competition_rank, count_above};
use crate::scoring::{champion_bonus_points, MatchScoringSystem};
use crate::stage::Stage;
use crate::text::{
    append_str, lemma_lex_le_total_preorder, lemma_lex_lt_total, lemma_lex_lt_transitive, lex_le, lex_lt, signed_decimal_of,
    str_eq, str_less, string_of,
};
use crate::util::score_line;

verus! {

broadcast use vstd::seq_lib::group_seq_properties;

/// A fixture as the recap sees it.
#[derive(Debug, Clone)]
pub struct MatchSummary {
    pub id: i32,
    pub stage: Stage,
    pub kickoff_time: Option<i64>,
    pub status: String,
    pub score_home: Option<i32>,
    pub score_away: Option<i32>,
    pub home_name: Option<String>,
    pub away_name: Option<String>,
}

/// A match counts for the matchday detection: kickoff and both teams known,
/// and a knockout match where only knockout matches are tipped.
pub open spec fn counts_for_matchday(m: MatchSummary, knockout_only: bool) -> bool {
    &&& m.kickoff_time is Some
    &&& m.home_name is Some
    &&& m.away_name is Some
    &&& (knockout_only ==> m.stage != Stage::Group)
}

/// Calendar day of a match with a kickoff, in the named zone.
pub open spec fn kickoff_day(m: MatchSummary, zone: Seq<char>) -> i32 {
    zone_day_of(m.kickoff_time->0, zone)
}

/// Day `d` has a counting match and every counting match of `d` is finished.
pub open spec fn day_complete(s: Seq<MatchSummary>, zone: Seq<char>, knockout_only: bool, d: i32) -> bool {
    &&& exists|i: int| 0 <= i < s.len() && counts_for_matchday(#[trigger] s[i], knockout_only) && kickoff_day(s[i], zone) == d
    &&& forall|i: int| 0 <= i < s.len() && counts_for_matchday(#[trigger] s[i], knockout_only) && kickoff_day(s[i], zone) == d
        ==> s[i].status@ == "finished"@
}

/// Every known kickoff is in the handled range of instants.
pub open spec fn kickoffs_wf(s: Seq<MatchSummary>) -> bool {
    forall|i: int| 0 <= i < s.len() ==> ((#[trigger] s[i]).kickoff_time matches Some(k) ==> valid_instant(k))
}

/// Whether every counting match of day `d` is finished.
fn all_finished_on(s: &Vec<MatchSummary>, zone: &Zone, knockout_only: bool, d: i32) -> (b: bool)
    requires
        zone.wf(),
        kickoffs_wf(s@),
    ensures
        b == forall|i: int| 0 <= i < s@.len() && counts_for_matchday(#[trigger] s@[i], knockout_only) && kickoff_day(s@[i], zone.name()) == d
            ==> s@[i].status@ == "finished"@,
{
    let mut j: usize = 0;
    while j < s.len()
        invariant
            j <= s@.len(),
            zone.wf(),
            kickoffs_wf(s@),
            forall|i: int| 0 <= i < j && counts_for_matchday(#[trigger] s@[i], knockout_only) && kickoff_day(s@[i], zone.name()) == d
                ==> s@[i].status@ == "finished"@,
        decreases s@.len() - j,
    {
        let m = &s[j];
        if let Some(k) = m.kickoff_time {
            if m.home_name.is_some() && m.away_name.is_some() && (!knockout_only || m.stage.is_knockout()) {
                if zone.day_of(k) == d && !str_eq(m.status.as_str(), "finished") {
                    return false;
                }
            }
        }
        j = j + 1;
    }
    true
}

/// The most recent complete matchday, or `None` if no day is complete. Only
/// the latest such day is returned, never the whole history.
pub fn latest_finished_matchday(summaries: &Vec<MatchSummary>, zone: &Zone, knockout_only: bool) -> (day: Option<i32>)
    requires
        zone.wf(),
        kickoffs_wf(summaries@),
    ensures
        match day {
            Some(d) => day_complete(summaries@, zone.name(), knockout_only, d)
                && forall|e: i32| #[trigger] day_complete(summaries@, zone.name(), knockout_only, e) ==> e <= d,
            None => forall|e: i32| !#[trigger] day_complete(summaries@, zone.name(), knockout_only, e),
        },
{
    let s = summaries;
    let ghost z = zone.name();
    let mut best: Option<i32> = None;
    let mut i: usize = 0;
    while i < s.len()
        invariant
            i <= s@.len(),
            zone.wf(),
            z == zone.name(),
            kickoffs_wf(s@),
            best matches Some(b) ==> day_complete(s@, z, knockout_only, b),
            forall|k: int| 0 <= k < i && counts_for_matchday(#[trigger] s@[k], knockout_only)
                && day_complete(s@, z, knockout_only, kickoff_day(s@[k], z))
                ==> (best matches Some(b) && kickoff_day(s@[k], z) <= b),
        decreases s@.len() - i,
    {
        let m = &s[i];
        if let Some(k) = m.kickoff_time {
            if m.home_name.is_some() && m.away_name.is_some() && (!knockout_only || m.stage.is_knockout()) {
                let d = zone.day_of(k);
                let better = match best {
                    Some(b) => d > b,
                    None => true,
                };
                if better && all_finished_on(s, zone, knockout_only, d) {
                    assert(counts_for_matchday(s@[i as int], knockout_only) && kickoff_day(s@[i as int], z) == d);
                    best = Some(d);
                }
            }
        }
        i = i + 1;
    }
    proof {
        assert forall|e: i32| #[trigger] day_complete(s@, z, knockout_only, e) implies (best matches Some(b) && e <= b) by {
            let k = choose|k: int| 0 <= k < s@.len() && counts_for_matchday(#[trigger] s@[k], knockout_only) && kickoff_day(s@[k], z) == e;
            assert(counts_for_matchday(s@[k], knockout_only));
        }
    }
    best
}

// ─── Small helpers ───────────────────────────────────────────────────────────

/// English name of a stage, as the recap prompt shows it.
pub open spec fn stage_label_of(stage: Stage) -> Seq<char> {
    match stage {
        Stage::Group => "Group stage"@,
        Stage::RoundOf32 => "Round of 32"@,
        Stage::RoundOf16 => "Round of 16"@,
        Stage::QuarterFinal => "Quarter-final"@,
        Stage::SemiFinal => "Semi-final"@,
        Stage::ThirdPlace => "Third-place play-off"@,
        Stage::Final => "Final"@,
    }
}

pub fn stage_label(stage: Stage) -> (label: &'static str)
    ensures
        label@ == stage_label_of(stage),
{
    match stage {
        Stage::Group => "Group stage",
        Stage::RoundOf32 => "Round of 32",
        Stage::RoundOf16 => "Round of 16",
        Stage::QuarterFinal => "Quarter-final",
        Stage::SemiFinal => "Semi-final",
        Stage::ThirdPlace => "Third-place play-off",
        Stage::Final => "Final",
    }
}

/// A tip as the recap prompt words it: `"<team> to win"` or `"Draw"` in the
/// winner-only mode, the score line otherwise.
pub open spec fn tip_label_of(system: MatchScoringSystem, home: Seq<char>, away: Seq<char>, pred_h: i32, pred_a: i32) -> Seq<char> {
    if system == MatchScoringSystem::WinnerOnly {
        if pred_h > pred_a {
            home + " to win"@
        } else if pred_h < pred_a {
            away + " to win"@
        } else {
            "Draw"@
        }
    } else {
        signed_decimal_of(pred_h as int) + ":"@ + signed_decimal_of(pred_a as int)
    }
}

pub fn prediction_label(system: MatchScoringSystem, home: &str, away: &str, pred_h: i32, pred_a: i32) -> (label: String)
    ensures
        label@ == tip_label_of(system, home@, away@, pred_h, pred_a),
{
    if system.is_winner_only() {
        if pred_h > pred_a {
            let mut v = crate::text::chars_of(home);
            append_str(&mut v, " to win");
            string_of(&v)
        } else if pred_h < pred_a {
            let mut v = crate::text::chars_of(away);
            append_str(&mut v, " to win");
            string_of(&v)
        } else {
            crate::text::owned("Draw")
        }
    } else {
        let v = score_line(pred_h, pred_a);
        string_of(&v)
    }
}

/// The percentage a metric badge shows, if any.
pub open spec fn percent_shown(d: BadgeDisplay) -> Option<i32> {
    match d {
        BadgeDisplay::Metric(BadgeValue::Percent(p)) => p,
        _ => None,
    }
}

pub fn percent(d: BadgeDisplay) -> (p: Option<i32>)
    ensures
        p == percent_shown(d),
{
    match d {
        BadgeDisplay::Metric(BadgeValue::Percent(p)) => p,
        _ => None,
    }
}

/// The streak a metric badge shows; zero for any other display.
pub open spec fn streak_shown(d: BadgeDisplay) -> i32 {
    match d {
        BadgeDisplay::Metric(BadgeValue::Streak(n)) => n,
        _ => 0,
    }
}

pub fn streak(d: BadgeDisplay) -> (n: i32)
    ensures
        n == streak_shown(d),
{
    match d {
        BadgeDisplay::Metric(BadgeValue::Streak(n)) => n,
        _ => 0,
    }
}

// ─── The recap input ─────────────────────────────────────────────────────────

/// A finished fixture of the matchday.
#[derive(Debug, Clone)]
pub struct MatchInput {
    pub home: String,
    pub away: String,
    pub score_home: i32,
    pub score_away: i32,
    pub stage: &'static str,
}

/// An achievement a player holds, with how often it was earned.
#[derive(Debug, Clone)]
pub struct BadgeInput {
    pub name: String,
    pub count: i32,
}

/// A player's tip on a fixture of the matchday.
#[derive(Debug, Clone)]
pub struct TipInput {
    pub home: String,
    pub away: String,
    pub predicted: String,
    pub points: i32,
}

/// A player's figures.
#[derive(Debug, Clone)]
pub struct PlayerInput {
    pub name: String,
    pub total_points: i32,
    pub rank: i32,
    pub rank_delta: i32,
    pub matchday_points: i32,
    pub tendency_pct: Option<i32>,
    pub discipline_pct: Option<i32>,
    pub current_streak: i32,
    pub badges: Vec<BadgeInput>,
    pub champion_pick: Option<String>,
    pub matchday_tips: Vec<TipInput>,
}

/// Everything the recap prompt is written from.
#[derive(Debug, Clone)]
pub struct ReportInput {
    pub matchday_date: String,
    pub scoring_system: &'static str,
    pub matches: Vec<MatchInput>,
    pub players: Vec<PlayerInput>,
    pub leader: Option<String>,
    pub biggest_climber: Option<String>,
    pub biggest_faller: Option<String>,
}

/// Everything read for one league's matchday recap. `users` are the league
/// members; `special_picks` their champion picks; `team_names` resolves a
/// team id; `started_by_user` counts each member's tips on started matches
/// (the discipline numerator). In the three lists of pairs a later pair
/// overrides an earlier one with the same key.
pub struct ReportSource {
    pub matchday_date: i32,
    pub zone: Zone,
    pub scoring_system: MatchScoringSystem,
    pub summaries: Vec<MatchSummary>,
    pub finished: Vec<PredictionRow>,
    pub users: Vec<(u128, String)>,
    pub special_picks: Vec<(u128, i32)>,
    pub team_names: Vec<(i32, String)>,
    pub actual_champion: Option<i32>,
    pub started_total: i32,
    pub started_by_user: Vec<(u128, i32)>,
    pub now: i64,
}

/// Value of a fixture line.
pub struct FixtureView {
    pub home: Seq<char>,
    pub away: Seq<char>,
    pub score_home: i32,
    pub score_away: i32,
    pub stage: Seq<char>,
}

impl View for MatchInput {
    type V = FixtureView;

    open spec fn view(&self) -> FixtureView {
        FixtureView { home: self.home@, away: self.away@, score_home: self.score_home, score_away: self.score_away, stage: self.stage@ }
    }
}

/// Value of a tip line.
pub struct TipView {
    pub home: Seq<char>,
    pub away: Seq<char>,
    pub predicted: Seq<char>,
    pub points: i32,
}

impl View for TipInput {
    type V = TipView;

    open spec fn view(&self) -> TipView {
        TipView { home: self.home@, away: self.away@, predicted: self.predicted@, points: self.points }
    }
}

/// Calendar day of fixture `id`: the last summary with that id and a kickoff.
pub open spec fn match_day(s: Seq<MatchSummary>, zone: Seq<char>, id: i32) -> Option<i32>
    decreases s.len(),
{
    if s.len() == 0 {
        None
    } else if s.last().id == id && s.last().kickoff_time is Some {
        Some(kickoff_day(s.last(), zone))
    } else {
        match_day(s.drop_last(), zone, id)
    }
}

/// Team names of fixture `id`: the last summary with that id and both teams.
pub open spec fn match_teams(s: Seq<MatchSummary>, id: i32) -> Option<(Seq<char>, Seq<char>)>
    decreases s.len(),
{
    if s.len() == 0 {
        None
    } else if s.last().id == id && s.last().home_name is Some && s.last().away_name is Some {
        Some((s.last().home_name->0@, s.last().away_name->0@))
    } else {
        match_teams(s.drop_last(), id)
    }
}

impl ReportSource {
    /// Fixture `id` is played on the recap's matchday.
    pub open spec fn on_matchday(&self, id: i32) -> bool {
        match_day(self.summaries@, self.zone.name(), id) == Some(self.matchday_date)
    }

    /// Fixture `id` is played before the recap's matchday.
    pub open spec fn before_matchday(&self, id: i32) -> bool {
        match_day(self.summaries@, self.zone.name(), id) matches Some(d) && d < self.matchday_date
    }

    /// Inputs the recap is computed for.
    pub open spec fn wf(&self) -> bool {
        &&& self.zone.wf()
        &&& kickoffs_wf(self.summaries@)
        &&& rows_wf(self.finished@)
        &&& self.users@.len() <= MAX_ROWS
        &&& self.special_picks@.len() <= MAX_ROWS
        &&& forall|i: int| 0 <= i < self.started_by_user@.len() ==> -MAX_ROWS <= (#[trigger] self.started_by_user@[i]).1 <= MAX_ROWS
        &&& valid_instant(self.now)
        &&& valid_day(self.matchday_date)
    }
}

/// The fixture line a summary gives, with its kickoff: finished fixtures of
/// the matchday with both teams and a result.
pub open spec fn fixture_of(src: ReportSource, m: MatchSummary) -> Option<(Option<i64>, FixtureView)> {
    if src.on_matchday(m.id) && m.status@ == "finished"@ {
        match (match_teams(src.summaries@, m.id), m.score_home, m.score_away) {
            (Some(t), Some(sh), Some(sa)) => Some((m.kickoff_time, FixtureView {
                home: t.0,
                away: t.1,
                score_home: sh,
                score_away: sa,
                stage: stage_label_of(m.stage),
            })),
            _ => None,
        }
    } else {
        None
    }
}

/// The fixture lines of the summaries, in summary order.
pub open spec fn fixtures(src: ReportSource, s: Seq<MatchSummary>) -> Seq<(Option<i64>, FixtureView)>
    decreases s.len(),
{
    if s.len() == 0 {
        Seq::empty()
    } else {
        let t = fixtures(src, s.drop_last());
        match fixture_of(src, s.last()) {
            Some(f) => t.push(f),
            None => t,
        }
    }
}

/// Kickoff order: a missing kickoff first.
pub open spec fn kick_le(a: Option<i64>, b: Option<i64>) -> bool {
    match (a, b) {
        (None, _) => true,
        (Some(_), None) => false,
        (Some(x), Some(y)) => x <= y,
    }
}

/// Kickoff order of fixture lines.
pub open spec fn fixture_le() -> spec_fn((Option<i64>, FixtureView), (Option<i64>, FixtureView)) -> bool {
    |a: (Option<i64>, FixtureView), b: (Option<i64>, FixtureView)| kick_le(a.0, b.0)
}

/// The fixture lines of the recap, chronological.
pub open spec fn matchday_fixtures_of(src: ReportSource) -> Seq<FixtureView> {
    sort_by(fixtures(src, src.summaries@), fixture_le()).map_values(|p: (Option<i64>, FixtureView)| p.1)
}

/// Day of fixture `id`.
fn day_of_match(src: &ReportSource, id: i32) -> (d: Option<i32>)
    requires
        src.zone.wf(),
        kickoffs_wf(src.summaries@),
    ensures
        d == match_day(src.summaries@, src.zone.name(), id),
{
    let s = &src.summaries;
    let ghost z = src.zone.name();
    let mut i: usize = s.len();
    while i > 0
        invariant
            i <= s@.len(),
            src.zone.wf(),
            z == src.zone.name(),
            s@ == src.summaries@,
            kickoffs_wf(s@),
            match_day(s@, z, id) == match_day(s@.take(i as int), z, id),
        decreases i,
    {
        let ghost t = s@.take(i as int);
        assert(t.drop_last() =~= s@.take(i as int - 1));
        assert(t.last() == s@[i as int - 1]);
        i = i - 1;
        let m = &s[i];
        if m.id == id {
            if let Some(k) = m.kickoff_time {
                let d = src.zone.day_of(k);
                assert(t.last() == *m);
                assert(match_day(t, z, id) == Some(d));
                return Some(d);
            }
        }
    }
    assert(s@.take(0) =~= Seq::<MatchSummary>::empty());
    None
}

/// Team names of fixture `id`.
fn teams_of_match(s: &Vec<MatchSummary>, id: i32) -> (t: Option<(String, String)>)
    ensures
        match t {
            Some(p) => match_teams(s@, id) == Some((p.0@, p.1@)),
            None => match_teams(s@, id) is None,
        },
{
    let mut i: usize = s.len();
    while i > 0
        invariant
            i <= s@.len(),
            match_teams(s@, id) == match_teams(s@.take(i as int), id),
        decreases i,
    {
        let ghost t = s@.take(i as int);
        assert(t.drop_last() =~= s@.take(i as int - 1));
        assert(t.last() == s@[i as int - 1]);
        i = i - 1;
        let m = &s[i];
        if m.id == id {
            if let (Some(h), Some(a)) = (&m.home_name, &m.away_name) {
                return Some((h.clone(), a.clone()));
            }
        }
    }
    assert(s@.take(0) =~= Seq::<MatchSummary>::empty());
    None
}

/// Kickoff-keyed fixture lines as one sequence.
pub open spec fn keyed_lines(keys: Seq<Option<i64>>, items: Seq<MatchInput>) -> Seq<(Option<i64>, FixtureView)> {
    Seq::new(keys.len(), |i: int| (keys[i], items[i]@))
}

fn kickoff_le(a: Option<i64>, b: Option<i64>) -> (r: bool)
    ensures
        r == kick_le(a, b),
{
    match (a, b) {
        (None, _) => true,
        (Some(_), None) => false,
        (Some(x), Some(y)) => x <= y,
    }
}

/// The finished fixtures of the matchday, chronological.
pub fn matchday_fixtures(src: &ReportSource) -> (matches: Vec<MatchInput>)
    requires
        src.wf(),
    ensures
        matches@.map_values(|m: MatchInput| m@) == matchday_fixtures_of(*src),
{
    let s = &src.summaries;
    let mut keys: Vec<Option<i64>> = Vec::new();
    let mut items: Vec<MatchInput> = Vec::new();
    let mut i: usize = 0;
    while i < s.len()
        invariant
            i <= s@.len(),
            src.wf(),
            s@ == src.summaries@,
            keys@.len() == items@.len(),
            keyed_lines(keys@, items@) == sort_by(fixtures(*src, s@.take(i as int)), fixture_le()),
        decreases s@.len() - i,
    {
        let m = &s[i];
        assert(s@.take(i as int + 1).drop_last() =~= s@.take(i as int));
        let ghost before = fixtures(*src, s@.take(i as int));
        let on_day = match day_of_match(src, m.id) {
            Some(d) => d == src.matchday_date,
            None => false,
        };
        if on_day && str_eq(m.status.as_str(), "finished") {
            match (teams_of_match(s, m.id), m.score_home, m.score_away) {
                (Some((h, a)), Some(sh), Some(sa)) => {
                    let line = MatchInput { home: h, away: a, score_home: sh, score_away: sa, stage: stage_label(m.stage) };
                    let ghost entry = (m.kickoff_time, line@);
                    assert(src.on_matchday(m.id));
                    assert(m.status@ == "finished"@);
                    assert(match_teams(s@, m.id) == Some((line.home@, line.away@)));
                    assert(fixture_of(*src, s@[i as int]) == Some(entry));
                    assert(before.push(entry).drop_last() =~= before);
                    let ghost lines = keyed_lines(keys@, items@);
                    let mut cnt: usize = 0;
                    let mut k: usize = 0;
                    while k < keys.len()
                        invariant
                            k <= keys@.len(),
                            keys@.len() == items@.len(),
                            lines == keyed_lines(keys@, items@),
                            cnt <= k,
                            entry.0 == m.kickoff_time,
                            cnt == count_by(lines.take(k as int), entry, fixture_le()),
                        decreases keys@.len() - k,
                    {
                        assert(lines.take(k as int + 1).drop_last() =~= lines.take(k as int));
                        if kickoff_le(keys[k], m.kickoff_time) {
                            cnt = cnt + 1;
                        }
                        k = k + 1;
                    }
                    assert(lines.take(k as int) =~= lines);
                    keys.insert(cnt, m.kickoff_time);
                    items.insert(cnt, line);
                    assert(keyed_lines(keys@, items@) =~= lines.insert(cnt as int, entry));
                },
                (t, h, a) => {
                    assert(fixture_of(*src, s@[i as int]) is None);
                },
            }
        } else {
            assert(fixture_of(*src, s@[i as int]) is None);
        }
        i = i + 1;
    }
    assert(s@.take(i as int) =~= s@);
    assert(items@.map_values(|m: MatchInput| m@) =~= keyed_lines(keys@, items@).map_values(|p: (Option<i64>, FixtureView)| p.1));
    items
}

// ─── Standings before and after the matchday ────────────────────────────────

/// Ten points for each pick of `uid` that names the champion.
pub open spec fn bonus_of(picks: Seq<(u128, i32)>, actual: Option<i32>, uid: u128) -> int
    decreases picks.len(),
{
    if picks.len() == 0 {
        0
    } else {
        bonus_of(picks.drop_last(), actual, uid) + if picks.last().0 == uid && actual == Some(picks.last().1) {
            champion_bonus_points(Some(picks.last().1), actual)
        } else {
            0
        }
    }
}

/// Players whose pick names the champion, one entry per such pick.
pub open spec fn bonus_ids(picks: Seq<(u128, i32)>, actual: Option<i32>) -> Seq<u128>
    decreases picks.len(),
{
    if picks.len() == 0 {
        Seq::empty()
    } else {
        let t = bonus_ids(picks.drop_last(), actual);
        if actual == Some(picks.last().1) {
            t.push(picks.last().0)
        } else {
            t
        }
    }
}

/// Latest day of a finished final among `s`.
pub open spec fn final_day_in(s: Seq<MatchSummary>, all: Seq<MatchSummary>, zone: Seq<char>) -> Option<i32>
    decreases s.len(),
{
    if s.len() == 0 {
        None
    } else {
        let r = final_day_in(s.drop_last(), all, zone);
        let m = s.last();
        if m.stage == Stage::Final && m.status@ == "finished"@ {
            match match_day(all, zone, m.id) {
                Some(d) => match r {
                    Some(e) => Some(if d > e { d } else { e }),
                    None => Some(d),
                },
                None => r,
            }
        } else {
            r
        }
    }
}

impl ReportSource {
    /// The champion bonus already counted before the matchday: the final was
    /// decided on an earlier day.
    pub open spec fn bonus_before(&self) -> bool {
        final_day_in(self.summaries@, self.summaries@, self.zone.name()) matches Some(d) && d < self.matchday_date
    }

    /// A prediction counts for the standings: all of them after the matchday,
    /// those of earlier days before it.
    pub open spec fn row_counts(&self, r: PredictionRow, before: bool) -> bool {
        !before || self.before_matchday(r.match_id)
    }

    /// Points of player `uid` after the matchday, or before it.
    pub open spec fn total_in(&self, uid: u128, before: bool) -> int {
        points_where(self.finished@, |r: PredictionRow| r.user_id == uid && self.row_counts(r, before))
            + if !before || self.bonus_before() { bonus_of(self.special_picks@, self.actual_champion, uid) } else { 0 }
    }

    /// Ids of the predictions counted after the matchday, or before it.
    pub open spec fn row_ids_in(&self, rows: Seq<PredictionRow>, before: bool) -> Seq<u128>
        decreases rows.len(),
    {
        if rows.len() == 0 {
            Seq::empty()
        } else {
            let t = self.row_ids_in(rows.drop_last(), before);
            if self.row_counts(rows.last(), before) {
                t.push(rows.last().user_id)
            } else {
                t
            }
        }
    }

    /// Every id with a total: the members, the authors of counted
    /// predictions, and holders of a counted champion bonus.
    pub open spec fn standings_ids(&self, before: bool) -> Seq<u128> {
        self.users@.map_values(|u: (u128, String)| u.0)
            + self.row_ids_in(self.finished@, before)
            + if !before || self.bonus_before() { bonus_ids(self.special_picks@, self.actual_champion) } else { Seq::empty() }
    }

    /// Standard competition rank of `uid`: one more than the number of ids
    /// with strictly more points.
    pub open spec fn rank_in(&self, uid: u128, before: bool) -> int {
        1 + self.standings_ids(before).to_set().filter(|k: u128| self.total_in(k, before) > self.total_in(uid, before)).len() as int
    }
}

/// Counting higher totals over a list of distinct ids is counting over the
/// set of those ids.
proof fn lemma_count_above_ids(ks: Seq<u128>, vals: Seq<i32>, f: spec_fn(u128) -> int, t: int)
    requires
        ks.no_duplicates(),
        vals.len() == ks.len(),
        forall|i: int| 0 <= i < ks.len() ==> vals[i] == f(#[trigger] ks[i]),
    ensures
        count_above(vals, t) == ks.to_set().filter(|k: u128| f(k) > t).len(),
    decreases ks.len(),
{
    broadcast use vstd::set::group_set_axioms, vstd::seq_lib::seq_to_set_is_finite;
    let p = |k: u128| f(k) > t;
    if ks.len() == 0 {
        assert(ks.to_set().filter(p) =~= Set::empty());
    } else {
        let init = ks.drop_last();
        let l = ks.last();
        assert forall|i: int| 0 <= i < init.len() implies vals.drop_last()[i] == f(#[trigger] init[i]) by {
            assert(init[i] == ks[i]);
        }
        lemma_count_above_ids(init, vals.drop_last(), f, t);
        assert(ks.to_set() =~= init.to_set().insert(l)) by {
            assert(ks =~= init.push(l));
        }
        assert(!init.to_set().contains(l)) by {
            if init.contains(l) {
                let j = choose|j: int| 0 <= j < init.len() && init[j] == l;
                assert(ks[j] == ks[ks.len() - 1]);
            }
        }
        assert(vals.last() == f(l));
        if p(l) {
            assert(ks.to_set().filter(p) =~= init.to_set().filter(p).insert(l));
        } else {
            assert(ks.to_set().filter(p) =~= init.to_set().filter(p));
        }
    }
}

/// Latest day of a finished final.
fn final_day(src: &ReportSource) -> (d: Option<i32>)
    requires
        src.wf(),
    ensures
        d == final_day_in(src.summaries@, src.summaries@, src.zone.name()),
{
    let s = &src.summaries;
    let mut best: Option<i32> = None;
    let mut i: usize = 0;
    while i < s.len()
        invariant
            i <= s@.len(),
            src.wf(),
            s@ == src.summaries@,
            best == final_day_in(s@.take(i as int), s@, src.zone.name()),
        decreases s@.len() - i,
    {
        assert(s@.take(i as int + 1).drop_last() =~= s@.take(i as int));
        let m = &s[i];
        if m.stage == Stage::Final && str_eq(m.status.as_str(), "finished") {
            match day_of_match(src, m.id) {
                Some(d) => {
                    best = match best {
                        Some(e) => Some(if d > e { d } else { e }),
                        None => Some(d),
                    };
                },
                None => {},
            }
        }
        i = i + 1;
    }
    assert(s@.take(i as int) =~= s@);
    best
}

/// Whether fixture `id` is played before the matchday.
fn is_before_matchday(src: &ReportSource, id: i32) -> (b: bool)
    requires
        src.wf(),
    ensures
        b == src.before_matchday(id),
{
    match day_of_match(src, id) {
        Some(d) => d < src.matchday_date,
        None => false,
    }
}

/// Points of player `uid` after the matchday, or before it.
fn total_for(src: &ReportSource, uid: u128, before: bool, with_bonus: bool) -> (t: i32)
    requires
        src.wf(),
        with_bonus == (!before || src.bonus_before()),
    ensures
        t == src.total_in(uid, before),
        0 <= t <= 21 * MAX_ROWS,
{
    let rows = &src.finished;
    let ghost f = |r: PredictionRow| r.user_id == uid && src.row_counts(r, before);
    let mut pts: i32 = 0;
    let mut i: usize = 0;
    while i < rows.len()
        invariant
            i <= rows@.len(),
            src.wf(),
            rows@ == src.finished@,
            f == (|r: PredictionRow| r.user_id == uid && src.row_counts(r, before)),
            pts == points_where(rows@.take(i as int), f),
            0 <= pts <= 11 * i,
        decreases rows@.len() - i,
    {
        assert(rows@.take(i as int + 1).drop_last() =~= rows@.take(i as int));
        let r = &rows[i];
        proof {
            crate::scoring::lemma_match_points_within_max(r.scoring_system, r.stage, r.score_h as int, r.score_a as int, r.pred_h as int, r.pred_a as int);
        }
        if r.user_id == uid && (!before || is_before_matchday(src, r.match_id)) {
            pts = pts + r.base_points();
        }
        i = i + 1;
    }
    assert(rows@.take(i as int) =~= rows@);
    if with_bonus {
        let picks = &src.special_picks;
        let ghost row_pts = pts as int;
        let mut k: usize = 0;
        while k < picks.len()
            invariant
                k <= picks@.len(),
                src.wf(),
                picks@ == src.special_picks@,
                0 <= row_pts <= 11 * MAX_ROWS,
                pts == row_pts + bonus_of(picks@.take(k as int), src.actual_champion, uid),
                row_pts <= pts <= row_pts + 10 * k,
            decreases picks@.len() - k,
        {
            assert(picks@.take(k as int + 1).drop_last() =~= picks@.take(k as int));
            let (pu, pick) = picks[k];
            if pu == uid && src.actual_champion == Some(pick) {
                pts = pts + crate::scoring::champion_points(Some(pick), src.actual_champion);
            }
            k = k + 1;
        }
        assert(picks@.take(k as int) =~= picks@);
    }
    pts
}

/// The ids with a total, in order of appearance and with repetitions.
fn standings_id_list(src: &ReportSource, before: bool, with_bonus: bool) -> (ids: Vec<u128>)
    requires
        src.wf(),
        with_bonus == (!before || src.bonus_before()),
    ensures
        ids@ == src.standings_ids(before),
        ids@.len() <= src.users@.len() + src.finished@.len() + src.special_picks@.len(),
{
    let mut ids: Vec<u128> = Vec::new();
    let mut i: usize = 0;
    while i < src.users.len()
        invariant
            i <= src.users@.len(),
            ids@ == src.users@.take(i as int).map_values(|u: (u128, String)| u.0),
        decreases src.users@.len() - i,
    {
        ids.push(src.users[i].0);
        assert(ids@ =~= src.users@.take(i as int + 1).map_values(|u: (u128, String)| u.0));
        i = i + 1;
    }
    assert(src.users@.take(i as int) =~= src.users@);
    let ghost members = ids@;
    let rows = &src.finished;
    let mut i: usize = 0;
    while i < rows.len()
        invariant
            i <= rows@.len(),
            src.wf(),
            rows@ == src.finished@,
            ids@ == members + src.row_ids_in(rows@.take(i as int), before),
            members.len() == src.users@.len(),
            ids@.len() <= members.len() + i,
        decreases rows@.len() - i,
    {
        assert(rows@.take(i as int + 1).drop_last() =~= rows@.take(i as int));
        let r = &rows[i];
        if !before || is_before_matchday(src, r.match_id) {
            ids.push(r.user_id);
            assert(ids@ =~= members + src.row_ids_in(rows@.take(i as int + 1), before));
        }
        i = i + 1;
    }
    assert(rows@.take(i as int) =~= rows@);
    let ghost counted = ids@;
    if with_bonus {
        let picks = &src.special_picks;
        let mut k: usize = 0;
        while k < picks.len()
            invariant
                k <= picks@.len(),
                picks@ == src.special_picks@,
                ids@ == counted + bonus_ids(picks@.take(k as int), src.actual_champion),
                counted.len() <= src.users@.len() + src.finished@.len(),
                ids@.len() <= counted.len() + k,
            decreases picks@.len() - k,
        {
            assert(picks@.take(k as int + 1).drop_last() =~= picks@.take(k as int));
            let (pu, pick) = picks[k];
            if src.actual_champion == Some(pick) {
                ids.push(pu);
                assert(ids@ =~= counted + bonus_ids(picks@.take(k as int + 1), src.actual_champion));
            }
            k = k + 1;
        }
        assert(picks@.take(k as int) =~= picks@);
    } else {
        assert(ids@ =~= counted + Seq::<u128>::empty());
    }
    ids
}

/// The ids of a list, each once.
fn distinct_ids(all: &Vec<u128>) -> (ids: Vec<u128>)
    ensures
        ids@.no_duplicates(),
        ids@.to_set() == all@.to_set(),
        ids@.len() <= all@.len(),
{
    let mut ids: Vec<u128> = Vec::new();
    let mut i: usize = 0;
    while i < all.len()
        invariant
            i <= all@.len(),
            ids@.no_duplicates(),
            ids@.to_set() == all@.take(i as int).to_set(),
            ids@.len() <= i,
        decreases all@.len() - i,
    {
        let x = all[i];
        let mut found = false;
        let mut k: usize = 0;
        while k < ids.len()
            invariant
                k <= ids@.len(),
                found <==> exists|q: int| 0 <= q < k && ids@[q] == x,
            decreases ids@.len() - k,
        {
            if ids[k] == x {
                found = true;
            }
            k = k + 1;
        }
        assert(all@.take(i as int + 1) =~= all@.take(i as int).push(x));
        assert(all@.take(i as int + 1).to_set() =~= all@.take(i as int).to_set().insert(x));
        let ghost before = ids@;
        if !found {
            ids.push(x);
            assert(ids@ == before.push(x));
            assert forall|y: u128| #[trigger] ids@.contains(y) <==> (before.contains(y) || y == x) by {
                if ids@.contains(y) {
                    let q = choose|q: int| 0 <= q < ids@.len() && ids@[q] == y;
                    if q < before.len() {
                        assert(before[q] == y);
                    }
                }
                if before.contains(y) {
                    let q = choose|q: int| 0 <= q < before.len() && before[q] == y;
                    assert(ids@[q] == y);
                }
                if y == x {
                    assert(ids@[before.len() as int] == y);
                }
            }
            assert(ids@.to_set() =~= all@.take(i as int + 1).to_set());
        } else {
            assert(before.contains(x));
            assert(ids@.to_set() =~= all@.take(i as int + 1).to_set());
        }
        i = i + 1;
    }
    assert(all@.take(i as int) =~= all@);
    ids
}

/// The ids with a total, each once, with their totals.
fn standings_table(src: &ReportSource, before: bool, with_bonus: bool) -> (t: (Vec<u128>, Vec<i32>))
    requires
        src.wf(),
        with_bonus == (!before || src.bonus_before()),
    ensures
        t.0@.no_duplicates(),
        t.0@.to_set() == src.standings_ids(before).to_set(),
        t.1@.len() == t.0@.len(),
        t.0@.len() <= 3 * MAX_ROWS,
        forall|i: int| 0 <= i < t.0@.len() ==> t.1@[i] == src.total_in(#[trigger] t.0@[i], before),
{
    let all = standings_id_list(src, before, with_bonus);
    let ids = distinct_ids(&all);
    let mut totals: Vec<i32> = Vec::new();
    let mut i: usize = 0;
    while i < ids.len()
        invariant
            i <= ids@.len(),
            src.wf(),
            with_bonus == (!before || src.bonus_before()),
            totals@.len() == i,
            forall|q: int| 0 <= q < i ==> totals@[q] == src.total_in(#[trigger] ids@[q], before),
        decreases ids@.len() - i,
    {
        let t = total_for(src, ids[i], before, with_bonus);
        totals.push(t);
        i = i + 1;
    }
    (ids, totals)
}

/// Competition rank of `uid` in a table of the standings.
fn rank_for(src: &ReportSource, uid: u128, before: bool, with_bonus: bool, table: &(Vec<u128>, Vec<i32>)) -> (r: i32)
    requires
        src.wf(),
        with_bonus == (!before || src.bonus_before()),
        table.0@.no_duplicates(),
        table.0@.to_set() == src.standings_ids(before).to_set(),
        table.1@.len() == table.0@.len(),
        table.0@.len() <= 3 * MAX_ROWS,
        forall|i: int| 0 <= i < table.0@.len() ==> table.1@[i] == src.total_in(#[trigger] table.0@[i], before),
    ensures
        r == src.rank_in(uid, before),
        1 <= r <= 3 * MAX_ROWS + 1,
{
    let t = total_for(src, uid, before, with_bonus);
    let r = competition_rank(t, table.1.as_slice());
    proof {
        let f = |k: u128| src.total_in(k, before);
        lemma_count_above_ids(table.0@, table.1@, f, t as int);
        assert(table.0@.to_set().filter(|k: u128| f(k) > t as int)
            =~= src.standings_ids(before).to_set().filter(|k: u128| src.total_in(k, before) > src.total_in(uid, before)));
        crate::ranking::lemma_count_above_le_len(table.1@, t as int);
    }
    r
}

// ─── Players ─────────────────────────────────────────────────────────────────

/// Tips on started matches of `uid`: the last entry for it, else zero.
pub open spec fn started_of(counts: Seq<(u128, i32)>, uid: u128) -> i32
    decreases counts.len(),
{
    if counts.len() == 0 {
        0
    } else if counts.last().0 == uid {
        counts.last().1
    } else {
        started_of(counts.drop_last(), uid)
    }
}

/// Champion pick of `uid`: the last pick for it.
pub open spec fn pick_of(picks: Seq<(u128, i32)>, uid: u128) -> Option<i32>
    decreases picks.len(),
{
    if picks.len() == 0 {
        None
    } else if picks.last().0 == uid {
        Some(picks.last().1)
    } else {
        pick_of(picks.drop_last(), uid)
    }
}

/// Name of team `id`: the last entry for it.
pub open spec fn team_name_of(names: Seq<(i32, String)>, id: i32) -> Option<Seq<char>>
    decreases names.len(),
{
    if names.len() == 0 {
        None
    } else if names.last().0 == id {
        Some(names.last().1@)
    } else {
        team_name_of(names.drop_last(), id)
    }
}

/// How often an achievement badge was earned; `None` for a metric badge.
pub open spec fn achievement_count(kind: BadgeKind, rows: Seq<PredictionRow>, uid: u128) -> Option<i32> {
    match kind {
        BadgeKind::MatchdayWins => Some(matchday_wins_of(rows, uid) as i32),
        BadgeKind::ExactCount => Some(count_where(rows, of_user_and(uid, RowFilter::Exact.pred())) as i32),
        BadgeKind::Underdog => Some(underdog_hits_of(rows, uid) as i32),
        BadgeKind::SoloHit => Some(solo_hits_of(rows, uid) as i32),
        _ => None,
    }
}

/// The achievements a player earned at least once, with title and count, in
/// the order of `kinds`.
pub open spec fn badges_of(kinds: Seq<BadgeKind>, rows: Seq<PredictionRow>, uid: u128) -> Seq<(Seq<char>, i32)>
    decreases kinds.len(),
{
    if kinds.len() == 0 {
        Seq::empty()
    } else {
        let t = badges_of(kinds.drop_last(), rows, uid);
        match achievement_count(kinds.last(), rows, uid) {
            Some(n) => if n > 0 { t.push((title_of(kinds.last()), n)) } else { t },
            None => t,
        }
    }
}

/// Order of tips by home team.
pub open spec fn tip_le() -> spec_fn(TipView, TipView) -> bool {
    |a: TipView, b: TipView| !lex_lt(b.home, a.home)
}

/// Value of a player's figures.
pub struct PlayerView {
    pub name: Seq<char>,
    pub total_points: int,
    pub rank: int,
    pub rank_delta: int,
    pub matchday_points: int,
    pub tendency_pct: Option<i32>,
    pub discipline_pct: Option<i32>,
    pub current_streak: i32,
    pub badges: Seq<(Seq<char>, i32)>,
    pub champion_pick: Option<Seq<char>>,
    pub matchday_tips: Seq<TipView>,
}

/// Value of an optional text.
pub open spec fn opt_text(s: Option<String>) -> Option<Seq<char>> {
    match s {
        Some(x) => Some(x@),
        None => None,
    }
}

impl View for PlayerInput {
    type V = PlayerView;

    open spec fn view(&self) -> PlayerView {
        PlayerView {
            name: self.name@,
            total_points: self.total_points as int,
            rank: self.rank as int,
            rank_delta: self.rank_delta as int,
            matchday_points: self.matchday_points as int,
            tendency_pct: self.tendency_pct,
            discipline_pct: self.discipline_pct,
            current_streak: self.current_streak,
            badges: self.badges@.map_values(|b: BadgeInput| (b.name@, b.count)),
            champion_pick: opt_text(self.champion_pick),
            matchday_tips: self.matchday_tips@.map_values(|t: TipInput| t@),
        }
    }
}

impl ReportSource {
    /// The player's tip line on a fixture of the matchday with both teams.
    pub open spec fn tip_of(&self, r: PredictionRow) -> Option<TipView> {
        if self.on_matchday(r.match_id) {
            match match_teams(self.summaries@, r.match_id) {
                Some(t) => Some(TipView {
                    home: t.0,
                    away: t.1,
                    predicted: tip_label_of(self.scoring_system, t.0, t.1, r.pred_h, r.pred_a),
                    points: r.points() as i32,
                }),
                None => None,
            }
        } else {
            None
        }
    }

    /// The tip lines of player `uid` among `rows`, in row order.
    pub open spec fn tips_of(&self, rows: Seq<PredictionRow>, uid: u128) -> Seq<TipView>
        decreases rows.len(),
    {
        if rows.len() == 0 {
            Seq::empty()
        } else {
            let t = self.tips_of(rows.drop_last(), uid);
            if rows.last().user_id == uid && self.tip_of(rows.last()) is Some {
                t.push(self.tip_of(rows.last())->0)
            } else {
                t
            }
        }
    }

    /// Name of the team player `uid` picked as champion.
    pub open spec fn champion_of(&self, uid: u128) -> Option<Seq<char>> {
        match pick_of(self.special_picks@, uid) {
            Some(t) => team_name_of(self.team_names@, t),
            None => None,
        }
    }

    /// The figures of member `uid` called `name`.
    pub open spec fn player_of(&self, uid: u128, name: Seq<char>) -> PlayerView {
        let rows = self.finished@;
        PlayerView {
            name,
            total_points: self.total_in(uid, false),
            rank: self.rank_in(uid, false),
            rank_delta: self.rank_in(uid, true) - self.rank_in(uid, false),
            matchday_points: points_where(rows, |r: PredictionRow| r.user_id == uid && self.on_matchday(r.match_id)),
            tendency_pct: percent_shown(tendency_pct_display(rows, uid)),
            discipline_pct: percent_shown(discipline_pct_display(self.started_total, started_of(self.started_by_user@, uid))),
            current_streak: current_streak_of(rows, uid) as i32,
            badges: badges_of(registry_order(), rows, uid),
            champion_pick: self.champion_of(uid),
            matchday_tips: sort_by(self.tips_of(rows, uid), tip_le()),
        }
    }

    /// The figures of every member, in member order.
    pub open spec fn players_of(&self) -> Seq<PlayerView> {
        self.users@.map_values(|u: (u128, String)| self.player_of(u.0, u.1@))
    }
}

/// Recap order of players: better rank first, ties by name.
pub open spec fn player_before(a: PlayerView, b: PlayerView) -> bool {
    a.rank < b.rank || (a.rank == b.rank && lex_lt(a.name, b.name))
}

/// Recap order of players as a preorder.
pub open spec fn player_le() -> spec_fn(PlayerView, PlayerView) -> bool {
    |a: PlayerView, b: PlayerView| !player_before(b, a)
}

/// Name of the first player ranked first.
pub open spec fn leader_of(s: Seq<PlayerView>) -> Option<Seq<char>>
    decreases s.len(),
{
    if s.len() == 0 {
        None
    } else {
        match leader_of(s.drop_last()) {
            Some(n) => Some(n),
            None => if s.last().rank == 1 { Some(s.last().name) } else { None },
        }
    }
}

/// Name of the player who climbed most: the largest positive movement, ties
/// by name, the last such player among equals.
pub open spec fn climber_of(s: Seq<PlayerView>) -> Option<PlayerView>
    decreases s.len(),
{
    if s.len() == 0 {
        None
    } else {
        let b = climber_of(s.drop_last());
        let p = s.last();
        if p.rank_delta > 0 && (b matches Some(q) ==> !(q.rank_delta > p.rank_delta || (q.rank_delta == p.rank_delta && lex_lt(q.name, p.name)))) {
            Some(p)
        } else {
            b
        }
    }
}

/// Name of the player who fell most: the most negative movement, ties by
/// name, the first such player among equals.
pub open spec fn faller_of(s: Seq<PlayerView>) -> Option<PlayerView>
    decreases s.len(),
{
    if s.len() == 0 {
        None
    } else {
        let b = faller_of(s.drop_last());
        let p = s.last();
        if p.rank_delta < 0 && (b matches Some(q) ==> (q.rank_delta > p.rank_delta || (q.rank_delta == p.rank_delta && lex_lt(p.name, q.name)))) {
            Some(p)
        } else {
            b
        }
    }
}

/// Name of an optional player.
pub open spec fn name_of(p: Option<PlayerView>) -> Option<Seq<char>> {
    match p {
        Some(x) => Some(x.name),
        None => None,
    }
}

/// `out` is the recap input of the source.
pub open spec fn report_fits(out: ReportInput, src: ReportSource) -> bool {
    let players = sort_by(src.players_of(), player_le());
    &&& out.matchday_date@ == iso_date_of(src.matchday_date)
    &&& out.scoring_system@ == (if src.scoring_system == MatchScoringSystem::WinnerOnly { "winner_only"@ } else { "exact_score"@ })
    &&& out.matches@.map_values(|m: MatchInput| m@) == matchday_fixtures_of(src)
    &&& out.players@.map_values(|p: PlayerInput| p@) == players
    &&& opt_text(out.leader) == leader_of(players)
    &&& opt_text(out.biggest_climber) == name_of(climber_of(players))
    &&& opt_text(out.biggest_faller) == name_of(faller_of(players))
}

// ─── Assembly ─────────────────────────────────────────────────────────────────

/// Tips on started matches of `uid`.
fn started_lookup(counts: &Vec<(u128, i32)>, uid: u128) -> (n: i32)
    requires
        forall|i: int| 0 <= i < counts@.len() ==> -MAX_ROWS <= (#[trigger] counts@[i]).1 <= MAX_ROWS,
    ensures
        n == started_of(counts@, uid),
        -MAX_ROWS <= n <= MAX_ROWS,
{
    let mut i: usize = counts.len();
    while i > 0
        invariant
            i <= counts@.len(),
            forall|i: int| 0 <= i < counts@.len() ==> -MAX_ROWS <= (#[trigger] counts@[i]).1 <= MAX_ROWS,
            started_of(counts@, uid) == started_of(counts@.take(i as int), uid),
        decreases i,
    {
        let ghost t = counts@.take(i as int);
        assert(t.drop_last() =~= counts@.take(i as int - 1));
        assert(t.last() == counts@[i as int - 1]);
        i = i - 1;
        if counts[i].0 == uid {
            return counts[i].1;
        }
    }
    assert(counts@.take(0) =~= Seq::<(u128, i32)>::empty());
    0
}

/// Champion pick of `uid`.
fn pick_lookup(picks: &Vec<(u128, i32)>, uid: u128) -> (pick: Option<i32>)
    ensures
        pick == pick_of(picks@, uid),
{
    let mut i: usize = picks.len();
    while i > 0
        invariant
            i <= picks@.len(),
            pick_of(picks@, uid) == pick_of(picks@.take(i as int), uid),
        decreases i,
    {
        let ghost t = picks@.take(i as int);
        assert(t.drop_last() =~= picks@.take(i as int - 1));
        assert(t.last() == picks@[i as int - 1]);
        i = i - 1;
        if picks[i].0 == uid {
            return Some(picks[i].1);
        }
    }
    assert(picks@.take(0) =~= Seq::<(u128, i32)>::empty());
    None
}

/// Name of the team player `uid` picked as champion.
fn champion_name(src: &ReportSource, uid: u128) -> (name: Option<String>)
    ensures
        opt_text(name) == src.champion_of(uid),
{
    let pick = pick_lookup(&src.special_picks, uid);
    match pick {
        None => None,
        Some(team) => {
            let names = &src.team_names;
            let mut j: usize = names.len();
            while j > 0
                invariant
                    j <= names@.len(),
                    names@ == src.team_names@,
                    pick_of(src.special_picks@, uid) == Some(team),
                    team_name_of(names@, team) == team_name_of(names@.take(j as int), team),
                decreases j,
            {
                let ghost t = names@.take(j as int);
                assert(t.drop_last() =~= names@.take(j as int - 1));
                assert(t.last() == names@[j as int - 1]);
                j = j - 1;
                if names[j].0 == team {
                    return Some(names[j].1.clone());
                }
            }
            assert(names@.take(0) =~= Seq::<(i32, String)>::empty());
            None
        },
    }
}

proof fn lemma_achievement_display(kind: BadgeKind, ctx: BadgeContext<'_>)
    ensures
        match display_of(kind, ctx) {
            BadgeDisplay::Achievement { times_earned } => achievement_count(kind, ctx.finished_predictions@, ctx.user_id) == Some(times_earned),
            _ => achievement_count(kind, ctx.finished_predictions@, ctx.user_id) is None,
        },
{
}

/// The achievements of the context's user, earned at least once.
fn achievements(ctx: &BadgeContext<'_>) -> (badges: Vec<BadgeInput>)
    requires
        ctx.wf(),
    ensures
        badges@.map_values(|b: BadgeInput| (b.name@, b.count)) == badges_of(registry_order(), ctx.finished_predictions@, ctx.user_id),
{
    let views = compute_all(ctx);
    let ghost kinds = registry_order();
    let ghost rows = ctx.finished_predictions@;
    let mut out: Vec<BadgeInput> = Vec::new();
    let mut i: usize = 0;
    while i < views.len()
        invariant
            i <= views@.len(),
            kinds == registry_order(),
            rows == ctx.finished_predictions@,
            views@.len() == kinds.len(),
            forall|q: int| 0 <= q < views@.len() ==> {
                &&& (#[trigger] views@[q]).title@ == title_of(kinds[q])
                &&& views@[q].display == display_of(kinds[q], *ctx)
            },
            out@.map_values(|b: BadgeInput| (b.name@, b.count)) == badges_of(kinds.take(i as int), rows, ctx.user_id),
        decreases views@.len() - i,
    {
        assert(kinds.take(i as int + 1).drop_last() =~= kinds.take(i as int));
        proof {
            lemma_achievement_display(kinds[i as int], *ctx);
        }
        let ghost before = out@;
        match views[i].display {
            BadgeDisplay::Achievement { times_earned } => {
                if times_earned > 0 {
                    let b = BadgeInput { name: crate::text::owned(views[i].title), count: times_earned };
                    out.push(b);
                    assert(out@.map_values(|b: BadgeInput| (b.name@, b.count)) =~= before.map_values(|b: BadgeInput| (b.name@, b.count)).push((title_of(kinds[i as int]), times_earned)));
                }
            },
            _ => {},
        }
        i = i + 1;
    }
    assert(kinds.take(i as int) =~= kinds);
    out
}

/// Points player `uid` earned on the matchday.
fn matchday_points_of(src: &ReportSource, uid: u128) -> (p: i32)
    requires
        src.wf(),
    ensures
        p == points_where(src.finished@, |r: PredictionRow| r.user_id == uid && src.on_matchday(r.match_id)),
{
    let rows = &src.finished;
    let ghost f = |r: PredictionRow| r.user_id == uid && src.on_matchday(r.match_id);
    let mut pts: i32 = 0;
    let mut i: usize = 0;
    while i < rows.len()
        invariant
            i <= rows@.len(),
            src.wf(),
            rows@ == src.finished@,
            f == (|r: PredictionRow| r.user_id == uid && src.on_matchday(r.match_id)),
            pts == points_where(rows@.take(i as int), f),
            0 <= pts <= 11 * i,
        decreases rows@.len() - i,
    {
        assert(rows@.take(i as int + 1).drop_last() =~= rows@.take(i as int));
        let r = &rows[i];
        proof {
            crate::scoring::lemma_match_points_within_max(r.scoring_system, r.stage, r.score_h as int, r.score_a as int, r.pred_h as int, r.pred_a as int);
        }
        if r.user_id == uid {
            let on_day = match day_of_match(src, r.match_id) {
                Some(d) => d == src.matchday_date,
                None => false,
            };
            if on_day {
                pts = pts + r.base_points();
            }
        }
        i = i + 1;
    }
    assert(rows@.take(i as int) =~= rows@);
    pts
}

/// Player `uid`'s tips on the matchday, sorted by home team.
fn matchday_tips_of(src: &ReportSource, uid: u128) -> (tips: Vec<TipInput>)
    requires
        src.wf(),
    ensures
        tips@.map_values(|t: TipInput| t@) == sort_by(src.tips_of(src.finished@, uid), tip_le()),
{
    let rows = &src.finished;
    let mut tips: Vec<TipInput> = Vec::new();
    let mut i: usize = 0;
    while i < rows.len()
        invariant
            i <= rows@.len(),
            src.wf(),
            rows@ == src.finished@,
            tips@.map_values(|t: TipInput| t@) == sort_by(src.tips_of(rows@.take(i as int), uid), tip_le()),
        decreases rows@.len() - i,
    {
        assert(rows@.take(i as int + 1).drop_last() =~= rows@.take(i as int));
        let r = &rows[i];
        let ghost before = src.tips_of(rows@.take(i as int), uid);
        if r.user_id == uid {
            let on_day = match day_of_match(src, r.match_id) {
                Some(d) => d == src.matchday_date,
                None => false,
            };
            if on_day {
                match teams_of_match(&src.summaries, r.match_id) {
                    Some((h, a)) => {
                        proof {
                            crate::scoring::lemma_match_points_within_max(r.scoring_system, r.stage, r.score_h as int, r.score_a as int, r.pred_h as int, r.pred_a as int);
                        }
                        let predicted = prediction_label(src.scoring_system, h.as_str(), a.as_str(), r.pred_h, r.pred_a);
                        let tip = TipInput { home: h, away: a, predicted, points: r.base_points() };
                        assert(src.tip_of(*r) == Some(tip@));
                        assert(before.push(tip@).drop_last() =~= before);
                        let ghost lines = tips@.map_values(|t: TipInput| t@);
                        let mut cnt: usize = 0;
                        let mut k: usize = 0;
                        while k < tips.len()
                            invariant
                                k <= tips@.len(),
                                lines == tips@.map_values(|t: TipInput| t@),
                                cnt <= k,
                                cnt == count_by(lines.take(k as int), tip@, tip_le()),
                            decreases tips@.len() - k,
                        {
                            assert(lines.take(k as int + 1).drop_last() =~= lines.take(k as int));
                            if !str_less(tip.home.as_str(), tips[k].home.as_str()) {
                                cnt = cnt + 1;
                            }
                            k = k + 1;
                        }
                        assert(lines.take(k as int) =~= lines);
                        let ghost tv = tip@;
                        tips.insert(cnt, tip);
                        assert(tips@.map_values(|t: TipInput| t@) =~= lines.insert(cnt as int, tv));
                    },
                    None => {
                        assert(src.tip_of(*r) is None);
                    },
                }
            } else {
                assert(src.tip_of(*r) is None);
            }
        }
        i = i + 1;
    }
    assert(rows@.take(i as int) =~= rows@);
    tips
}

/// Properties of a standings table the ranks are read from.
pub open spec fn table_fits(src: ReportSource, before: bool, t: (Vec<u128>, Vec<i32>)) -> bool {
    &&& t.0@.no_duplicates()
    &&& t.0@.to_set() == src.standings_ids(before).to_set()
    &&& t.1@.len() == t.0@.len()
    &&& t.0@.len() <= 3 * MAX_ROWS
    &&& forall|i: int| 0 <= i < t.0@.len() ==> t.1@[i] == src.total_in(#[trigger] t.0@[i], before)
}

/// The figures of member `uid` called `name`.
fn player_input(
    src: &ReportSource,
    uid: u128,
    name: &String,
    member_ids: &Vec<u128>,
    now_table: &(Vec<u128>, Vec<i32>),
    prev_table: &(Vec<u128>, Vec<i32>),
    prev_bonus: bool,
) -> (p: PlayerInput)
    requires
        src.wf(),
        member_ids@ == src.users@.map_values(|u: (u128, String)| u.0),
        table_fits(*src, false, *now_table),
        table_fits(*src, true, *prev_table),
        prev_bonus == src.bonus_before(),
    ensures
        p@ == src.player_of(uid, name@),
{
    let total = total_for(src, uid, false, true);
    let rank = rank_for(src, uid, false, true, now_table);
    let rank_before = rank_for(src, uid, true, prev_bonus, prev_table);
    let started = started_lookup(&src.started_by_user, uid);
    let champion = champion_name(src, uid);
    let champion_view = match &champion {
        Some(n) => Some(ChampionView { team_name: n.clone(), flag_url: String::new() }),
        None => None,
    };
    let today = utc_day(src.now);
    let ctx = BadgeContext {
        user_id: uid,
        now: src.now,
        berlin_today: today,
        finished_predictions: src.finished.as_slice(),
        all_user_ids: member_ids.as_slice(),
        started_matches_total: src.started_total,
        user_started_tips: started,
        actual_champion_id: src.actual_champion,
        all_special_picks: src.special_picks.as_slice(),
        user_champion: champion_view.as_ref(),
    };
    let tendency_pct = percent(TendencyPctBadge.compute(&ctx));
    let discipline_pct = percent(DisciplinePctBadge.compute(&ctx));
    let current_streak = streak(CurrentStreakBadge.compute(&ctx));
    let badges = achievements(&ctx);
    let matchday_points = matchday_points_of(src, uid);
    let matchday_tips = matchday_tips_of(src, uid);
    PlayerInput {
        name: name.clone(),
        total_points: total,
        rank,
        rank_delta: rank_before - rank,
        matchday_points,
        tendency_pct,
        discipline_pct,
        current_streak,
        badges,
        champion_pick: champion,
        matchday_tips,
    }
}

/// Whether `a` comes before `b` in the recap.
fn comes_before(a: &PlayerInput, b: &PlayerInput) -> (r: bool)
    ensures
        r == player_before(a@, b@),
{
    a.rank < b.rank || (a.rank == b.rank && str_less(a.name.as_str(), b.name.as_str()))
}

/// The recap input of one league's matchday: the matchday's finished
/// fixtures in kickoff order; every member's points, competition rank and
/// rank movement over the matchday, matchday points, tip and discipline
/// percentages, current streak, achievements, champion pick and matchday
/// tips; the players in rank order (ties by name); the leader, and the
/// players who climbed and fell most.
pub fn build_report_input(src: &ReportSource) -> (out: ReportInput)
    requires
        src.wf(),
    ensures
        report_fits(out, *src),
{
    let matches = matchday_fixtures(src);
    let mut member_ids: Vec<u128> = Vec::new();
    let mut i: usize = 0;
    while i < src.users.len()
        invariant
            i <= src.users@.len(),
            member_ids@ == src.users@.take(i as int).map_values(|u: (u128, String)| u.0),
        decreases src.users@.len() - i,
    {
        member_ids.push(src.users[i].0);
        assert(member_ids@ =~= src.users@.take(i as int + 1).map_values(|u: (u128, String)| u.0));
        i = i + 1;
    }
    assert(src.users@.take(i as int) =~= src.users@);
    let prev_bonus = match final_day(src) {
        Some(d) => d < src.matchday_date,
        None => false,
    };
    let now_table = standings_table(src, false, true);
    let prev_table = standings_table(src, true, prev_bonus);
    let ghost all = src.players_of();
    let mut players: Vec<PlayerInput> = Vec::new();
    let mut i: usize = 0;
    while i < src.users.len()
        invariant
            i <= src.users@.len(),
            src.wf(),
            all == src.players_of(),
            member_ids@ == src.users@.map_values(|u: (u128, String)| u.0),
            table_fits(*src, false, now_table),
            table_fits(*src, true, prev_table),
            prev_bonus == src.bonus_before(),
            players@.map_values(|p: PlayerInput| p@) == sort_by(all.take(i as int), player_le()),
        decreases src.users@.len() - i,
    {
        assert(all.take(i as int + 1).drop_last() =~= all.take(i as int));
        let p = player_input(src, src.users[i].0, &src.users[i].1, &member_ids, &now_table, &prev_table, prev_bonus);
        assert(all.take(i as int + 1).last() == p@);
        let ghost lines = players@.map_values(|p: PlayerInput| p@);
        let mut cnt: usize = 0;
        let mut k: usize = 0;
        while k < players.len()
            invariant
                k <= players@.len(),
                lines == players@.map_values(|p: PlayerInput| p@),
                cnt <= k,
                cnt == count_by(lines.take(k as int), p@, player_le()),
            decreases players@.len() - k,
        {
            assert(lines.take(k as int + 1).drop_last() =~= lines.take(k as int));
            if !comes_before(&p, &players[k]) {
                cnt = cnt + 1;
            }
            k = k + 1;
        }
        assert(lines.take(k as int) =~= lines);
        let ghost pv = p@;
        players.insert(cnt, p);
        assert(players@.map_values(|p: PlayerInput| p@) =~= lines.insert(cnt as int, pv));
        i = i + 1;
    }
    assert(all.take(i as int) =~= all);
    let ghost views = players@.map_values(|p: PlayerInput| p@);
    let mut leader: Option<String> = None;
    let mut climber: Option<usize> = None;
    let mut faller: Option<usize> = None;
    let mut k: usize = 0;
    while k < players.len()
        invariant
            k <= players@.len(),
            views == players@.map_values(|p: PlayerInput| p@),
            opt_text(leader) == leader_of(views.take(k as int)),
            match climber {
                Some(c) => c < k && climber_of(views.take(k as int)) == Some(views[c as int]),
                None => climber_of(views.take(k as int)) is None,
            },
            match faller {
                Some(c) => c < k && faller_of(views.take(k as int)) == Some(views[c as int]),
                None => faller_of(views.take(k as int)) is None,
            },
        decreases players@.len() - k,
    {
        assert(views.take(k as int + 1).drop_last() =~= views.take(k as int));
        assert(views.take(k as int + 1).last() == players@[k as int]@);
        let p = &players[k];
        if leader.is_none() && p.rank == 1 {
            leader = Some(p.name.clone());
        }
        if p.rank_delta > 0 {
            let take = match climber {
                Some(c) => {
                    let q = &players[c];
                    !(q.rank_delta > p.rank_delta || (q.rank_delta == p.rank_delta && str_less(q.name.as_str(), p.name.as_str())))
                },
                None => true,
            };
            if take {
                climber = Some(k);
            }
        }
        if p.rank_delta < 0 {
            let take = match faller {
                Some(c) => {
                    let q = &players[c];
                    q.rank_delta > p.rank_delta || (q.rank_delta == p.rank_delta && str_less(p.name.as_str(), q.name.as_str()))
                },
                None => true,
            };
            if take {
                faller = Some(k);
            }
        }
        k = k + 1;
    }
    assert(views.take(k as int) =~= views);
    let biggest_climber = match climber {
        Some(c) => Some(players[c].name.clone()),
        None => None,
    };
    let biggest_faller = match faller {
        Some(c) => Some(players[c].name.clone()),
        None => None,
    };
    let scoring_system = if src.scoring_system.is_winner_only() {
        "winner_only"
    } else {
        "exact_score"
    };
    ReportInput {
        matchday_date: iso_date(src.matchday_date),
        scoring_system,
        matches,
        players,
        leader,
        biggest_climber,
        biggest_faller,
    }
}

// ─── Laws ─────────────────────────────────────────────────────────────────────

/// The recap order of players is total and transitive.
pub proof fn lemma_player_le_total_preorder()
    ensures
        total_preorder(player_le()),
{
    assert forall|a: PlayerView, b: PlayerView| #[trigger] player_le()(a, b) || player_le()(b, a) by {
        lemma_lex_lt_total(a.name, b.name);
    }
    assert forall|a: PlayerView, b: PlayerView, c: PlayerView| #[trigger] player_le()(a, b) && #[trigger] player_le()(b, c) implies player_le()(a, c) by {
        let (x, y, z) = (a.name, b.name, c.name);
        lemma_lex_lt_total(x, y);
        lemma_lex_lt_total(y, z);
        lemma_lex_lt_total(x, z);
        if lex_lt(z, x) && lex_lt(x, y) {
            lemma_lex_lt_transitive(z, x, y);
        }
        if lex_lt(y, z) && lex_lt(z, x) {
            lemma_lex_lt_transitive(y, z, x);
        }
    }
}

/// Tips by home team is a total and transitive order.
pub proof fn lemma_tip_le_total_preorder()
    ensures
        total_preorder(tip_le()),
{
    lemma_lex_le_total_preorder();
    assert forall|a: TipView, b: TipView| #[trigger] tip_le()(a, b) || tip_le()(b, a) by {
        assert(lex_le()(a.home, b.home) || lex_le()(b.home, a.home));
    }
    assert forall|a: TipView, b: TipView, c: TipView| #[trigger] tip_le()(a, b) && #[trigger] tip_le()(b, c) implies tip_le()(a, c) by {
        assert(lex_le()(a.home, b.home) && lex_le()(b.home, c.home));
    }
}

/// Kickoff order is total and transitive.
pub proof fn lemma_fixture_le_total_preorder()
    ensures
        total_preorder(fixture_le()),
{
}

/// The recap lists every member exactly once, in rank order (ties by name),
/// each member's matchday tips by home team, and the matchday's fixtures in
/// kickoff order.
pub proof fn lemma_recap_orders(src: ReportSource, out: ReportInput)
    requires
        report_fits(out, src),
    ensures
        sorted_by(out.players@.map_values(|p: PlayerInput| p@), player_le()),
        out.players@.map_values(|p: PlayerInput| p@).to_multiset() == src.players_of().to_multiset(),
        forall|i: int| 0 <= i < out.players@.len() ==> sorted_by((#[trigger] out.players@[i])@.matchday_tips, tip_le()),
        sorted_by(sort_by(fixtures(src, src.summaries@), fixture_le()), fixture_le()),
{
    lemma_player_le_total_preorder();
    lemma_tip_le_total_preorder();
    lemma_fixture_le_total_preorder();
    lemma_sort_by(src.players_of(), player_le());
    lemma_sort_by(fixtures(src, src.summaries@), fixture_le());
    let views = out.players@.map_values(|p: PlayerInput| p@);
    assert forall|i: int| 0 <= i < out.players@.len() implies sorted_by((#[trigger] out.players@[i])@.matchday_tips, tip_le()) by {
        assert(views[i] == out.players@[i]@);
        assert(views.to_multiset().count(views[i]) > 0);
        assert(src.players_of().to_multiset().count(views[i]) > 0);
        assert(src.players_of().contains(views[i]));
        let j = choose|j: int| 0 <= j < src.players_of().len() && src.players_of()[j] == views[i];
        let u = src.users@[j];
        lemma_sort_by(src.tips_of(src.finished@, u.0), tip_le());
    }
}

/// Players with equal points share a rank.
pub proof fn lemma_ties_share_rank(src: ReportSource, a: u128, b: u128, before: bool)
    requires
        src.total_in(a, before) == src.total_in(b, before),
    ensures
        src.rank_in(a, before) == src.rank_in(b, before),
{
    let ids = src.standings_ids(before).to_set();
    assert(ids.filter(|k: u128| src.total_in(k, before) > src.total_in(a, before))
        =~= ids.filter(|k: u128| src.total_in(k, before) > src.total_in(b, before)));
}

/// Of two players in the standings, the one with more points has the
/// better (smaller) rank.
pub proof fn lemma_more_points_better_rank(src: ReportSource, a: u128, b: u128, before: bool)
    requires
        src.standings_ids(before).contains(a),
        src.total_in(a, before) > src.total_in(b, before),
    ensures
        src.rank_in(a, before) < src.rank_in(b, before),
{
    broadcast use vstd::set::group_set_axioms, vstd::seq_lib::seq_to_set_is_finite;
    let ids = src.standings_ids(before).to_set();
    let above_a = ids.filter(|k: u128| src.total_in(k, before) > src.total_in(a, before));
    let above_b = ids.filter(|k: u128| src.total_in(k, before) > src.total_in(b, before));
    assert(ids.contains(a));
    assert(above_b.contains(a));
    assert(!above_a.contains(a));
    assert(above_a.subset_of(above_b.remove(a)));
    vstd::set_lib::lemma_len_subset(above_a, above_b.remove(a));
}

} // verus!
