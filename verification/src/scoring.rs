//! Scoring rules for match and champion predictions.
//!
//! Leagues select a [`MatchScoringSystem`]: the classic exact-score mode
//! (exact result, goal difference, tendency) or the winner-only mode (tip the
//! home win, the away win or, in the group stage, the draw).

use vstd::prelude::*;

use crate::stage::{phase_of, Stage};
use crate::text::{chars_of, chars_eq};

verus! {

/// Setting value of [`MatchScoringSystem::ExactScore`].
pub const EXACT_SCORE_VALUE: &'static str = "exact_score";

/// Setting value of [`MatchScoringSystem::WinnerOnly`].
pub const WINNER_ONLY_VALUE: &'static str = "winner_only";

/// Per-league scoring system for ordinary match predictions.
#[derive(Debug, Clone, Copy, PartialEq, Eq, Structural)]
pub enum MatchScoringSystem {
    /// Classic exact-score mode: exact result, goal difference, tendency.
    ExactScore,
    /// Winner-only mode: tip only home win, away win, or draw in groups.
    WinnerOnly,
}

impl Default for MatchScoringSystem {
    fn default() -> (s: Self)
        ensures
            s == MatchScoringSystem::ExactScore,
    {
        MatchScoringSystem::ExactScore
    }
}

/// The scoring system a stored setting value names, if any.
pub open spec fn system_from_setting(value: Seq<char>) -> Option<MatchScoringSystem> {
    if value == EXACT_SCORE_VALUE@ {
        Some(MatchScoringSystem::ExactScore)
    } else if value == WINNER_ONLY_VALUE@ {
        Some(MatchScoringSystem::WinnerOnly)
    } else {
        None
    }
}

/// The setting value stored for a scoring system.
pub open spec fn setting_of(system: MatchScoringSystem) -> Seq<char> {
    match system {
        MatchScoringSystem::ExactScore => EXACT_SCORE_VALUE@,
        MatchScoringSystem::WinnerOnly => WINNER_ONLY_VALUE@,
    }
}

impl MatchScoringSystem {
    pub fn as_setting_value(self) -> (value: &'static str)
        ensures
            value@ == setting_of(self),
    {
        match self {
            MatchScoringSystem::ExactScore => EXACT_SCORE_VALUE,
            MatchScoringSystem::WinnerOnly => WINNER_ONLY_VALUE,
        }
    }

    pub fn from_setting_value(value: &str) -> (system: Option<Self>)
        ensures
            system == system_from_setting(value@),
    {
        let v = chars_of(value);
        let exact = chars_of(EXACT_SCORE_VALUE);
        if chars_eq(&v, &exact) {
            return Some(MatchScoringSystem::ExactScore);
        }
        let winner = chars_of(WINNER_ONLY_VALUE);
        if chars_eq(&v, &winner) {
            return Some(MatchScoringSystem::WinnerOnly);
        }
        None
    }

    pub fn is_winner_only(self) -> (b: bool)
        ensures
            b == (self == MatchScoringSystem::WinnerOnly),
    {
        match self {
            MatchScoringSystem::WinnerOnly => true,
            MatchScoringSystem::ExactScore => false,
        }
    }
}

/// Match phases used by the scoring tables.
#[derive(Debug, Clone, Copy, PartialEq, Eq, Structural)]
pub enum TournamentPhase {
    Group,
    R32,
    R16,
    QF,
    SF,
    Finals,
}

/// Classic exact-score categories.
#[derive(Debug, Clone, Copy, PartialEq, Eq, Structural)]
pub enum BetCategory {
    Exact,
    Difference,
    Tendency,
    Wrong,
}

/// Winner-only result.
#[derive(Debug, Clone, Copy, PartialEq, Eq, Structural)]
pub enum BetResult {
    Correct,
    Wrong,
}

/// Full result of the classic exact-score scorer.
#[derive(Debug, Clone, Copy, PartialEq, Eq, Structural)]
pub struct ScoringResult {
    pub category: BetCategory,
    pub points: i32,
}

/// Full result of the winner-only scorer.
#[derive(Debug, Clone, Copy, PartialEq, Eq, Structural)]
pub struct WinnerOnlyScoringResult {
    pub result: BetResult,
    pub points: i32,
}

/// Winner-only domain object used to distinguish a real draw from invalid data.
#[derive(Debug, Clone, Copy, PartialEq, Eq, Structural)]
pub enum WinnerSelection {
    Team(i32),
    Draw,
}

/// Winner-only prediction choices stored as canonical pseudo-scores.
#[derive(Debug, Clone, Copy, PartialEq, Eq, Structural)]
pub enum OutcomeBet {
    HomeWin,
    Draw,
    AwayWin,
}

// ─── Mathematical model of the rules ─────────────────────────────────────────

/// Sign of an integer: `1`, `0` or `-1`.
pub open spec fn sign(x: int) -> int {
    if x > 0 {
        1
    } else if x < 0 {
        -1
    } else {
        0
    }
}

/// Category of a bet `bet_home:bet_away` on a match that ended
/// `goals_home:goals_away`: the best of exact result, same goal difference,
/// same outcome (tendency), or wrong.
pub open spec fn bet_category(goals_home: int, goals_away: int, bet_home: int, bet_away: int) -> BetCategory {
    if bet_home == goals_home && bet_away == goals_away {
        BetCategory::Exact
    } else if goals_home - goals_away == bet_home - bet_away {
        BetCategory::Difference
    } else if sign(goals_home - goals_away) == sign(bet_home - bet_away) {
        BetCategory::Tendency
    } else {
        BetCategory::Wrong
    }
}

/// Points matrix of the classic exact-score mode.
pub open spec fn exact_score_points(phase: TournamentPhase, category: BetCategory) -> int {
    match category {
        BetCategory::Wrong => 0,
        BetCategory::Exact => match phase {
            TournamentPhase::Group => 4,
            TournamentPhase::R32 => 6,
            TournamentPhase::R16 => 6,
            TournamentPhase::QF => 8,
            TournamentPhase::SF => 8,
            TournamentPhase::Finals => 11,
        },
        BetCategory::Difference => match phase {
            TournamentPhase::Group => 3,
            TournamentPhase::R32 => 4,
            TournamentPhase::R16 => 4,
            TournamentPhase::QF => 6,
            TournamentPhase::SF => 6,
            TournamentPhase::Finals => 8,
        },
        BetCategory::Tendency => match phase {
            TournamentPhase::Group => 2,
            TournamentPhase::R32 => 3,
            TournamentPhase::R16 => 3,
            TournamentPhase::QF => 5,
            TournamentPhase::SF => 5,
            TournamentPhase::Finals => 6,
        },
    }
}

/// Points of the winner-only mode.
pub open spec fn winner_only_points(phase: TournamentPhase, result: BetResult) -> int {
    match result {
        BetResult::Wrong => 0,
        BetResult::Correct => match phase {
            TournamentPhase::Group => 1,
            TournamentPhase::R32 => 2,
            TournamentPhase::R16 => 3,
            TournamentPhase::QF => 5,
            TournamentPhase::SF => 7,
            TournamentPhase::Finals => 7,
        },
    }
}

/// A team id counts only when it is positive.
pub open spec fn valid_team_id(id: Option<i32>) -> Option<i32> {
    match id {
        Some(x) => if x > 0 { Some(x) } else { None },
        None => None,
    }
}

/// Winner-only result of comparing two team ids; invalid or missing ids are wrong.
pub open spec fn result_by_ids(actual: Option<i32>, predicted: Option<i32>) -> BetResult {
    match (valid_team_id(actual), valid_team_id(predicted)) {
        (Some(a), Some(p)) => if a == p { BetResult::Correct } else { BetResult::Wrong },
        _ => BetResult::Wrong,
    }
}

/// Winner-only result of comparing two selections; `None` is invalid data.
pub open spec fn result_by_selection(actual: Option<WinnerSelection>, predicted: Option<WinnerSelection>) -> BetResult {
    match (actual, predicted) {
        (Some(a), Some(p)) => if a == p { BetResult::Correct } else { BetResult::Wrong },
        _ => BetResult::Wrong,
    }
}

/// The winner selection a score line stands for: team `1` (home) or `2`
/// (away) for a win, a draw only where draws are allowed.
pub open spec fn selection_of(home: int, away: int, allow_draw: bool) -> Option<WinnerSelection> {
    if home > away {
        Some(WinnerSelection::Team(1))
    } else if home < away {
        Some(WinnerSelection::Team(2))
    } else if allow_draw {
        Some(WinnerSelection::Draw)
    } else {
        None
    }
}

/// The outcome bet a stored pseudo-score stands for.
pub open spec fn outcome_of(home: int, away: int, allow_draw: bool) -> Option<OutcomeBet> {
    if home > away {
        Some(OutcomeBet::HomeWin)
    } else if home < away {
        Some(OutcomeBet::AwayWin)
    } else if allow_draw {
        Some(OutcomeBet::Draw)
    } else {
        None
    }
}

/// The canonical pseudo-score stored for an outcome bet.
pub open spec fn stored_scores_of(outcome: OutcomeBet) -> (i32, i32) {
    match outcome {
        OutcomeBet::HomeWin => (1, 0),
        OutcomeBet::Draw => (0, 0),
        OutcomeBet::AwayWin => (0, 1),
    }
}

/// The outcome bet a form value names.
pub open spec fn outcome_from_form(value: Seq<char>, allow_draw: bool) -> Option<OutcomeBet> {
    if value == "home"@ {
        Some(OutcomeBet::HomeWin)
    } else if value == "away"@ {
        Some(OutcomeBet::AwayWin)
    } else if value == "draw"@ && allow_draw {
        Some(OutcomeBet::Draw)
    } else {
        None
    }
}

/// Highest number of points a match of the phase can give under a system.
pub open spec fn max_points(system: MatchScoringSystem, phase: TournamentPhase) -> int {
    match system {
        MatchScoringSystem::ExactScore => exact_score_points(phase, BetCategory::Exact),
        MatchScoringSystem::WinnerOnly => winner_only_points(phase, BetResult::Correct),
    }
}

/// Winner-only result of a match of the given stage; draws only exist in the
/// group stage.
pub open spec fn winner_only_match_result(stage: Stage, actual_h: int, actual_a: int, pred_h: int, pred_a: int) -> BetResult {
    result_by_selection(
        selection_of(actual_h, actual_a, stage == Stage::Group),
        selection_of(pred_h, pred_a, stage == Stage::Group),
    )
}

/// Points of one match prediction under a scoring system.
pub open spec fn match_points(system: MatchScoringSystem, stage: Stage, actual_h: int, actual_a: int, pred_h: int, pred_a: int) -> int {
    match system {
        MatchScoringSystem::ExactScore => exact_score_points(phase_of(stage), bet_category(actual_h, actual_a, pred_h, pred_a)),
        MatchScoringSystem::WinnerOnly => winner_only_points(phase_of(stage), winner_only_match_result(stage, actual_h, actual_a, pred_h, pred_a)),
    }
}

/// Champion bonus: 10 points when the picked team won the cup.
pub open spec fn champion_bonus_points(predicted: Option<i32>, actual: Option<i32>) -> int {
    match (predicted, actual) {
        (Some(p), Some(a)) => if p == a { 10 } else { 0 },
        _ => 0,
    }
}

// ─── Outcome bets ─────────────────────────────────────────────────────────────

impl OutcomeBet {
    pub fn to_stored_scores(self) -> (scores: (i32, i32))
        ensures
            scores == stored_scores_of(self),
    {
        match self {
            OutcomeBet::HomeWin => (1, 0),
            OutcomeBet::Draw => (0, 0),
            OutcomeBet::AwayWin => (0, 1),
        }
    }

    pub fn from_stored_scores(home: i32, away: i32, allow_draw: bool) -> (outcome: Option<Self>)
        ensures
            outcome == outcome_of(home as int, away as int, allow_draw),
    {
        if home > away {
            Some(OutcomeBet::HomeWin)
        } else if home < away {
            Some(OutcomeBet::AwayWin)
        } else if allow_draw {
            Some(OutcomeBet::Draw)
        } else {
            None
        }
    }

    pub fn from_form_value(value: &str, allow_draw: bool) -> (outcome: Option<Self>)
        ensures
            outcome == outcome_from_form(value@, allow_draw),
    {
        let v = chars_of(value);
        if chars_eq(&v, &chars_of("home")) {
            Some(OutcomeBet::HomeWin)
        } else if chars_eq(&v, &chars_of("away")) {
            Some(OutcomeBet::AwayWin)
        } else if allow_draw && chars_eq(&v, &chars_of("draw")) {
            Some(OutcomeBet::Draw)
        } else {
            None
        }
    }
}

// ─── Winner-only service ──────────────────────────────────────────────────────

/// Winner-only service kept separate from the classic exact-score rules.
pub struct WinnerOnlyScoringService;

impl WinnerOnlyScoringService {
    /// Compares two team identifiers. Invalid or missing ids are scored wrong.
    pub fn evaluate_bet_result(actual_winner_id: Option<i32>, predicted_winner_id: Option<i32>) -> (r: BetResult)
        ensures
            r == result_by_ids(actual_winner_id, predicted_winner_id),
    {
        match (normalize_team_id(actual_winner_id), normalize_team_id(predicted_winner_id)) {
            (Some(actual), Some(predicted)) => {
                if actual == predicted {
                    BetResult::Correct
                } else {
                    BetResult::Wrong
                }
            },
            _ => BetResult::Wrong,
        }
    }

    /// Compares explicit winner selections. `None` is treated as invalid data.
    pub fn evaluate_selection(actual: Option<WinnerSelection>, predicted: Option<WinnerSelection>) -> (r: BetResult)
        ensures
            r == result_by_selection(actual, predicted),
    {
        match (actual, predicted) {
            (Some(a), Some(p)) => {
                let same = match (a, p) {
                    (WinnerSelection::Team(x), WinnerSelection::Team(y)) => x == y,
                    (WinnerSelection::Draw, WinnerSelection::Draw) => true,
                    _ => false,
                };
                if same {
                    BetResult::Correct
                } else {
                    BetResult::Wrong
                }
            },
            _ => BetResult::Wrong,
        }
    }

    pub fn calculate_points(phase: TournamentPhase, result: BetResult) -> (points: i32)
        ensures
            points as int == winner_only_points(phase, result),
    {
        match result {
            BetResult::Wrong => 0,
            BetResult::Correct => match phase {
                TournamentPhase::Group => 1,
                TournamentPhase::R32 => 2,
                TournamentPhase::R16 => 3,
                TournamentPhase::QF => 5,
                TournamentPhase::SF => 7,
                TournamentPhase::Finals => 7,
            },
        }
    }

    pub fn score_by_ids(actual_winner_id: Option<i32>, predicted_winner_id: Option<i32>, phase: TournamentPhase) -> (r: WinnerOnlyScoringResult)
        ensures
            r.result == result_by_ids(actual_winner_id, predicted_winner_id),
            r.points as int == winner_only_points(phase, r.result),
    {
        let result = Self::evaluate_bet_result(actual_winner_id, predicted_winner_id);
        let points = Self::calculate_points(phase, result);
        WinnerOnlyScoringResult { result, points }
    }

    pub fn score_selection(actual: Option<WinnerSelection>, predicted: Option<WinnerSelection>, phase: TournamentPhase) -> (r: WinnerOnlyScoringResult)
        ensures
            r.result == result_by_selection(actual, predicted),
            r.points as int == winner_only_points(phase, r.result),
    {
        let result = Self::evaluate_selection(actual, predicted);
        let points = Self::calculate_points(phase, result);
        WinnerOnlyScoringResult { result, points }
    }
}

/// Keeps a team id only when it is positive.
pub fn normalize_team_id(team_id: Option<i32>) -> (r: Option<i32>)
    ensures
        r == valid_team_id(team_id),
{
    match team_id {
        Some(id) => if id > 0 { Some(id) } else { None },
        None => None,
    }
}

pub fn outcome_bet_from_form(value: &str, allow_draw: bool) -> (outcome: Option<OutcomeBet>)
    ensures
        outcome == outcome_from_form(value@, allow_draw),
{
    OutcomeBet::from_form_value(value, allow_draw)
}

pub fn outcome_bet_from_stored_scores(home: i32, away: i32, allow_draw: bool) -> (outcome: Option<OutcomeBet>)
    ensures
        outcome == outcome_of(home as int, away as int, allow_draw),
{
    OutcomeBet::from_stored_scores(home, away, allow_draw)
}

pub fn outcome_bet_to_stored_scores(outcome: OutcomeBet) -> (scores: (i32, i32))
    ensures
        scores == stored_scores_of(outcome),
{
    outcome.to_stored_scores()
}

/// Display label of a winner-only tip: the picked team's name, or `=` for a draw.
pub fn winner_only_prediction_label(outcome: OutcomeBet, home_name: &str, away_name: &str) -> (label: String)
    ensures
        label@ == match outcome {
            OutcomeBet::HomeWin => home_name@,
            OutcomeBet::Draw => "="@,
            OutcomeBet::AwayWin => away_name@,
        },
{
    match outcome {
        OutcomeBet::HomeWin => crate::text::owned(home_name),
        OutcomeBet::Draw => crate::text::owned("="),
        OutcomeBet::AwayWin => crate::text::owned(away_name),
    }
}

/// The winner selection a score line stands for.
pub fn selection_from_scores(home: i32, away: i32, allow_draw: bool) -> (s: Option<WinnerSelection>)
    ensures
        s == selection_of(home as int, away as int, allow_draw),
{
    if home > away {
        Some(WinnerSelection::Team(1))
    } else if home < away {
        Some(WinnerSelection::Team(2))
    } else if allow_draw {
        Some(WinnerSelection::Draw)
    } else {
        None
    }
}

pub fn winner_only_score_match(stage: Stage, actual_h: i32, actual_a: i32, pred_h: i32, pred_a: i32) -> (r: WinnerOnlyScoringResult)
    ensures
        r.result == winner_only_match_result(stage, actual_h as int, actual_a as int, pred_h as int, pred_a as int),
        r.points as int == winner_only_points(phase_of(stage), r.result),
{
    let phase = stage.to_tournament_phase();
    let group = stage == Stage::Group;
    let actual = selection_from_scores(actual_h, actual_a, group);
    let predicted = selection_from_scores(pred_h, pred_a, group);
    WinnerOnlyScoringService::score_selection(actual, predicted, phase)
}

// ─── Classic exact-score mode ────────────────────────────────────────────────

/// Determines the highest applicable `BetCategory` for a classic exact-score bet.
/// Goal differences are computed without overflow.
pub fn evaluate_bet_category(goals_home: i32, goals_away: i32, bet_home: i32, bet_away: i32) -> (c: BetCategory)
    ensures
        c == bet_category(goals_home as int, goals_away as int, bet_home as int, bet_away as int),
{
    if bet_home == goals_home && bet_away == goals_away {
        return BetCategory::Exact;
    }
    let actual_diff: i64 = goals_home as i64 - goals_away as i64;
    let pred_diff: i64 = bet_home as i64 - bet_away as i64;
    if actual_diff == pred_diff {
        return BetCategory::Difference;
    }
    let actual_sign: i64 = if actual_diff > 0 { 1 } else if actual_diff < 0 { -1 } else { 0 };
    let pred_sign: i64 = if pred_diff > 0 { 1 } else if pred_diff < 0 { -1 } else { 0 };
    if actual_sign == pred_sign {
        return BetCategory::Tendency;
    }
    BetCategory::Wrong
}

/// Points matrix for the classic exact-score mode.
pub fn calculate_points(phase: TournamentPhase, category: BetCategory) -> (points: i32)
    ensures
        points as int == exact_score_points(phase, category),
{
    match category {
        BetCategory::Wrong => 0,
        BetCategory::Exact => match phase {
            TournamentPhase::Group => 4,
            TournamentPhase::R32 => 6,
            TournamentPhase::R16 => 6,
            TournamentPhase::QF => 8,
            TournamentPhase::SF => 8,
            TournamentPhase::Finals => 11,
        },
        BetCategory::Difference => match phase {
            TournamentPhase::Group => 3,
            TournamentPhase::R32 => 4,
            TournamentPhase::R16 => 4,
            TournamentPhase::QF => 6,
            TournamentPhase::SF => 6,
            TournamentPhase::Finals => 8,
        },
        BetCategory::Tendency => match phase {
            TournamentPhase::Group => 2,
            TournamentPhase::R32 => 3,
            TournamentPhase::R16 => 3,
            TournamentPhase::QF => 5,
            TournamentPhase::SF => 5,
            TournamentPhase::Finals => 6,
        },
    }
}

pub fn max_points_for_phase_with_system(system: MatchScoringSystem, phase: TournamentPhase) -> (points: i32)
    ensures
        points as int == max_points(system, phase),
{
    match system {
        MatchScoringSystem::ExactScore => calculate_points(phase, BetCategory::Exact),
        MatchScoringSystem::WinnerOnly => WinnerOnlyScoringService::calculate_points(phase, BetResult::Correct),
    }
}

pub fn score_match(phase: TournamentPhase, goals_home: i32, goals_away: i32, bet_home: i32, bet_away: i32) -> (r: ScoringResult)
    ensures
        r.category == bet_category(goals_home as int, goals_away as int, bet_home as int, bet_away as int),
        r.points as int == exact_score_points(phase, r.category),
{
    let category = evaluate_bet_category(goals_home, goals_away, bet_home, bet_away);
    let points = calculate_points(phase, category);
    ScoringResult { category, points }
}

pub fn calculate_match_points_for_system(system: MatchScoringSystem, stage: Stage, actual_h: i32, actual_a: i32, pred_h: i32, pred_a: i32) -> (points: i32)
    ensures
        points as int == match_points(system, stage, actual_h as int, actual_a as int, pred_h as int, pred_a as int),
{
    match system {
        MatchScoringSystem::ExactScore => calculate_match_points(stage, actual_h, actual_a, pred_h, pred_a),
        MatchScoringSystem::WinnerOnly => winner_only_score_match(stage, actual_h, actual_a, pred_h, pred_a).points,
    }
}

/// Exact-score points of one match prediction.
pub fn calculate_match_points(stage: Stage, actual_h: i32, actual_a: i32, pred_h: i32, pred_a: i32) -> (points: i32)
    ensures
        points as int == match_points(MatchScoringSystem::ExactScore, stage, actual_h as int, actual_a as int, pred_h as int, pred_a as int),
{
    score_match(stage.to_tournament_phase(), actual_h, actual_a, pred_h, pred_a).points
}

pub fn max_potential_points_for_system(system: MatchScoringSystem, stage: Stage) -> (points: i32)
    ensures
        points as int == max_points(system, phase_of(stage)),
{
    max_points_for_phase_with_system(system, stage.to_tournament_phase())
}

/// 10 points if the predicted champion matches the actual champion.
pub fn champion_points(predicted: Option<i32>, actual: Option<i32>) -> (points: i32)
    ensures
        points as int == champion_bonus_points(predicted, actual),
{
    match (predicted, actual) {
        (Some(p), Some(a)) => if p == a { 10 } else { 0 },
        _ => 0,
    }
}

// ─── Laws ─────────────────────────────────────────────────────────────────────

/// In every phase an exact hit is worth at least a goal-difference hit, which
/// is worth at least a tendency hit, and a wrong tip is worth nothing.
pub proof fn lemma_categories_are_ordered(phase: TournamentPhase)
    ensures
        exact_score_points(phase, BetCategory::Exact) >= exact_score_points(phase, BetCategory::Difference),
        exact_score_points(phase, BetCategory::Difference) >= exact_score_points(phase, BetCategory::Tendency),
        exact_score_points(phase, BetCategory::Tendency) > exact_score_points(phase, BetCategory::Wrong),
        exact_score_points(phase, BetCategory::Wrong) == 0,
        winner_only_points(phase, BetResult::Correct) > winner_only_points(phase, BetResult::Wrong),
        winner_only_points(phase, BetResult::Wrong) == 0,
{
}

/// The points of any match prediction lie between zero and the maximum the
/// leaderboard counts as still achievable for that stage.
pub proof fn lemma_match_points_within_max(system: MatchScoringSystem, stage: Stage, actual_h: int, actual_a: int, pred_h: int, pred_a: int)
    ensures
        0 <= match_points(system, stage, actual_h, actual_a, pred_h, pred_a),
        match_points(system, stage, actual_h, actual_a, pred_h, pred_a) <= max_points(system, phase_of(stage)),
{
}

/// The maximum of a phase is reached exactly by the exact result (classic
/// mode) or the correct winner (winner-only mode).
pub proof fn lemma_max_reached_by_exact_tip(system: MatchScoringSystem, stage: Stage, actual_h: int, actual_a: int)
    requires
        system == MatchScoringSystem::WinnerOnly ==> (stage == Stage::Group || actual_h != actual_a),
    ensures
        match_points(system, stage, actual_h, actual_a, actual_h, actual_a) == max_points(system, phase_of(stage)),
{
}

/// A stored winner-only tip reads back as the same tip, wherever it is
/// allowed (draws only where draws are allowed).
pub proof fn lemma_outcome_round_trip(outcome: OutcomeBet, allow_draw: bool)
    requires
        outcome == OutcomeBet::Draw ==> allow_draw,
    ensures
        outcome_of(stored_scores_of(outcome).0 as int, stored_scores_of(outcome).1 as int, allow_draw) == Some(outcome),
{
}

/// Reading a stored pseudo-score and storing it again gives a score line with
/// the same outcome.
pub proof fn lemma_stored_outcome_keeps_tendency(home: int, away: int, allow_draw: bool)
    requires
        outcome_of(home, away, allow_draw) is Some,
    ensures
        sign(stored_scores_of(outcome_of(home, away, allow_draw)->0).0 - stored_scores_of(outcome_of(home, away, allow_draw)->0).1) == sign(home - away),
{
}

/// Swapping home and away in both the result and the bet does not change the
/// category.
pub proof fn lemma_category_mirror(goals_home: int, goals_away: int, bet_home: int, bet_away: int)
    ensures
        bet_category(goals_home, goals_away, bet_home, bet_away) == bet_category(goals_away, goals_home, bet_away, bet_home),
{
}

/// The two systems agree on who called the outcome: a winner-only tip is
/// correct exactly when the same score line scores in the classic mode,
/// except that knockout draws are never a valid selection.
pub proof fn lemma_systems_agree_on_outcome(stage: Stage, actual_h: int, actual_a: int, pred_h: int, pred_a: int)
    ensures
        stage == Stage::Group ==> (
            winner_only_match_result(stage, actual_h, actual_a, pred_h, pred_a) == BetResult::Correct
                <==> bet_category(actual_h, actual_a, pred_h, pred_a) != BetCategory::Wrong),
        stage != Stage::Group ==> (
            winner_only_match_result(stage, actual_h, actual_a, pred_h, pred_a) == BetResult::Correct
                <==> (bet_category(actual_h, actual_a, pred_h, pred_a) != BetCategory::Wrong && actual_h != actual_a && pred_h != pred_a)),
{
}

/// The champion bonus is either nothing or the full ten points.
pub proof fn lemma_champion_bonus_values(predicted: Option<i32>, actual: Option<i32>)
    ensures
        champion_bonus_points(predicted, actual) == 0 || champion_bonus_points(predicted, actual) == 10,
        champion_bonus_points(predicted, actual) == 10 <==> (predicted is Some && predicted == actual),
{
}


/// Classic categories, read off the result and the tip: the exact score is
/// `Exact`; otherwise the right goal difference is `Difference` (a draw tip on
/// a draw included); otherwise the right winner (or a draw on a draw) is
/// `Tendency`; anything else is `Wrong`.
pub proof fn lemma_category_by_margin(goals_home: int, goals_away: int, bet_home: int, bet_away: int)
    ensures
        bet_home == goals_home && bet_away == goals_away
            ==> bet_category(goals_home, goals_away, bet_home, bet_away) == BetCategory::Exact,
        !(bet_home == goals_home && bet_away == goals_away) && goals_home - goals_away == bet_home - bet_away
            ==> bet_category(goals_home, goals_away, bet_home, bet_away) == BetCategory::Difference,
        goals_home - goals_away != bet_home - bet_away
            && ((goals_home > goals_away && bet_home > bet_away) || (goals_home < goals_away && bet_home < bet_away))
            ==> bet_category(goals_home, goals_away, bet_home, bet_away) == BetCategory::Tendency,
        ((goals_home > goals_away) != (bet_home > bet_away) || (goals_home < goals_away) != (bet_home < bet_away))
            ==> bet_category(goals_home, goals_away, bet_home, bet_away) == BetCategory::Wrong,
{
}

/// In the classic mode a tip that is not exact but has the right goal
/// difference earns the difference points of its phase: 3 in the group
/// stage, 4 in the rounds of 32 and 16, 6 in the quarter- and semi-finals,
/// 8 in the final and the third-place play-off.
pub proof fn lemma_difference_points(stage: Stage, goals_home: int, goals_away: int, bet_home: int, bet_away: int)
    requires
        !(bet_home == goals_home && bet_away == goals_away),
        goals_home - goals_away == bet_home - bet_away,
    ensures
        match_points(MatchScoringSystem::ExactScore, stage, goals_home, goals_away, bet_home, bet_away) == match stage {
            Stage::Group => 3int,
            Stage::RoundOf32 | Stage::RoundOf16 => 4int,
            Stage::QuarterFinal | Stage::SemiFinal => 6int,
            Stage::ThirdPlace | Stage::Final => 8int,
        },
{
    lemma_category_by_margin(goals_home, goals_away, bet_home, bet_away);
}


/// In the classic mode a later stage never earns fewer points for the same
/// result and tip.
pub proof fn lemma_later_stages_weigh_more(s1: Stage, s2: Stage, goals_home: int, goals_away: int, bet_home: int, bet_away: int)
    requires
        crate::stage::stage_rank(s1) <= crate::stage::stage_rank(s2),
    ensures
        match_points(MatchScoringSystem::ExactScore, s1, goals_home, goals_away, bet_home, bet_away)
            <= match_points(MatchScoringSystem::ExactScore, s2, goals_home, goals_away, bet_home, bet_away),
{
}

/// In the winner-only mode the right winner always earns points and the
/// wrong winner never does; a draw scores only in the group stage.
pub proof fn lemma_winner_only_rewards_right_winner(stage: Stage, goals_home: int, goals_away: int, bet_home: int, bet_away: int)
    ensures
        ((goals_home > goals_away && bet_home > bet_away) || (goals_home < goals_away && bet_home < bet_away))
            ==> match_points(MatchScoringSystem::WinnerOnly, stage, goals_home, goals_away, bet_home, bet_away) > 0,
        ((goals_home > goals_away && bet_home <= bet_away) || (goals_home < goals_away && bet_home >= bet_away))
            ==> match_points(MatchScoringSystem::WinnerOnly, stage, goals_home, goals_away, bet_home, bet_away) == 0,
        goals_home == goals_away && bet_home == bet_away
            ==> (match_points(MatchScoringSystem::WinnerOnly, stage, goals_home, goals_away, bet_home, bet_away) > 0
                <==> stage == Stage::Group),
{
}


/// The stored setting of a scoring system reads back as that system, and a
/// setting that reads as a system is that system's stored value.
pub proof fn lemma_scoring_setting_round_trip(system: MatchScoringSystem, value: Seq<char>)
    ensures
        system_from_setting(setting_of(system)) == Some(system),
        system_from_setting(value) == Some(system) ==> value == setting_of(system),
{
    reveal_strlit("exact_score");
    reveal_strlit("winner_only");
    assert(EXACT_SCORE_VALUE@ != WINNER_ONLY_VALUE@) by {
        assert(EXACT_SCORE_VALUE@[0] != WINNER_ONLY_VALUE@[0]);
    }
}

/// A winner bet by team id is right exactly when both ids are real (positive)
/// and the same.
pub proof fn lemma_bet_by_ids(actual: Option<i32>, predicted: Option<i32>)
    ensures
        result_by_ids(actual, predicted) == BetResult::Correct
            <==> (actual matches Some(a) && a > 0 && predicted == Some(a)),
{
}


/// The classic points a tip earns, read off the result and the tip: an exact
/// tip earns 4, 6, 8 or 11 points (group stage; rounds of 32 and 16; quarter-
/// and semi-finals; final and third place), the right winner with the wrong
/// margin 2, 3, 5 or 6, and a tip on the wrong winner nothing.
pub proof fn lemma_classic_points_table(stage: Stage, goals_home: int, goals_away: int, bet_home: int, bet_away: int)
    ensures
        bet_home == goals_home && bet_away == goals_away
            ==> match_points(MatchScoringSystem::ExactScore, stage, goals_home, goals_away, bet_home, bet_away) == match stage {
                Stage::Group => 4int,
                Stage::RoundOf32 | Stage::RoundOf16 => 6int,
                Stage::QuarterFinal | Stage::SemiFinal => 8int,
                Stage::ThirdPlace | Stage::Final => 11int,
            },
        goals_home - goals_away != bet_home - bet_away
            && ((goals_home > goals_away && bet_home > bet_away) || (goals_home < goals_away && bet_home < bet_away))
            ==> match_points(MatchScoringSystem::ExactScore, stage, goals_home, goals_away, bet_home, bet_away) == match stage {
                Stage::Group => 2int,
                Stage::RoundOf32 | Stage::RoundOf16 => 3int,
                Stage::QuarterFinal | Stage::SemiFinal => 5int,
                Stage::ThirdPlace | Stage::Final => 6int,
            },
        ((goals_home > goals_away) != (bet_home > bet_away) || (goals_home < goals_away) != (bet_home < bet_away))
            ==> match_points(MatchScoringSystem::ExactScore, stage, goals_home, goals_away, bet_home, bet_away) == 0,
{
    lemma_category_by_margin(goals_home, goals_away, bet_home, bet_away);
}

/// The winner-only points for the right winner: 1 in the group stage, 2 in
/// the round of 32, 3 in the round of 16, 5 in the quarter-finals and 7 from
/// the semi-finals on.
pub proof fn lemma_winner_only_points_table(stage: Stage, goals_home: int, goals_away: int, bet_home: int, bet_away: int)
    ensures
        ((goals_home > goals_away && bet_home > bet_away) || (goals_home < goals_away && bet_home < bet_away))
            ==> match_points(MatchScoringSystem::WinnerOnly, stage, goals_home, goals_away, bet_home, bet_away) == match stage {
                Stage::Group => 1int,
                Stage::RoundOf32 => 2int,
                Stage::RoundOf16 => 3int,
                Stage::QuarterFinal => 5int,
                Stage::SemiFinal | Stage::ThirdPlace | Stage::Final => 7int,
            },
{
}

} // verus!
