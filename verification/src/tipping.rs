//! The rules a tip or a champion pick is checked by before it is stored.
//!
//! A match can be tipped while both teams are known and it has not kicked
//! off; in knockout-only leagues group matches cannot be tipped at all. In
//! the winner-only system the form names an outcome, which is stored as a
//! canonical score line; otherwise both scores between 0 and 20 are needed.
//! The champion can be picked until the tournament's first counting kickoff.

use vstd::prelude::*;

use crate::scoring::{outcome_from_form, stored_scores_of, MatchScoringSystem};
use crate::stage::Stage;
use crate::text::{chars_of, string_of, trim, trim_of};

verus! {

/// What the tip check needs to know of a match.
#[derive(Debug, Clone)]
pub struct MatchLockInfo {
    pub kickoff_time: Option<i64>,
    pub team_home_id: Option<i32>,
    pub team_away_id: Option<i32>,
    pub stage: Stage,
    pub home_name: String,
    pub away_name: String,
    pub home_flag_code: Option<String>,
    pub away_flag_code: Option<String>,
}

/// Why a tip or pick was refused.
#[derive(Debug, Clone, Copy, PartialEq, Eq, Structural)]
pub enum TipRejection {
    MatchNotFixed,
    GroupStageDisabled,
    MatchLocked,
    PredictionOutcome,
    HomeMissing,
    AwayMissing,
    OutOfRange,
    ChampionLocked,
    UnknownTeam,
}

/// Translation key of a refusal.
pub open spec fn rejection_key_of(r: TipRejection) -> Seq<char> {
    match r {
        TipRejection::MatchNotFixed => "error-match-not-fixed"@,
        TipRejection::GroupStageDisabled => "error-group-stage-disabled"@,
        TipRejection::MatchLocked => "error-match-locked"@,
        TipRejection::PredictionOutcome => "error-prediction-outcome"@,
        TipRejection::HomeMissing => "error-prediction-home-missing"@,
        TipRejection::AwayMissing => "error-prediction-away-missing"@,
        TipRejection::OutOfRange => "error-prediction-out-of-range"@,
        TipRejection::ChampionLocked => "error-champion-locked"@,
        TipRejection::UnknownTeam => "error-unknown-team"@,
    }
}

impl TipRejection {
    pub fn key(&self) -> (k: &'static str)
        ensures
            k@ == rejection_key_of(*self),
    {
        match self {
            TipRejection::MatchNotFixed => "error-match-not-fixed",
            TipRejection::GroupStageDisabled => "error-group-stage-disabled",
            TipRejection::MatchLocked => "error-match-locked",
            TipRejection::PredictionOutcome => "error-prediction-outcome",
            TipRejection::HomeMissing => "error-prediction-home-missing",
            TipRejection::AwayMissing => "error-prediction-away-missing",
            TipRejection::OutOfRange => "error-prediction-out-of-range",
            TipRejection::ChampionLocked => "error-champion-locked",
            TipRejection::UnknownTeam => "error-unknown-team",
        }
    }
}

/// Whether a match can be tipped now; when it can, whether a draw may be
/// tipped (only in the group stage).
pub open spec fn tip_window(m: MatchLockInfo, knockout_only: bool, now: i64) -> Result<bool, TipRejection> {
    if m.team_home_id is None || m.team_away_id is None {
        Err(TipRejection::MatchNotFixed)
    } else if knockout_only && m.stage == Stage::Group {
        Err(TipRejection::GroupStageDisabled)
    } else if m.kickoff_time matches Some(k) && k < now {
        Err(TipRejection::MatchLocked)
    } else {
        Ok(m.stage == Stage::Group)
    }
}

/// Checks that a match can be tipped now.
pub fn check_tip_allowed(m: &MatchLockInfo, knockout_only: bool, now: i64) -> (r: Result<bool, TipRejection>)
    ensures
        r == tip_window(*m, knockout_only, now),
{
    if m.team_home_id.is_none() || m.team_away_id.is_none() {
        return Err(TipRejection::MatchNotFixed);
    }
    if knockout_only && m.stage == Stage::Group {
        return Err(TipRejection::GroupStageDisabled);
    }
    if let Some(k) = m.kickoff_time {
        if k < now {
            return Err(TipRejection::MatchLocked);
        }
    }
    Ok(m.stage == Stage::Group)
}

/// A submitted tip.
#[derive(Debug, Clone)]
pub struct PredictionForm {
    pub score_home: Option<i32>,
    pub score_away: Option<i32>,
    pub outcome: String,
}

/// The score line a tip is stored as.
pub open spec fn stored_tip(system: MatchScoringSystem, form: PredictionForm, allow_draw: bool) -> Result<(i32, i32), TipRejection> {
    if system == MatchScoringSystem::WinnerOnly {
        match outcome_from_form(trim_of(form.outcome@), allow_draw) {
            Some(o) => Ok(stored_scores_of(o)),
            None => Err(TipRejection::PredictionOutcome),
        }
    } else {
        match (form.score_home, form.score_away) {
            (None, _) => Err(TipRejection::HomeMissing),
            (Some(_), None) => Err(TipRejection::AwayMissing),
            (Some(h), Some(a)) => if 0 <= h <= 20 && 0 <= a <= 20 {
                Ok((h, a))
            } else {
                Err(TipRejection::OutOfRange)
            },
        }
    }
}

/// The score line a submitted tip is stored as.
pub fn normalize_prediction(system: MatchScoringSystem, form: &PredictionForm, allow_draw_prediction: bool) -> (r: Result<(i32, i32), TipRejection>)
    ensures
        r == stored_tip(system, *form, allow_draw_prediction),
{
    if system == MatchScoringSystem::WinnerOnly {
        let c = chars_of(form.outcome.as_str());
        let t = trim(&c);
        let outcome = string_of(&t);
        return match crate::scoring::outcome_bet_from_form(outcome.as_str(), allow_draw_prediction) {
            Some(o) => Ok(crate::scoring::outcome_bet_to_stored_scores(o)),
            None => Err(TipRejection::PredictionOutcome),
        };
    }
    let score_home = match form.score_home {
        Some(h) => h,
        None => {
            return Err(TipRejection::HomeMissing);
        },
    };
    let score_away = match form.score_away {
        Some(a) => a,
        None => {
            return Err(TipRejection::AwayMissing);
        },
    };
    if !(0 <= score_home && score_home <= 20) || !(0 <= score_away && score_away <= 20) {
        return Err(TipRejection::OutOfRange);
    }
    Ok((score_home, score_away))
}

/// A submitted champion pick (`None` withdraws it).
#[derive(Debug, Clone)]
pub struct SpecialPredictionForm {
    pub champion_id: Option<i32>,
}

/// Whether a champion pick can be stored: only before the first counting
/// kickoff, and only naming a real team (`team_known` says whether the
/// named team is one).
pub open spec fn pick_check(first_kickoff: Option<i64>, now: i64, champion_id: Option<i32>, team_known: bool) -> Result<(), TipRejection> {
    if first_kickoff matches Some(k) && k < now {
        Err(TipRejection::ChampionLocked)
    } else if champion_id is Some && !team_known {
        Err(TipRejection::UnknownTeam)
    } else {
        Ok(())
    }
}

/// Checks a champion pick.
pub fn check_champion_pick(first_kickoff: Option<i64>, now: i64, champion_id: Option<i32>, team_known: bool) -> (r: Result<(), TipRejection>)
    ensures
        r == pick_check(first_kickoff, now, champion_id, team_known),
{
    if let Some(k) = first_kickoff {
        if k < now {
            return Err(TipRejection::ChampionLocked);
        }
    }
    if champion_id.is_some() && !team_known {
        return Err(TipRejection::UnknownTeam);
    }
    Ok(())
}

// ─── Laws ─────────────────────────────────────────────────────────────────────

/// A stored tip is a valid score line of its system: in the winner-only
/// system one of the canonical lines, and a draw only where draws may be
/// tipped; otherwise both scores between 0 and 20.
pub proof fn lemma_stored_tip_valid(system: MatchScoringSystem, form: PredictionForm, allow_draw: bool)
    ensures
        stored_tip(system, form, allow_draw) matches Ok(s) ==> (
            if system == MatchScoringSystem::WinnerOnly {
                (s == (1i32, 0i32) || s == (0i32, 1i32) || (allow_draw && s == (0i32, 0i32)))
            } else {
                0 <= s.0 <= 20 && 0 <= s.1 <= 20
            }),
{
}

/// A match that can be tipped has both teams and has not kicked off.
pub proof fn lemma_open_match_not_started(m: MatchLockInfo, knockout_only: bool, now: i64)
    ensures
        tip_window(m, knockout_only, now) is Ok ==> (
            m.team_home_id is Some && m.team_away_id is Some
            && !(m.kickoff_time matches Some(k) && k < now)
            && !(knockout_only && m.stage == Stage::Group)),
{
}


/// Whenever a match can be tipped, a draw may be tipped exactly in the group
/// stage, never in a knockout match; a match whose teams are unknown, or that
/// has kicked off, cannot be tipped.
pub proof fn lemma_draws_only_in_group_stage(m: MatchLockInfo, knockout_only: bool, now: i64)
    ensures
        tip_window(m, knockout_only, now) matches Ok(d) ==> (d <==> m.stage == Stage::Group),
        m.stage != Stage::Group ==> !(tip_window(m, knockout_only, now) matches Ok(true)),
        (m.team_home_id is None || m.team_away_id is None) ==> tip_window(m, knockout_only, now) is Err,
        (m.kickoff_time matches Some(k) && k < now) ==> tip_window(m, knockout_only, now) is Err,
{
}


/// In the classic mode a tip is stored exactly as submitted when both scores
/// lie between 0 and 20, and refused otherwise; it never changes the score.
pub proof fn lemma_classic_tip_stored_as_given(form: PredictionForm, allow_draw: bool)
    ensures
        (form.score_home matches Some(h) && form.score_away matches Some(a) && 0 <= h <= 20 && 0 <= a <= 20)
            ==> stored_tip(MatchScoringSystem::ExactScore, form, allow_draw) == Ok::<(i32, i32), TipRejection>((form.score_home.unwrap(), form.score_away.unwrap())),
        stored_tip(MatchScoringSystem::ExactScore, form, allow_draw) matches Ok(p)
            ==> Some(p.0) == form.score_home && Some(p.1) == form.score_away,
        form.score_home is None ==> stored_tip(MatchScoringSystem::ExactScore, form, allow_draw) is Err,
        form.score_away is None ==> stored_tip(MatchScoringSystem::ExactScore, form, allow_draw) is Err,
{
}


/// The champion pick closes when the first match has kicked off; before that
/// any known team may be picked and the pick may be cleared, and an unknown
/// team is refused.
pub proof fn lemma_champion_pick_window(first_kickoff: Option<i64>, now: i64, champion_id: Option<i32>, team_known: bool)
    ensures
        (first_kickoff matches Some(k) && k < now) ==> pick_check(first_kickoff, now, champion_id, team_known) == Err::<(), TipRejection>(TipRejection::ChampionLocked),
        !(first_kickoff matches Some(k) && k < now) && (champion_id is None || team_known)
            ==> pick_check(first_kickoff, now, champion_id, team_known) is Ok,
        champion_id is Some && !team_known ==> pick_check(first_kickoff, now, champion_id, team_known) is Err,
{
}

} // verus!
