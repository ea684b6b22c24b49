use pila::scoring::MatchScoringSystem;
use pila::stage::Stage;
use pila::tipping::{check_champion_pick, check_tip_allowed, normalize_prediction, MatchLockInfo, PredictionForm, TipRejection};

fn info(stage: Stage, kickoff: Option<i64>) -> MatchLockInfo {
    MatchLockInfo {
        kickoff_time: kickoff,
        team_home_id: Some(1),
        team_away_id: Some(2),
        stage,
        home_name: "A".into(),
        away_name: "B".into(),
        home_flag_code: None,
        away_flag_code: None,
    }
}

#[test]
fn tip_window_rules() {
    assert_eq!(check_tip_allowed(&info(Stage::Group, Some(100)), false, 50), Ok(true));
    assert_eq!(check_tip_allowed(&info(Stage::Final, None), false, 50), Ok(false));
    assert_eq!(check_tip_allowed(&info(Stage::Group, Some(100)), false, 101), Err(TipRejection::MatchLocked));
    assert_eq!(check_tip_allowed(&info(Stage::Group, Some(100)), true, 50), Err(TipRejection::GroupStageDisabled));
    let mut tbd = info(Stage::RoundOf16, Some(100));
    tbd.team_away_id = None;
    assert_eq!(check_tip_allowed(&tbd, false, 50), Err(TipRejection::MatchNotFixed));
}

#[test]
fn scores_are_checked() {
    let f = |h: Option<i32>, a: Option<i32>| PredictionForm { score_home: h, score_away: a, outcome: String::new() };
    assert_eq!(normalize_prediction(MatchScoringSystem::ExactScore, &f(Some(2), Some(1)), true), Ok((2, 1)));
    assert_eq!(normalize_prediction(MatchScoringSystem::ExactScore, &f(None, Some(1)), true), Err(TipRejection::HomeMissing));
    assert_eq!(normalize_prediction(MatchScoringSystem::ExactScore, &f(Some(1), None), true), Err(TipRejection::AwayMissing));
    assert_eq!(normalize_prediction(MatchScoringSystem::ExactScore, &f(Some(21), Some(1)), true), Err(TipRejection::OutOfRange));
    assert_eq!(normalize_prediction(MatchScoringSystem::ExactScore, &f(Some(0), Some(-1)), true), Err(TipRejection::OutOfRange));
    assert_eq!(TipRejection::OutOfRange.key(), "error-prediction-out-of-range");
}

#[test]
fn outcomes_are_stored_as_score_lines() {
    let f = |o: &str| PredictionForm { score_home: None, score_away: None, outcome: o.into() };
    assert_eq!(normalize_prediction(MatchScoringSystem::WinnerOnly, &f(" home "), false), Ok((1, 0)));
    assert_eq!(normalize_prediction(MatchScoringSystem::WinnerOnly, &f("away"), false), Ok((0, 1)));
    assert_eq!(normalize_prediction(MatchScoringSystem::WinnerOnly, &f("draw"), true), Ok((0, 0)));
    assert_eq!(normalize_prediction(MatchScoringSystem::WinnerOnly, &f("draw"), false), Err(TipRejection::PredictionOutcome));
}

#[test]
fn champion_pick_rules() {
    assert_eq!(check_champion_pick(Some(100), 50, Some(3), true), Ok(()));
    assert_eq!(check_champion_pick(Some(100), 150, Some(3), true), Err(TipRejection::ChampionLocked));
    assert_eq!(check_champion_pick(None, 150, Some(3), false), Err(TipRejection::UnknownTeam));
    assert_eq!(check_champion_pick(None, 150, None, false), Ok(()));
}
