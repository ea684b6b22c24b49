use pila::scoring::{
    calculate_match_points, calculate_match_points_for_system, calculate_points, champion_points,
    evaluate_bet_category, max_potential_points_for_system, outcome_bet_from_stored_scores,
    outcome_bet_to_stored_scores, score_match, winner_only_score_match, BetCategory, BetResult,
    MatchScoringSystem, OutcomeBet, ScoringResult, TournamentPhase, WinnerOnlyScoringResult,
    WinnerOnlyScoringService, WinnerSelection,
};
use pila::stage::Stage;

#[test]
fn evaluate_bet_category_returns_exact_for_identical_score() {
    assert_eq!(evaluate_bet_category(2, 1, 2, 1), BetCategory::Exact);
}
#[test]
fn evaluate_bet_category_returns_difference_for_same_goal_diff() {
    assert_eq!(evaluate_bet_category(3, 2, 2, 1), BetCategory::Difference);
}
#[test]
fn evaluate_bet_category_returns_tendency_for_same_match_outcome() {
    assert_eq!(evaluate_bet_category(4, 1, 2, 0), BetCategory::Tendency);
}
#[test]
fn evaluate_bet_category_returns_wrong_for_opposite_outcome() {
    assert_eq!(evaluate_bet_category(1, 2, 2, 1), BetCategory::Wrong);
}
#[test]
fn calculate_points_returns_group_exact_value() {
    assert_eq!(
        calculate_points(TournamentPhase::Group, BetCategory::Exact),
        4
    );
}
#[test]
fn calculate_points_returns_round_of_16_tendency_value() {
    assert_eq!(
        calculate_points(TournamentPhase::R16, BetCategory::Tendency),
        3
    );
}
#[test]
fn calculate_points_returns_finals_difference_value() {
    assert_eq!(
        calculate_points(TournamentPhase::Finals, BetCategory::Difference),
        8
    );
}
#[test]
fn score_match_returns_category_and_points() {
    let result = score_match(TournamentPhase::QF, 3, 2, 1, 0);
    assert_eq!(
        result,
        ScoringResult {
            category: BetCategory::Difference,
            points: 6,
        }
    );
}
#[test]
fn calculate_match_points_keeps_legacy_exact_score_behavior() {
    assert_eq!(calculate_match_points(Stage::Final, 5, 4, 5, 4), 11);
}
#[test]
fn max_potential_points_for_exact_score_semi_final() {
    assert_eq!(
        max_potential_points_for_system(MatchScoringSystem::ExactScore, Stage::SemiFinal),
        8
    );
}
#[test]
fn evaluate_bet_result_returns_correct_for_matching_team_ids() {
    assert_eq!(
        WinnerOnlyScoringService::evaluate_bet_result(Some(11), Some(11)),
        BetResult::Correct
    );
}
#[test]
fn evaluate_bet_result_returns_wrong_for_different_team_ids() {
    assert_eq!(
        WinnerOnlyScoringService::evaluate_bet_result(Some(11), Some(22)),
        BetResult::Wrong
    );
}
#[test]
fn evaluate_bet_result_returns_wrong_for_none_values() {
    assert_eq!(
        WinnerOnlyScoringService::evaluate_bet_result(None, None),
        BetResult::Wrong
    );
}
#[test]
fn evaluate_bet_result_returns_wrong_for_invalid_team_ids() {
    assert_eq!(
        WinnerOnlyScoringService::evaluate_bet_result(Some(-1), Some(-1)),
        BetResult::Wrong
    );
}
#[test]
fn score_selection_returns_group_point_for_correct_home_win() {
    let result = WinnerOnlyScoringService::score_selection(
        Some(WinnerSelection::Team(1)),
        Some(WinnerSelection::Team(1)),
        TournamentPhase::Group,
    );
    assert_eq!(
        result,
        WinnerOnlyScoringResult {
            result: BetResult::Correct,
            points: 1,
        }
    );
}
#[test]
fn score_selection_returns_group_point_for_correct_draw() {
    let result = WinnerOnlyScoringService::score_selection(
        Some(WinnerSelection::Draw),
        Some(WinnerSelection::Draw),
        TournamentPhase::Group,
    );
    assert_eq!(
        result,
        WinnerOnlyScoringResult {
            result: BetResult::Correct,
            points: 1,
        }
    );
}
#[test]
fn score_by_ids_returns_two_points_for_correct_r32_tip() {
    let result =
        WinnerOnlyScoringService::score_by_ids(Some(10), Some(10), TournamentPhase::R32);
    assert_eq!(
        result,
        WinnerOnlyScoringResult {
            result: BetResult::Correct,
            points: 2,
        }
    );
}
#[test]
fn score_by_ids_returns_three_points_for_correct_r16_tip() {
    let result =
        WinnerOnlyScoringService::score_by_ids(Some(10), Some(10), TournamentPhase::R16);
    assert_eq!(
        result,
        WinnerOnlyScoringResult {
            result: BetResult::Correct,
            points: 3,
        }
    );
}
#[test]
fn score_by_ids_returns_five_points_for_correct_qf_tip() {
    let result =
        WinnerOnlyScoringService::score_by_ids(Some(10), Some(10), TournamentPhase::QF);
    assert_eq!(
        result,
        WinnerOnlyScoringResult {
            result: BetResult::Correct,
            points: 5,
        }
    );
}
#[test]
fn score_by_ids_returns_seven_points_for_correct_sf_tip() {
    let result =
        WinnerOnlyScoringService::score_by_ids(Some(10), Some(10), TournamentPhase::SF);
    assert_eq!(
        result,
        WinnerOnlyScoringResult {
            result: BetResult::Correct,
            points: 7,
        }
    );
}
#[test]
fn score_by_ids_returns_seven_points_for_correct_finals_tip() {
    let result =
        WinnerOnlyScoringService::score_by_ids(Some(10), Some(10), TournamentPhase::Finals);
    assert_eq!(
        result,
        WinnerOnlyScoringResult {
            result: BetResult::Correct,
            points: 7,
        }
    );
}
#[test]
fn wrong_tip_returns_zero_points_in_group_phase() {
    let result = WinnerOnlyScoringService::score_selection(
        Some(WinnerSelection::Draw),
        Some(WinnerSelection::Team(1)),
        TournamentPhase::Group,
    );
    assert_eq!(
        result,
        WinnerOnlyScoringResult {
            result: BetResult::Wrong,
            points: 0,
        }
    );
}
#[test]
fn wrong_tip_returns_zero_points_in_r32() {
    let result =
        WinnerOnlyScoringService::score_by_ids(Some(11), Some(22), TournamentPhase::R32);
    assert_eq!(
        result,
        WinnerOnlyScoringResult {
            result: BetResult::Wrong,
            points: 0,
        }
    );
}
#[test]
fn wrong_tip_returns_zero_points_in_r16() {
    let result =
        WinnerOnlyScoringService::score_by_ids(Some(11), Some(22), TournamentPhase::R16);
    assert_eq!(
        result,
        WinnerOnlyScoringResult {
            result: BetResult::Wrong,
            points: 0,
        }
    );
}
#[test]
fn wrong_tip_returns_zero_points_in_qf() {
    let result =
        WinnerOnlyScoringService::score_by_ids(Some(11), Some(22), TournamentPhase::QF);
    assert_eq!(
        result,
        WinnerOnlyScoringResult {
            result: BetResult::Wrong,
            points: 0,
        }
    );
}
#[test]
fn wrong_tip_returns_zero_points_in_sf() {
    let result =
        WinnerOnlyScoringService::score_by_ids(Some(11), Some(22), TournamentPhase::SF);
    assert_eq!(
        result,
        WinnerOnlyScoringResult {
            result: BetResult::Wrong,
            points: 0,
        }
    );
}
#[test]
fn wrong_tip_returns_zero_points_in_finals() {
    let result =
        WinnerOnlyScoringService::score_by_ids(Some(11), Some(22), TournamentPhase::Finals);
    assert_eq!(
        result,
        WinnerOnlyScoringResult {
            result: BetResult::Wrong,
            points: 0,
        }
    );
}
#[test]
fn winner_only_score_match_accepts_group_draw() {
    let result = winner_only_score_match(Stage::Group, 1, 1, 0, 0);
    assert_eq!(
        result,
        WinnerOnlyScoringResult {
            result: BetResult::Correct,
            points: 1,
        }
    );
}
#[test]
fn winner_only_score_match_rejects_knockout_draw_prediction() {
    let result = winner_only_score_match(Stage::RoundOf16, 2, 1, 0, 0);
    assert_eq!(
        result,
        WinnerOnlyScoringResult {
            result: BetResult::Wrong,
            points: 0,
        }
    );
}
#[test]
fn calculate_match_points_for_system_dispatches_to_winner_only_rules() {
    assert_eq!(
        calculate_match_points_for_system(
            MatchScoringSystem::WinnerOnly,
            Stage::QuarterFinal,
            3,
            1,
            1,
            0,
        ),
        5
    );
}
#[test]
fn max_potential_points_for_system_returns_winner_only_phase_maximum() {
    assert_eq!(
        max_potential_points_for_system(MatchScoringSystem::WinnerOnly, Stage::ThirdPlace,),
        7
    );
}
#[test]
fn outcome_bet_round_trips_through_stored_scores() {
    let outcome = OutcomeBet::AwayWin;
    let (home, away) = outcome_bet_to_stored_scores(outcome);
    assert_eq!(
        outcome_bet_from_stored_scores(home, away, false),
        Some(OutcomeBet::AwayWin)
    );
}
#[test]
fn champion_points_returns_ten_for_matching_pick() {
    assert_eq!(champion_points(Some(7), Some(7)), 10);
}
#[test]
fn champion_points_returns_zero_for_non_matching_pick() {
    assert_eq!(champion_points(Some(7), Some(8)), 0);
}
