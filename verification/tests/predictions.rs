use pila::leaderboard::LeaderboardPredictionRow;
use pila::predictions::{FakeFinishedRow, FakeLeaderboardRow, MemoryPredictionRepo};
use pila::stage::Stage;

#[test]
fn prediction_upsert_inserts_new_row() {
    let mut repo = MemoryPredictionRepo::new();
    let user_id = 0xAA;
    repo.upsert(user_id, 7, 2, 1);
    let all = repo.all();
    assert_eq!(all.len(), 1);
    assert_eq!(all[0], (user_id, 7, 2, 1));
}

#[test]
fn prediction_upsert_overwrites_existing() {
    let mut repo = MemoryPredictionRepo::new();
    let user_id = 0xAA;
    repo.upsert(user_id, 7, 2, 1);
    repo.upsert(user_id, 7, 3, 0);
    let all = repo.all();
    assert_eq!(all.len(), 1);
    assert_eq!(all[0], (user_id, 7, 3, 0));
}

#[test]
fn prediction_upsert_keeps_predictions_per_user_separate() {
    let mut repo = MemoryPredictionRepo::new();
    let a = 0xAA;
    let b = 0xBB;
    repo.upsert(a, 1, 1, 0);
    repo.upsert(b, 1, 0, 1);
    assert_eq!(repo.all().len(), 2);
}

#[test]
fn memory_upsert_inserts_new_row() {
    let mut repo = MemoryPredictionRepo::new();
    let user_id = 0xAA;
    repo.upsert(user_id, 7, 2, 1);
    let all = repo.all();
    assert_eq!(all.len(), 1);
    assert_eq!(all[0], (user_id, 7, 2, 1));
}

#[test]
fn memory_upsert_overwrites_existing() {
    let mut repo = MemoryPredictionRepo::new();
    let user_id = 0xAA;
    repo.upsert(user_id, 7, 2, 1);
    repo.upsert(user_id, 7, 3, 0);
    let all = repo.all();
    assert_eq!(all.len(), 1);
    assert_eq!(all[0], (user_id, 7, 3, 0));
}

#[test]
fn memory_upsert_keeps_predictions_per_user_separate() {
    let mut repo = MemoryPredictionRepo::new();
    let a = 0xAA;
    let b = 0xBB;
    repo.upsert(a, 1, 1, 0);
    repo.upsert(b, 1, 0, 1);
    assert_eq!(repo.all().len(), 2);
}

#[test]
fn upsert_keeps_first_position_and_counts_per_user() {
    let mut repo = MemoryPredictionRepo::new();
    repo.upsert(1, 10, 1, 1);
    repo.upsert(2, 10, 0, 0);
    repo.upsert(1, 11, 2, 2);
    repo.upsert(1, 10, 4, 0);
    assert_eq!(repo.all(), vec![(1, 10, 4, 0), (2, 10, 0, 0), (1, 11, 2, 2)]);
    assert_eq!(repo.count_user_started(1, 0), 2);
    assert_eq!(repo.count_user_started(3, 0), 0);
    assert!(repo.list_other_users_locked(1, 1, 0).is_empty());
}

#[test]
fn joins_are_scoped_to_the_league() {
    let mut repo = MemoryPredictionRepo::new();
    for (league, user) in [(1u128, 10u128), (2, 20), (1, 11)] {
        repo.seed_finished(FakeFinishedRow {
            user_id: user,
            league_id: league,
            match_id: 5,
            stage: Stage::Group,
            kickoff: 1_781_524_800,
            score_home: 2,
            score_away: 1,
            predicted_home: 1,
            predicted_away: 0,
        });
        repo.seed_leaderboard(FakeLeaderboardRow {
            league_id: league,
            user_name: format!("u{user}"),
            stage: Stage::Final,
            kickoff_time: None,
            status: "finished".into(),
            score_home: Some(1),
            score_away: Some(0),
            predicted_home: 1,
            predicted_away: 0,
        });
    }
    let users: Vec<u128> = repo.list_finished_join(1).iter().map(|r| r.user_id).collect();
    assert_eq!(users, vec![10, 11]);
    let lines: Vec<LeaderboardPredictionRow> = repo.list_leaderboard_join(2);
    assert_eq!(lines.len(), 1);
    assert_eq!(lines[0].user_name, "u20");
    assert_eq!(lines[0].stage, Stage::Final);
}

use pila::predictions::prediction_rows;
use pila::scoring::MatchScoringSystem;

#[test]
fn prediction_rows_carry_the_league_system() {
    let mut repo = MemoryPredictionRepo::new();
    repo.seed_finished(FakeFinishedRow {
        user_id: 3,
        league_id: 1,
        match_id: 8,
        stage: Stage::SemiFinal,
        kickoff: 100,
        score_home: 1,
        score_away: 0,
        predicted_home: 2,
        predicted_away: 1,
    });
    let rows = prediction_rows(&repo.list_finished_join(1), MatchScoringSystem::WinnerOnly);
    assert_eq!(rows.len(), 1);
    assert_eq!((rows[0].user_id, rows[0].match_id, rows[0].score_h, rows[0].pred_a), (3, 8, 1, 1));
    assert_eq!(rows[0].scoring_system, MatchScoringSystem::WinnerOnly);
}
