use pila::fixtures::{EspnMatchUpsert, FakeMatch, MemoryMatchRepo};
use pila::stage::Stage;

// 2026-06-11 00:00 UTC
const WC_START: i64 = 1_781_136_000;

fn ts(h: i64) -> i64 {
    WC_START + h * 3600
}

#[test]
fn list_for_index_attaches_user_prediction() {
    let mut repo = MemoryMatchRepo::new();
    let user_id = 0xA;
    let other_user = 0xB;
    repo.seed(FakeMatch::locked_unfinished(1, ts(20)));
    repo.record_prediction(user_id, 1, 2, 1);
    repo.record_prediction(other_user, 1, 0, 0);

    let rows = repo.list_for_index(user_id);
    assert_eq!(rows.len(), 1);
    assert_eq!(rows[0].predicted_home, Some(2));
    assert_eq!(rows[0].predicted_away, Some(1));
}

#[test]
fn list_for_index_orders_by_stage_then_kickoff() {
    let mut repo = MemoryMatchRepo::new();
    let user_id = 0xA;
    let mut a = FakeMatch::locked_unfinished(1, ts(20));
    a.stage = Stage::Final;
    let mut b = FakeMatch::locked_unfinished(2, ts(10));
    b.stage = Stage::Group;
    repo.seed(a);
    repo.seed(b);

    let rows = repo.list_for_index(user_id);
    assert_eq!(rows[0].stage, Stage::Group);
    assert_eq!(rows[1].stage, Stage::Final);
}

#[test]
fn first_kickoff_returns_min() {
    let mut repo = MemoryMatchRepo::new();
    repo.seed(FakeMatch::locked_unfinished(1, ts(20)));
    repo.seed(FakeMatch::locked_unfinished(2, ts(15)));
    repo.seed(FakeMatch::locked_unfinished(3, ts(22)));
    assert_eq!(repo.first_kickoff(), Some(ts(15)));
}

#[test]
fn actual_champion_picks_winner_of_finished_final() {
    let mut repo = MemoryMatchRepo::new();
    let mut m = FakeMatch::locked_unfinished(99, ts(20));
    m.stage = Stage::Final;
    m.status = "finished".into();
    m.score_home = Some(2);
    m.score_away = Some(1);
    m.team_home_id = Some(11);
    m.team_away_id = Some(22);
    repo.seed(m);
    assert_eq!(repo.actual_champion(), Some(11));
}

#[test]
fn actual_champion_returns_none_on_draw() {
    let mut repo = MemoryMatchRepo::new();
    let mut m = FakeMatch::locked_unfinished(99, ts(20));
    m.stage = Stage::Final;
    m.status = "finished".into();
    m.score_home = Some(1);
    m.score_away = Some(1);
    repo.seed(m);
    assert_eq!(repo.actual_champion(), None);
}

#[test]
fn started_count_excludes_tbd_and_future_matches() {
    let mut repo = MemoryMatchRepo::new();
    // started, both teams known
    repo.seed(FakeMatch::locked_unfinished(1, ts(10)));
    // future
    repo.seed(FakeMatch::locked_unfinished(2, ts(30)));
    // started, but TBD opponent
    let mut m = FakeMatch::locked_unfinished(3, ts(10));
    m.team_away_id = None;
    repo.seed(m);

    assert_eq!(repo.started_with_both_teams_count(ts(20)), 1);
}

#[test]
fn find_lock_info_returns_none_for_unknown_id() {
    let repo = MemoryMatchRepo::new();
    assert!(repo.find_lock_info(999).is_none());
}

#[test]
fn lock_info_and_knockout_kickoff() {
    let mut repo = MemoryMatchRepo::new();
    repo.seed(FakeMatch::locked_unfinished(1, ts(5)));
    let mut ko = FakeMatch::locked_unfinished(2, ts(300));
    ko.stage = Stage::RoundOf32;
    repo.seed(ko);
    let info = repo.find_lock_info(2).unwrap();
    assert_eq!(info.stage, Stage::RoundOf32);
    assert_eq!(info.kickoff_time, Some(ts(300)));
    assert_eq!(info.home_name, "TeamA");
    assert_eq!(repo.first_knockout_kickoff(), Some(ts(300)));
    assert_eq!(repo.first_kickoff(), Some(ts(5)));
}

#[test]
fn index_orders_unknown_kickoff_first_then_by_id() {
    let mut repo = MemoryMatchRepo::new();
    let mut late = FakeMatch::locked_unfinished(3, ts(10));
    late.kickoff_time = Some(ts(10));
    let mut tbd = FakeMatch::locked_unfinished(9, ts(0));
    tbd.kickoff_time = None;
    repo.seed(late);
    repo.seed(FakeMatch::locked_unfinished(2, ts(10)));
    repo.seed(tbd);
    repo.record_prediction(7, 2, 1, 1);
    repo.record_prediction(7, 2, 3, 0);
    let rows = repo.list_for_index(7);
    let ids: Vec<i32> = rows.iter().map(|r| r.id).collect();
    assert_eq!(ids, vec![9, 2, 3]);
    assert_eq!(rows[1].predicted_home, Some(3));
    assert_eq!(rows[0].predicted_home, None);
}

#[test]
fn finished_group_rows_need_complete_results() {
    let mut repo = MemoryMatchRepo::new();
    let mut done = FakeMatch::locked_unfinished(1, ts(1));
    done.status = "finished".into();
    done.score_home = Some(2);
    done.score_away = Some(0);
    let mut no_score = done.clone();
    no_score.id = 2;
    no_score.score_away = None;
    let mut ko = done.clone();
    ko.id = 3;
    ko.stage = Stage::RoundOf16;
    repo.seed(done);
    repo.seed(no_score);
    repo.seed(ko);
    let rows = repo.finished_group_rows();
    assert_eq!(rows.len(), 1);
    assert_eq!(rows[0].group_letter, "A");
    assert_eq!((rows[0].home_id, rows[0].away_id, rows[0].score_home, rows[0].score_away), (1, 2, 2, 0));
}

#[test]
fn espn_upsert_updates_known_and_adds_new() {
    let mut repo = MemoryMatchRepo::new();
    repo.seed(FakeMatch::locked_unfinished(401, ts(10)));
    repo.upsert_from_espn(EspnMatchUpsert {
        espn_event_id: 401,
        stage: Stage::Group,
        group_letter: Some("Group B"),
        team_home_id: None,
        team_away_id: Some(9),
        score_home: Some(1),
        score_away: Some(1),
        kickoff_time: None,
        status: "finished",
    });
    let info = repo.find_lock_info(401).unwrap();
    assert_eq!(info.team_home_id, Some(1));
    assert_eq!(info.team_away_id, Some(9));
    assert_eq!(info.kickoff_time, Some(ts(10)));
    let rows = repo.finished_group_rows();
    assert_eq!(rows[0].group_letter, "G");
    repo.upsert_from_espn(EspnMatchUpsert {
        espn_event_id: 402,
        stage: Stage::Final,
        group_letter: None,
        team_home_id: Some(3),
        team_away_id: Some(4),
        score_home: Some(0),
        score_away: Some(2),
        kickoff_time: Some(ts(900)),
        status: "finished",
    });
    assert_eq!(repo.actual_champion(), Some(4));
    repo.update_result(402, Some(3), Some(1), "finished");
    assert_eq!(repo.actual_champion(), Some(3));
}
