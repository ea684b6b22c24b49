use pila::jersey::{get, JerseyPreset, JerseyVariant};
use pila::leaderboard::{leaderboard, ChampionPickRow, LeaderboardInput, LeaderboardPredictionRow, UserBasic};
use pila::scoring::MatchScoringSystem;
use pila::stage::Stage;

fn preset(body: &str) -> JerseyPreset {
    JerseyPreset {
        body: body.into(),
        accent: "#000000".into(),
        pattern: "solid".into(),
        name: body.into(),
        group: "Pila".into(),
        variant: JerseyVariant::Home,
    }
}

fn jerseys() -> Vec<(String, JerseyPreset)> {
    vec![("classic".into(), preset("#f3f3ed")), ("pila".into(), preset("#74ff8c"))]
}

fn user(id: u128, name: &str, jersey: &str) -> UserBasic {
    UserBasic { id, name: name.into(), jersey_preset: jersey.into() }
}

fn row(name: &str, status: &str, score: Option<(i32, i32)>, pred: (i32, i32), stage: Stage) -> LeaderboardPredictionRow {
    LeaderboardPredictionRow {
        user_name: name.into(),
        stage,
        kickoff_time: Some(0),
        status: status.into(),
        score_home: score.map(|s| s.0),
        score_away: score.map(|s| s.1),
        predicted_home: pred.0,
        predicted_away: pred.1,
    }
}

fn pick(name: &str, id: Option<i32>) -> ChampionPickRow {
    ChampionPickRow { user_name: name.into(), champion_id: id, team_name: None, flag_code: None }
}

#[test]
fn leaderboard_orders_by_points_then_name() {
    let input = LeaderboardInput {
        system: MatchScoringSystem::ExactScore,
        users: vec![user(1, "Zoe", "pila"), user(2, "Anna", "unknown"), user(3, "Ben", "classic")],
        rows: vec![
            row("Zoe", "finished", Some((2, 1)), (2, 1), Stage::Group),
            row("Anna", "finished", Some((2, 1)), (1, 0), Stage::Group),
            row("Ben", "finished", Some((2, 1)), (3, 2), Stage::Group),
            row("Anna", "scheduled", None, (1, 1), Stage::QuarterFinal),
        ],
        picks: vec![pick("Ben", Some(7)), pick("Anna", None)],
        actual_champion: None,
    };
    let lb = leaderboard(&input, &jerseys());
    let names: Vec<&str> = lb.iter().map(|e| e.name.as_str()).collect();
    assert_eq!(names, vec!["Zoe", "Anna", "Ben"]);
    assert_eq!(lb[0].total_points, 4);
    assert_eq!(lb[0].max_potential_points, 4);
    assert_eq!(lb[0].jersey_body, "#74ff8c");
    assert_eq!(lb[1].total_points, 3);
    // Open quarter-final: 8 more points still possible.
    assert_eq!(lb[1].max_potential_points, 11);
    // Unknown jersey key falls back to the classic jersey.
    assert_eq!(lb[1].jersey_body, "#f3f3ed");
    assert_eq!(lb[2].total_points, 3);
    // An open champion pick counts ten potential points.
    assert_eq!(lb[2].max_potential_points, 13);
    assert_eq!(lb[2].id, 3);
}

#[test]
fn leaderboard_counts_champion_bonus_once_decided() {
    let input = LeaderboardInput {
        system: MatchScoringSystem::WinnerOnly,
        users: vec![user(1, "Anna", "classic"), user(2, "Ben", "classic")],
        rows: vec![],
        picks: vec![pick("Anna", Some(5)), pick("Ben", Some(6))],
        actual_champion: Some(5),
    };
    let lb = leaderboard(&input, &jerseys());
    assert_eq!(lb[0].name, "Anna");
    assert_eq!(lb[0].total_points, 10);
    assert_eq!(lb[1].total_points, 0);
    assert_eq!(lb[1].max_potential_points, 0);
}

#[test]
fn leaderboard_includes_players_without_membership() {
    let input = LeaderboardInput {
        system: MatchScoringSystem::ExactScore,
        users: vec![],
        rows: vec![row("Ghost", "finished", Some((0, 0)), (0, 0), Stage::Final)],
        picks: vec![],
        actual_champion: None,
    };
    let lb = leaderboard(&input, &jerseys());
    assert_eq!(lb.len(), 1);
    assert_eq!(lb[0].id, 0);
    assert_eq!(lb[0].total_points, 11);
    assert_eq!(lb[0].jersey_body, "#f3f3ed");
    assert!(lb[0].achievements.is_empty());
}

#[test]
fn jersey_lookup_falls_back_to_classic() {
    let j = jerseys();
    assert_eq!(get(&j, "pila").body, "#74ff8c");
    assert_eq!(get(&j, "nope").body, "#f3f3ed");
    assert_eq!(JerseyVariant::default(), JerseyVariant::Home);
}
