use pila::dashboard::{visitor_answer, VisitorAnswer};
use chrono::{TimeZone, Utc};
use pila::clock::format_kickoff;
use pila::dashboard::{
    champion_predictions, dashboard_matches, default_tab, tournament_locked, user_standing, DashboardInput, IndexMatchRow,
    OtherUserPrediction,
};
use pila::leaderboard::{ChampionPickRow, LeaderboardEntry};
use pila::scoring::MatchScoringSystem;
use pila::stage::Stage;

fn ts(day: u32, hour: u32) -> i64 {
    Utc.with_ymd_and_hms(2026, 6, day, hour, 0, 0).unwrap().timestamp()
}

fn row(id: i32, stage: Stage, kickoff: Option<i64>, status: &str, score: Option<(i32, i32)>, tip: Option<(i32, i32)>) -> IndexMatchRow {
    IndexMatchRow {
        id,
        stage,
        group_letter: Some(" A ".into()),
        kickoff_time: kickoff,
        status: status.into(),
        score_home: score.map(|s| s.0),
        score_away: score.map(|s| s.1),
        team_home_id: Some(1),
        team_away_id: Some(2),
        home_name: "GER".into(),
        away_name: "SCO".into(),
        home_flag: Some("de".into()),
        away_flag: None,
        predicted_home: tip.map(|t| t.0),
        predicted_away: tip.map(|t| t.1),
    }
}

fn other(match_id: i32, name: &str, h: i32, a: i32) -> OtherUserPrediction {
    OtherUserPrediction { match_id, user_name: name.into(), predicted_home: h, predicted_away: a }
}

#[test]
fn fixtures_split_into_sections() {
    let mut tbd = row(4, Stage::Final, Some(ts(19, 20)), "scheduled", None, None);
    tbd.team_away_id = None;
    let input = DashboardInput {
        rows: vec![
            row(1, Stage::Group, Some(ts(11, 20)), "finished", Some((2, 1)), Some((2, 1))),
            row(2, Stage::Group, Some(ts(12, 20)), "in_progress", None, Some((0, 0))),
            row(3, Stage::Group, Some(ts(14, 20)), "scheduled", None, None),
            tbd,
            row(5, Stage::RoundOf16, Some(ts(13, 20)), "scheduled", None, None),
        ],
        others: vec![other(1, "Ben", 0, 1), other(1, "Cara", 2, 1), other(1, "Dan", 1, 0), other(3, "Eve", 1, 1)],
        now: ts(12, 21),
        system: MatchScoringSystem::ExactScore,
        knockout_only: false,
    };
    let d = dashboard_matches(&input);
    assert_eq!(d.started_finished.len(), 1);
    assert_eq!(d.started_in_progress.len(), 1);
    let open: Vec<i32> = d.open_matches.iter().map(|m| m.id).collect();
    assert_eq!(open, vec![3, 5]);
    assert_eq!(d.next_deadline, Some(ts(13, 20)));

    let fin = &d.started_finished[0];
    assert_eq!(fin.own_points, Some(4));
    assert_eq!(fin.group_letter.as_deref(), Some("A"));
    assert_eq!(fin.home_flag, "https://flagcdn.com/w40/de.png");
    assert_eq!(fin.away_flag, "");
    assert_eq!(fin.prediction_display.as_deref(), Some("2:1"));
    assert_eq!(fin.kickoff_display, "11.06.2026 22:00");
    assert_eq!(fin.max_phase_points, 4);
    assert!(fin.locked && fin.is_finished && !fin.is_live);
    let others: Vec<(&str, Option<i32>)> = fin.other_preds.iter().map(|p| (p.name.as_str(), p.points)).collect();
    assert_eq!(others, vec![("Cara", Some(4)), ("Dan", Some(3)), ("Ben", Some(0))]);

    let live = &d.started_in_progress[0];
    assert!(live.is_live);
    assert_eq!(live.own_points, None);
    assert!(live.other_preds.is_empty());
    // Open fixtures show nobody else's tips.
    assert!(d.open_matches[0].other_preds.is_empty());
    assert!(d.open_matches[1].allow_draw_prediction == false);
}

#[test]
fn knockout_only_locks_group_matches() {
    let input = DashboardInput {
        rows: vec![row(1, Stage::Group, Some(ts(20, 20)), "scheduled", None, None)],
        others: vec![],
        now: ts(12, 21),
        system: MatchScoringSystem::WinnerOnly,
        knockout_only: true,
    };
    let d = dashboard_matches(&input);
    assert_eq!(d.started_in_progress.len(), 1);
    assert!(d.started_in_progress[0].winner_only_mode);
    assert_eq!(d.next_deadline, None);
}

fn entry(name: &str, total: i32) -> LeaderboardEntry {
    LeaderboardEntry {
        id: 0,
        name: name.into(),
        total_points: total,
        max_potential_points: total,
        jersey_body: String::new(),
        jersey_accent: String::new(),
        jersey_pattern: String::new(),
        achievements: vec![],
    }
}

#[test]
fn place_tab_and_champion_picks() {
    let lb = vec![entry("Anna", 9), entry("Ben", 7)];
    assert_eq!(user_standing(&lb, "Ben"), (7, 2));
    assert_eq!(user_standing(&lb, "Zed"), (0, 3));
    assert!(tournament_locked(Some(10), 11));
    assert!(!tournament_locked(None, 11));
    assert_eq!(default_tab(2, true, None), "open");
    assert_eq!(default_tab(0, false, None), "special");
    assert_eq!(default_tab(0, false, Some(3)), "table");
    let rows = vec![
        ChampionPickRow { user_name: "Anna".into(), champion_id: Some(3), team_name: Some("Brazil".into()), flag_code: Some("br".into()) },
        ChampionPickRow { user_name: "Ben".into(), champion_id: None, team_name: None, flag_code: None },
        ChampionPickRow { user_name: "Cara".into(), champion_id: Some(4), team_name: None, flag_code: None },
    ];
    assert!(champion_predictions(&rows, Some(3), false).is_empty());
    let v = champion_predictions(&rows, Some(3), true);
    assert_eq!(v.len(), 2);
    assert_eq!(v[0].points, Some(10));
    assert_eq!(v[0].team_flag, "https://flagcdn.com/w40/br.png");
    assert_eq!(v[1].points, Some(0));
    assert_eq!(v[1].team_name, "");
    assert_eq!(champion_predictions(&rows, None, true)[0].points, None);
}

#[test]
fn kickoff_display_in_berlin_time() {
    assert_eq!(format_kickoff(Some(ts(11, 20))), "11.06.2026 22:00");
    assert_eq!(format_kickoff(None), "TBD");
}

#[test]
fn visitor_without_login_goes_to_setup_only_on_a_fresh_install() {
    assert_eq!(visitor_answer(Some(0)), VisitorAnswer::GoToSetup);
    assert_eq!(visitor_answer(Some(3)), VisitorAnswer::NotAuthenticated);
    assert_eq!(visitor_answer(None), VisitorAnswer::DatabaseError);
}
