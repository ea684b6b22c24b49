use chrono::{Datelike, NaiveDate, TimeZone, Utc};
use pila::badges::{BadgeDisplay, BadgeValue, PredictionRow};
use pila::clock::Zone;
use pila::recap::{
    build_report_input, latest_finished_matchday, percent, prediction_label, stage_label, streak, MatchSummary,
    ReportSource,
};
use pila::scoring::MatchScoringSystem;
use pila::stage::Stage;

fn uid(n: u8) -> u128 {
    u128::from_be_bytes([n; 16])
}

fn ny() -> Zone {
    Zone::parse("America/New_York").unwrap()
}

fn day(y: i32, m: u32, d: u32) -> i32 {
    NaiveDate::from_ymd_opt(y, m, d).unwrap().num_days_from_ce()
}

fn summary(id: i32, day: u32, hour: u32, status: &str, score: Option<(i32, i32)>) -> MatchSummary {
    MatchSummary {
        id,
        stage: Stage::Group,
        kickoff_time: Some(Utc.with_ymd_and_hms(2026, 6, day, hour, 0, 0).unwrap().timestamp()),
        status: status.into(),
        score_home: score.map(|s| s.0),
        score_away: score.map(|s| s.1),
        home_name: Some(format!("Home{id}")),
        away_name: Some(format!("Away{id}")),
    }
}

fn pred(user: u128, match_id: i32, day: u32, score: (i32, i32), p: (i32, i32)) -> PredictionRow {
    PredictionRow {
        user_id: user,
        match_id,
        stage: Stage::Group,
        kickoff: Utc.with_ymd_and_hms(2026, 6, day, 18, 0, 0).unwrap().timestamp(),
        score_h: score.0,
        score_a: score.1,
        pred_h: p.0,
        pred_a: p.1,
        scoring_system: MatchScoringSystem::ExactScore,
    }
}

fn source(
    summaries: Vec<MatchSummary>,
    finished: Vec<PredictionRow>,
    users: Vec<(u128, String)>,
    started_by_user: Vec<(u128, i32)>,
    started_total: i32,
) -> ReportSource {
    ReportSource {
        matchday_date: day(2026, 6, 12),
        zone: ny(),
        scoring_system: MatchScoringSystem::ExactScore,
        summaries,
        finished,
        users,
        special_picks: vec![],
        team_names: vec![],
        actual_champion: None,
        started_total,
        started_by_user,
        now: Utc.with_ymd_and_hms(2026, 6, 12, 22, 0, 0).unwrap().timestamp(),
    }
}

#[test]
fn latest_finished_matchday_picks_newest_fully_finished_day() {
    // 18:00 UTC on June 11 is still June 11 in New York (14:00 EDT).
    let summaries = vec![
        summary(1, 11, 18, "finished", Some((1, 0))),
        summary(2, 12, 18, "finished", Some((2, 2))),
        // June 13 not all finished → excluded.
        summary(3, 13, 18, "finished", Some((0, 0))),
        summary(4, 13, 20, "in_progress", None),
    ];
    let d = latest_finished_matchday(&summaries, &ny(), false).unwrap();
    assert_eq!(d, day(2026, 6, 12));
}

#[test]
fn latest_finished_matchday_respects_us_timezone_rollover() {
    // 02:00 UTC June 12 = 22:00 EDT June 11 → belongs to June 11 in NY.
    let m = MatchSummary {
        kickoff_time: Some(Utc.with_ymd_and_hms(2026, 6, 12, 2, 0, 0).unwrap().timestamp()),
        ..summary(1, 11, 18, "finished", Some((1, 0)))
    };
    let d = latest_finished_matchday(&vec![m], &ny(), false).unwrap();
    assert_eq!(d, day(2026, 6, 11));
}

#[test]
fn latest_finished_matchday_knockout_only_ignores_group_days() {
    let mut ko = summary(2, 20, 18, "finished", Some((1, 0)));
    ko.stage = Stage::RoundOf16;
    let summaries = vec![summary(1, 11, 18, "finished", Some((1, 0))), ko];
    let d = latest_finished_matchday(&summaries, &ny(), true).unwrap();
    assert_eq!(d, day(2026, 6, 20));
}

#[test]
fn build_report_input_computes_points_rank_and_movement() {
    let a = uid(1);
    let b = uid(2);
    // Day 1 (June 11): A nails 1:0 (4 pts), B gets tendency (group = 2 pts).
    // Day 2 (June 12, the matchday): A misses (0), B nails 2:1 (4 pts).
    // Cumulative: A=4, B=6 → B leads. Before day 2: A=4, B=2 → A led.
    let summaries = vec![
        summary(1, 11, 18, "finished", Some((1, 0))),
        summary(2, 12, 18, "finished", Some((2, 1))),
    ];
    let finished = vec![
        pred(a, 1, 11, (1, 0), (1, 0)),
        pred(b, 1, 11, (1, 0), (2, 0)),
        pred(a, 2, 12, (2, 1), (0, 0)),
        pred(b, 2, 12, (2, 1), (2, 1)),
    ];
    let src = source(
        summaries,
        finished,
        vec![(a, "Anna".into()), (b, "Ben".into())],
        vec![(a, 2), (b, 2)],
        2,
    );
    let input = build_report_input(&src);

    assert_eq!(input.matchday_date, "2026-06-12");
    assert_eq!(input.matches.len(), 1);
    assert_eq!(input.matches[0].score_home, 2);

    let ben = input.players.iter().find(|p| p.name == "Ben").unwrap();
    let anna = input.players.iter().find(|p| p.name == "Anna").unwrap();
    assert_eq!(ben.total_points, 6);
    assert_eq!(anna.total_points, 4);
    assert_eq!(ben.rank, 1);
    assert_eq!(anna.rank, 2);
    // Ben climbed from rank 2 to rank 1 on this matchday.
    assert_eq!(ben.rank_delta, 1);
    assert_eq!(anna.rank_delta, -1);
    assert_eq!(ben.matchday_points, 4);
    assert_eq!(anna.matchday_points, 0);
    assert_eq!(input.leader.as_deref(), Some("Ben"));
    assert_eq!(input.biggest_climber.as_deref(), Some("Ben"));
    assert_eq!(input.biggest_faller.as_deref(), Some("Anna"));
    // Ben's matchday tip is recorded with its exact-score label and points.
    assert_eq!(ben.matchday_tips.len(), 1);
    assert_eq!(ben.matchday_tips[0].predicted, "2:1");
    assert_eq!(ben.matchday_tips[0].points, 4);
}

#[test]
fn build_report_input_shares_rank_on_ties() {
    let a = uid(1);
    let b = uid(2);
    let c = uid(3);
    // Single matchday (June 12), one match finishing 2:1. Anna and Bea both
    // nail it (4 pts each, tied); Cara only gets the tendency (2 pts).
    let summaries = vec![summary(1, 12, 18, "finished", Some((2, 1)))];
    let finished = vec![
        pred(a, 1, 12, (2, 1), (2, 1)),
        pred(b, 1, 12, (2, 1), (2, 1)),
        pred(c, 1, 12, (2, 1), (3, 0)),
    ];
    let src = source(
        summaries,
        finished,
        vec![(a, "Anna".into()), (b, "Bea".into()), (c, "Cara".into())],
        vec![(a, 1), (b, 1), (c, 1)],
        1,
    );
    let input = build_report_input(&src);

    let anna = input.players.iter().find(|p| p.name == "Anna").unwrap();
    let bea = input.players.iter().find(|p| p.name == "Bea").unwrap();
    let cara = input.players.iter().find(|p| p.name == "Cara").unwrap();

    assert_eq!(anna.total_points, 4);
    assert_eq!(bea.total_points, 4);
    assert_eq!(cara.total_points, 2);
    // Anna and Bea tie on 4 points → both rank 1. Standard competition
    // ranking skips rank 2, so Cara (2 pts) lands on rank 3, not rank 2 —
    // matching what the leaderboard table shows.
    assert_eq!(anna.rank, 1);
    assert_eq!(bea.rank, 1);
    assert_eq!(cara.rank, 3);
}

#[test]
fn build_report_input_resolves_champion_pick_name() {
    let a = uid(1);
    let summaries = vec![summary(1, 12, 18, "finished", Some((1, 0)))];
    let mut src = source(
        summaries,
        vec![pred(a, 1, 12, (1, 0), (1, 0))],
        vec![(a, "Anna".into())],
        vec![(a, 1)],
        1,
    );
    src.special_picks = vec![(a, 99)];
    src.team_names = vec![(99, "Brazil".to_string())];
    let input = build_report_input(&src);
    let anna = input.players.iter().find(|p| p.name == "Anna").unwrap();
    assert_eq!(anna.champion_pick.as_deref(), Some("Brazil"));
}

#[test]
fn recap_players_in_rank_order_then_name() {
    let a = uid(1);
    let b = uid(2);
    let c = uid(3);
    let summaries = vec![summary(1, 12, 18, "finished", Some((2, 1)))];
    let finished = vec![
        pred(a, 1, 12, (2, 1), (0, 1)),
        pred(b, 1, 12, (2, 1), (2, 1)),
        pred(c, 1, 12, (2, 1), (0, 2)),
    ];
    let src = source(
        summaries,
        finished,
        vec![(c, "Zoe".into()), (a, "Carl".into()), (b, "Bea".into())],
        vec![],
        1,
    );
    let input = build_report_input(&src);
    let names: Vec<&str> = input.players.iter().map(|p| p.name.as_str()).collect();
    assert_eq!(names, vec!["Bea", "Carl", "Zoe"]);
    let ranks: Vec<i32> = input.players.iter().map(|p| p.rank).collect();
    assert_eq!(ranks, vec![1, 2, 2]);
    assert_eq!(input.scoring_system, "exact_score");
    // Before the only matchday everyone was tied first; Carl and Zoe fell
    // by one, and the tie goes to the name first in order.
    assert_eq!(input.biggest_faller.as_deref(), Some("Carl"));
    assert_eq!(input.biggest_climber.as_deref(), None);
}

#[test]
fn recap_matches_chronological_and_only_finished_of_the_day() {
    let summaries = vec![
        summary(3, 12, 22, "finished", Some((0, 0))),
        summary(1, 12, 16, "finished", Some((1, 0))),
        summary(2, 12, 19, "in_progress", None),
        summary(4, 11, 18, "finished", Some((3, 3))),
    ];
    let src = source(summaries, vec![], vec![], vec![], 0);
    let input = build_report_input(&src);
    let homes: Vec<&str> = input.matches.iter().map(|m| m.home.as_str()).collect();
    assert_eq!(homes, vec!["Home1", "Home3"]);
    assert_eq!(input.matches[0].stage, "Group stage");
    assert!(input.players.is_empty());
    assert_eq!(input.leader, None);
}

#[test]
fn recap_discipline_and_tendency_percentages() {
    let a = uid(1);
    let summaries = vec![summary(1, 12, 18, "finished", Some((2, 1)))];
    let finished = vec![pred(a, 1, 12, (2, 1), (1, 0))];
    let src = source(summaries, finished, vec![(a, "Anna".into())], vec![(a, 1)], 4);
    let input = build_report_input(&src);
    let anna = &input.players[0];
    assert_eq!(anna.tendency_pct, Some(100));
    assert_eq!(anna.discipline_pct, Some(25));
    assert_eq!(anna.current_streak, 1);
    assert_eq!(anna.matchday_tips[0].points, 3);
}

#[test]
fn stage_labels_are_english() {
    assert_eq!(stage_label(Stage::Group), "Group stage");
    assert_eq!(stage_label(Stage::RoundOf16), "Round of 16");
    assert_eq!(stage_label(Stage::ThirdPlace), "Third-place play-off");
    assert_eq!(stage_label(Stage::Final), "Final");
}

#[test]
fn prediction_labels_per_system() {
    assert_eq!(prediction_label(MatchScoringSystem::ExactScore, "A", "B", 2, 1), "2:1");
    assert_eq!(prediction_label(MatchScoringSystem::WinnerOnly, "A", "B", 1, 0), "A to win");
    assert_eq!(prediction_label(MatchScoringSystem::WinnerOnly, "A", "B", 0, 1), "B to win");
    assert_eq!(prediction_label(MatchScoringSystem::WinnerOnly, "A", "B", 0, 0), "Draw");
}

#[test]
fn metric_readers() {
    assert_eq!(percent(BadgeDisplay::Metric(BadgeValue::Percent(Some(40)))), Some(40));
    assert_eq!(percent(BadgeDisplay::Achievement { times_earned: 3 }), None);
    assert_eq!(streak(BadgeDisplay::Metric(BadgeValue::Streak(5))), 5);
    assert_eq!(streak(BadgeDisplay::Metric(BadgeValue::Percent(None))), 0);
}
