use pila::reports::{recap_due, MatchdayReport, MemoryMatchdayReportRepo};

// 2026-06-01 as days from the Common Era.
const JUNE_1: i32 = 739_768;

fn d(day: i32) -> i32 {
    JUNE_1 + day - 1
}

fn report(league: u128, date: i32) -> MatchdayReport {
    MatchdayReport {
        league_id: league,
        matchday_date: date,
        language: "de".into(),
        content: format!("Recap for {date}"),
        model: "provider::model-1".into(),
        generated_at: 1_781_524_800,
    }
}

#[test]
fn insert_is_idempotent_per_league_and_date() {
    let mut repo = MemoryMatchdayReportRepo::new();
    let league = 0x1EA;
    repo.insert(&report(league, d(11)));
    let mut second = report(league, d(11));
    second.content = "other".into();
    repo.insert(&second);
    assert!(repo.report_exists(league, d(11)));
    assert_eq!(repo.latest_date(league), Some(d(11)));
    assert_eq!(repo.get(league, d(11)).unwrap().content, format!("Recap for {}", d(11)));
}

#[test]
fn latest_and_neighbors_track_navigation() {
    let mut repo = MemoryMatchdayReportRepo::new();
    let league = 0x1EA;
    for day in [11, 13, 15] {
        repo.insert(&report(league, d(day)));
    }
    assert_eq!(repo.latest_date(league), Some(d(15)));
    // Middle day: older = 11, newer = 15.
    assert_eq!(repo.neighbors(league, d(13)), (Some(d(11)), Some(d(15))));
    // Newest day: no newer neighbour.
    assert_eq!(repo.neighbors(league, d(15)), (Some(d(13)), None));
    // Oldest day: no older neighbour.
    assert_eq!(repo.neighbors(league, d(11)), (None, Some(d(13))));
}

#[test]
fn reports_are_league_scoped() {
    let mut repo = MemoryMatchdayReportRepo::new();
    let a = 0xA;
    let b = 0xB;
    repo.insert(&report(a, d(11)));
    assert!(!repo.report_exists(b, d(11)));
    assert_eq!(repo.latest_date(b), None);
    assert!(repo.get(b, d(11)).is_none());
}

#[test]
fn neighbors_of_a_day_without_recap_and_unsorted_inserts() {
    let mut repo = MemoryMatchdayReportRepo::new();
    for day in [20, 12, 16] {
        repo.insert(&report(1, d(day)));
    }
    repo.insert(&report(2, d(14)));
    assert_eq!(repo.latest_date(1), Some(d(20)));
    assert_eq!(repo.neighbors(1, d(14)), (Some(d(12)), Some(d(16))));
    assert_eq!(repo.neighbors(1, d(30)), (Some(d(20)), None));
}

#[test]
fn recap_is_due_only_for_an_unwritten_finished_matchday() {
    assert_eq!(recap_due(Some(739_000), false), Some(739_000));
    assert_eq!(recap_due(Some(739_000), true), None);
    assert_eq!(recap_due(None, false), None);
}
