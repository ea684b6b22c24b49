use chrono::{TimeZone, Utc};
use pila::dashboard::IndexMatchRow;
use pila::devtools::{due_for_random_result, fills_tip, find_next_unstarted_matchday, open_for_random_tip, simulated_clock_after};
use pila::stage::Stage;

fn at(day: u32, hour: u32) -> i64 {
    Utc.with_ymd_and_hms(2026, 6, day, hour, 0, 0).unwrap().timestamp()
}

fn m(id: i32, kickoff: i64) -> IndexMatchRow {
    IndexMatchRow {
        id,
        stage: Stage::Group,
        group_letter: None,
        kickoff_time: Some(kickoff),
        status: "scheduled".into(),
        score_home: None,
        score_away: None,
        team_home_id: Some(1),
        team_away_id: Some(2),
        home_name: "A".into(),
        away_name: "B".into(),
        home_flag: None,
        away_flag: None,
        predicted_home: None,
        predicted_away: None,
    }
}

#[test]
fn find_next_matchday_groups_same_berlin_day_excludes_next_day() {
    let now = at(11, 12);
    let matches = vec![
        m(1, at(11, 10)),
        // 20:00 UTC = 22:00 Berlin, June 11.
        m(2, at(11, 20)),
        // 21:30 UTC = 23:30 Berlin, still June 11.
        m(3, Utc.with_ymd_and_hms(2026, 6, 11, 21, 30, 0).unwrap().timestamp()),
        // 22:30 UTC = 00:30 Berlin, June 12.
        m(4, Utc.with_ymd_and_hms(2026, 6, 11, 22, 30, 0).unwrap().timestamp()),
    ];
    let ids = find_next_unstarted_matchday(&matches, now).unwrap();
    assert_eq!(ids, vec![2, 3]);
    assert!(find_next_unstarted_matchday(&matches, at(20, 0)).is_none());
}

#[test]
fn random_fill_rules() {
    let now = at(11, 12);
    assert!(open_for_random_tip(&m(1, at(11, 13)), now));
    assert!(!open_for_random_tip(&m(1, at(11, 12)), now));
    assert!(due_for_random_result(&m(1, at(11, 12)), now));
    let mut tipped = m(1, at(11, 13));
    tipped.predicted_home = Some(1);
    assert!(!fills_tip(&tipped, 5, 5));
    assert!(fills_tip(&tipped, 6, 5));
    assert_eq!(simulated_clock_after(&vec![Some(at(11, 20)), None, Some(at(11, 18))]), Some(at(11, 22)));
    assert_eq!(simulated_clock_after(&vec![None]), None);
}
