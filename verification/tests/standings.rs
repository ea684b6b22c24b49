use pila::standings::{group_standings, FinishedGroupMatch};

fn m(letter: &str, home: (i32, &str), away: (i32, &str), score: (i32, i32)) -> FinishedGroupMatch {
    FinishedGroupMatch {
        group_letter: letter.into(),
        home_id: home.0,
        away_id: away.0,
        score_home: score.0,
        score_away: score.1,
        home_name: home.1.into(),
        home_flag: Some(home.1[..2].to_lowercase()),
        away_name: away.1.into(),
        away_flag: None,
    }
}

#[test]
fn group_tables_sorted_by_points_difference_goals_name() {
    let ms = vec![
        m("B", (5, "Spain"), (6, "Japan"), (1, 1)),
        m("A", (1, "Germany"), (2, "Scotland"), (5, 1)),
        m("A", (3, "Hungary"), (4, "Switzerland"), (1, 3)),
        m("A", (1, "Germany"), (3, "Hungary"), (2, 0)),
        m("A", (2, "Scotland"), (4, "Switzerland"), (1, 1)),
    ];
    let tables = group_standings(&ms);
    assert_eq!(tables.len(), 2);
    assert_eq!(tables[0].letter, "A");
    assert_eq!(tables[1].letter, "B");
    let a: Vec<&str> = tables[0].rows.iter().map(|r| r.team_name.as_str()).collect();
    assert_eq!(a, vec!["Germany", "Switzerland", "Scotland", "Hungary"]);
    let ger = &tables[0].rows[0];
    assert_eq!((ger.played, ger.wins, ger.draws, ger.losses), (2, 2, 0, 0));
    assert_eq!((ger.goals_for, ger.goals_against, ger.goal_diff, ger.points), (7, 1, 6, 6));
    assert_eq!(ger.flag, "https://flagcdn.com/w40/ge.png");
    let sco = &tables[0].rows[2];
    assert_eq!((sco.played, sco.draws, sco.losses, sco.points), (2, 1, 1, 1));
    assert_eq!(sco.flag, "");
    // Equal records are ordered by name.
    let b: Vec<&str> = tables[1].rows.iter().map(|r| r.team_name.as_str()).collect();
    assert_eq!(b, vec!["Japan", "Spain"]);
}

#[test]
fn no_matches_no_tables() {
    assert!(group_standings(&vec![]).is_empty());
}

#[test]
fn goal_differences_of_a_group_add_up_to_zero() {
    let ms = vec![
        m("A", (1, "Germany"), (2, "Scotland"), (5, 1)),
        m("A", (3, "Hungary"), (4, "Switzerland"), (1, 3)),
        m("A", (1, "Germany"), (3, "Hungary"), (2, 0)),
        m("B", (5, "Spain"), (6, "Japan"), (4, 0)),
    ];
    for table in group_standings(&ms) {
        let sum: i32 = table.rows.iter().map(|r| r.goal_diff).sum();
        assert_eq!(sum, 0);
        let scored: i32 = table.rows.iter().map(|r| r.goals_for).sum();
        let conceded: i32 = table.rows.iter().map(|r| r.goals_against).sum();
        assert_eq!(scored, conceded);
    }
}
