use chrono::{Datelike, NaiveDate, TimeZone, Utc};
use pila::badges::{
    compute_all, Badge, BadgeContextOwned, BadgeDisplay, BadgeValue, ChampionPickBadge,
    ChampionView, CurrentStreakBadge, DisciplinePctBadge, ExactCountBadge, KnockoutPointsBadge,
    LongestStreakBadge, MatchdayWinsBadge, PredictionRow, RankDeltaBadge, SoloHitBadge,
    TendencyPctBadge, UnderdogBadge,
};
use pila::scoring::MatchScoringSystem;
use pila::stage::Stage;

type Uuid = u128;

/// Id of a test user: the 128-bit value of a UUID made of 16 equal bytes.
fn uid(n: u8) -> Uuid {
    u128::from_be_bytes([n; 16])
}

/// Kickoff on a June 2026 day, in seconds since the epoch.
fn ko(day: u32, hour: u32) -> i64 {
    Utc.with_ymd_and_hms(2026, 6, day, hour, 0, 0).unwrap().timestamp()
}

fn pred(
    user: Uuid,
    match_id: i32,
    kickoff: i64,
    score: (i32, i32),
    prediction: (i32, i32),
    stage: Stage,
) -> PredictionRow {
    PredictionRow {
        user_id: user,
        match_id,
        stage,
        kickoff,
        score_h: score.0,
        score_a: score.1,
        pred_h: prediction.0,
        pred_a: prediction.1,
        scoring_system: MatchScoringSystem::ExactScore,
    }
}

fn run<B: Badge>(badge: B, owned: &BadgeContextOwned) -> BadgeDisplay {
    badge.compute(&owned.as_ctx())
}

fn base_owned(user: Uuid, rows: Vec<PredictionRow>, all_users: Vec<Uuid>) -> BadgeContextOwned {
    BadgeContextOwned {
        user_id: user,
        now: ko(15, 12),
        berlin_today: NaiveDate::from_ymd_opt(2026, 6, 15).unwrap().num_days_from_ce(),
        finished_predictions: rows,
        all_user_ids: all_users,
        started_matches_total: 0,
        user_started_tips: 0,
        actual_champion_id: None,
        all_special_picks: vec![],
        user_champion: None,
    }
}

#[test]
fn exact_count_zero_when_empty() {
    let owned = base_owned(uid(1), vec![], vec![uid(1)]);
    assert_eq!(
        run(ExactCountBadge, &owned),
        BadgeDisplay::Achievement { times_earned: 0 }
    );
}
#[test]
fn exact_count_counts_only_exacts() {
    let me = uid(1);
    let owned = base_owned(
        me,
        vec![
            pred(me, 1, ko(10, 18), (2, 1), (2, 1), Stage::Group), // exact
            pred(me, 2, ko(11, 18), (2, 1), (3, 0), Stage::Group), // tendency only
            pred(me, 3, ko(12, 18), (0, 0), (0, 0), Stage::Group), // exact
        ],
        vec![me],
    );
    assert_eq!(
        run(ExactCountBadge, &owned),
        BadgeDisplay::Achievement { times_earned: 2 }
    );
}
#[test]
fn exact_count_ignores_other_users() {
    let me = uid(1);
    let other = uid(2);
    let owned = base_owned(
        me,
        vec![
            pred(other, 1, ko(10, 18), (2, 1), (2, 1), Stage::Group),
            pred(me, 1, ko(10, 18), (2, 1), (1, 0), Stage::Group),
        ],
        vec![me, other],
    );
    assert_eq!(
        run(ExactCountBadge, &owned),
        BadgeDisplay::Achievement { times_earned: 0 }
    );
}
#[test]
fn matchday_wins_solo_and_tie() {
    let a = uid(1);
    let b = uid(2);
    let c = uid(3);
    // Tag 10: A=4 (exact), B=1 (tendency), C=0 → A solo
    // Tag 11: A=4 (exact), B=4 (exact), C=2 → A & B tie
    let rows = vec![
        pred(a, 1, ko(10, 18), (1, 0), (1, 0), Stage::Group), // 4
        pred(b, 1, ko(10, 18), (1, 0), (2, 0), Stage::Group), // 1 (tendency)
        pred(c, 1, ko(10, 18), (1, 0), (0, 1), Stage::Group), // 0
        pred(a, 2, ko(11, 18), (2, 2), (2, 2), Stage::Group), // 4
        pred(b, 2, ko(11, 18), (2, 2), (2, 2), Stage::Group), // 4
        pred(c, 2, ko(11, 18), (2, 2), (1, 1), Stage::Group), // 2 (diff)
    ];
    let owned_a = base_owned(a, rows.clone(), vec![a, b, c]);
    let owned_b = base_owned(b, rows.clone(), vec![a, b, c]);
    let owned_c = base_owned(c, rows.clone(), vec![a, b, c]);
    assert_eq!(
        run(MatchdayWinsBadge, &owned_a),
        BadgeDisplay::Achievement { times_earned: 2 }
    );
    assert_eq!(
        run(MatchdayWinsBadge, &owned_b),
        BadgeDisplay::Achievement { times_earned: 1 }
    );
    assert_eq!(
        run(MatchdayWinsBadge, &owned_c),
        BadgeDisplay::Achievement { times_earned: 0 }
    );
}
#[test]
fn matchday_wins_zero_points_does_not_count() {
    let a = uid(1);
    // User-allein an einem Tag, aber 0 Punkte → kein Sieg.
    let rows = vec![pred(a, 1, ko(10, 18), (1, 0), (0, 1), Stage::Group)];
    let owned = base_owned(a, rows, vec![a]);
    assert_eq!(
        run(MatchdayWinsBadge, &owned),
        BadgeDisplay::Achievement { times_earned: 0 }
    );
}
#[test]
fn matchday_wins_empty() {
    let owned = base_owned(uid(1), vec![], vec![uid(1)]);
    assert_eq!(
        run(MatchdayWinsBadge, &owned),
        BadgeDisplay::Achievement { times_earned: 0 }
    );
}
#[test]
fn underdog_all_exact_no_hit() {
    // 4 User, alle exakt → Anteil 100% > 30% → 0
    let users: Vec<Uuid> = (1..=4).map(uid).collect();
    let rows: Vec<_> = users
        .iter()
        .map(|u| pred(*u, 1, ko(10, 18), (1, 0), (1, 0), Stage::Group))
        .collect();
    let owned = base_owned(users[0], rows, users.clone());
    assert_eq!(
        run(UnderdogBadge, &owned),
        BadgeDisplay::Achievement { times_earned: 0 }
    );
}
#[test]
fn underdog_one_exact_among_four_is_hit() {
    // 4 User, nur User 1 exakt → Anteil 25% < 30% → 1
    let users: Vec<Uuid> = (1..=4).map(uid).collect();
    let rows = vec![
        pred(users[0], 1, ko(10, 18), (1, 0), (1, 0), Stage::Group), // exact
        pred(users[1], 1, ko(10, 18), (1, 0), (2, 0), Stage::Group),
        pred(users[2], 1, ko(10, 18), (1, 0), (3, 0), Stage::Group),
        pred(users[3], 1, ko(10, 18), (1, 0), (0, 0), Stage::Group),
    ];
    let owned = base_owned(users[0], rows, users.clone());
    assert_eq!(
        run(UnderdogBadge, &owned),
        BadgeDisplay::Achievement { times_earned: 1 }
    );
}
#[test]
fn underdog_user_not_exact_no_hit() {
    let users: Vec<Uuid> = (1..=4).map(uid).collect();
    let rows = vec![
        pred(users[0], 1, ko(10, 18), (1, 0), (2, 0), Stage::Group), // not exact
        pred(users[1], 1, ko(10, 18), (1, 0), (1, 0), Stage::Group),
    ];
    let owned = base_owned(users[0], rows, users.clone());
    assert_eq!(
        run(UnderdogBadge, &owned),
        BadgeDisplay::Achievement { times_earned: 0 }
    );
}
#[test]
fn solo_hit_only_user_exact() {
    let users: Vec<Uuid> = (1..=3).map(uid).collect();
    let rows = vec![
        pred(users[0], 1, ko(10, 18), (1, 0), (1, 0), Stage::Group), // exact
        pred(users[1], 1, ko(10, 18), (1, 0), (2, 0), Stage::Group),
        pred(users[2], 1, ko(10, 18), (1, 0), (0, 0), Stage::Group),
    ];
    let owned = base_owned(users[0], rows, users.clone());
    assert_eq!(
        run(SoloHitBadge, &owned),
        BadgeDisplay::Achievement { times_earned: 1 }
    );
}
#[test]
fn solo_hit_two_exact_no_hit() {
    let users: Vec<Uuid> = (1..=3).map(uid).collect();
    let rows = vec![
        pred(users[0], 1, ko(10, 18), (1, 0), (1, 0), Stage::Group),
        pred(users[1], 1, ko(10, 18), (1, 0), (1, 0), Stage::Group),
    ];
    let owned = base_owned(users[0], rows, users.clone());
    assert_eq!(
        run(SoloHitBadge, &owned),
        BadgeDisplay::Achievement { times_earned: 0 }
    );
}
#[test]
fn solo_hit_empty() {
    let owned = base_owned(uid(1), vec![], vec![uid(1)]);
    assert_eq!(
        run(SoloHitBadge, &owned),
        BadgeDisplay::Achievement { times_earned: 0 }
    );
}
#[test]
fn tendency_pct_none_without_tips() {
    let owned = base_owned(uid(1), vec![], vec![uid(1)]);
    assert_eq!(
        run(TendencyPctBadge, &owned),
        BadgeDisplay::Metric(BadgeValue::Percent(None))
    );
}
#[test]
fn tendency_pct_basic() {
    let me = uid(1);
    let rows = vec![
        pred(me, 1, ko(10, 18), (1, 0), (1, 0), Stage::Group), // 4
        pred(me, 2, ko(11, 18), (1, 0), (2, 0), Stage::Group), // 1
        pred(me, 3, ko(12, 18), (1, 0), (0, 1), Stage::Group), // 0
        pred(me, 4, ko(13, 18), (1, 0), (0, 2), Stage::Group), // 0
    ];
    let owned = base_owned(me, rows, vec![me]);
    // 2/4 → 50%
    assert_eq!(
        run(TendencyPctBadge, &owned),
        BadgeDisplay::Metric(BadgeValue::Percent(Some(50)))
    );
}
#[test]
fn tendency_pct_only_user_rows() {
    let me = uid(1);
    let other = uid(2);
    let rows = vec![
        pred(me, 1, ko(10, 18), (1, 0), (1, 0), Stage::Group),
        pred(other, 1, ko(10, 18), (1, 0), (0, 1), Stage::Group), // anderer User, ignoriert
    ];
    let owned = base_owned(me, rows, vec![me, other]);
    assert_eq!(
        run(TendencyPctBadge, &owned),
        BadgeDisplay::Metric(BadgeValue::Percent(Some(100)))
    );
}
#[test]
fn ko_points_empty_before_first_ko() {
    let me = uid(1);
    let rows = vec![pred(me, 1, ko(10, 18), (1, 0), (1, 0), Stage::Group)];
    let owned = base_owned(me, rows, vec![me]);
    assert_eq!(
        run(KnockoutPointsBadge, &owned),
        BadgeDisplay::Metric(BadgeValue::Empty)
    );
}
#[test]
fn ko_points_zero_when_no_ko_predictions_but_others_exist() {
    let me = uid(1);
    let other = uid(2);
    let rows = vec![pred(other, 1, ko(20, 18), (1, 0), (1, 0), Stage::RoundOf32)];
    let owned = base_owned(me, rows, vec![me, other]);
    // Es gibt K.O.-Matches, aber User selbst hat keine Punkte → 0
    assert_eq!(
        run(KnockoutPointsBadge, &owned),
        BadgeDisplay::Metric(BadgeValue::Count(0))
    );
}
#[test]
fn discipline_pct_none_when_no_started() {
    let owned = base_owned(uid(1), vec![], vec![uid(1)]);
    assert_eq!(
        run(DisciplinePctBadge, &owned),
        BadgeDisplay::Metric(BadgeValue::Percent(None))
    );
}
#[test]
fn discipline_pct_basic() {
    let mut owned = base_owned(uid(1), vec![], vec![uid(1)]);
    owned.started_matches_total = 10;
    owned.user_started_tips = 7;
    assert_eq!(
        run(DisciplinePctBadge, &owned),
        BadgeDisplay::Metric(BadgeValue::Percent(Some(70)))
    );
}
#[test]
fn discipline_pct_full() {
    let mut owned = base_owned(uid(1), vec![], vec![uid(1)]);
    owned.started_matches_total = 5;
    owned.user_started_tips = 5;
    assert_eq!(
        run(DisciplinePctBadge, &owned),
        BadgeDisplay::Metric(BadgeValue::Percent(Some(100)))
    );
}
#[test]
fn current_streak_breaks_on_zero_at_top() {
    let me = uid(1);
    // chronologisch: 4, 2, 1 (alle ≥1) — aber neuestes ist 0
    let rows = vec![
        pred(me, 1, ko(10, 18), (1, 0), (1, 0), Stage::Group), // 4
        pred(me, 2, ko(11, 18), (1, 0), (2, 1), Stage::Group), // 2 (diff)
        pred(me, 3, ko(12, 18), (1, 0), (3, 0), Stage::Group), // 1 (tendency)
        pred(me, 4, ko(13, 18), (1, 0), (0, 1), Stage::Group), // 0 ← neuestes
    ];
    let owned = base_owned(me, rows, vec![me]);
    assert_eq!(
        run(CurrentStreakBadge, &owned),
        BadgeDisplay::Metric(BadgeValue::Streak(0))
    );
}
#[test]
fn current_streak_counts_consecutive_recent() {
    let me = uid(1);
    // chronologisch: 0, 0, 4, 2, 1 → Streak 3 (1, 2, 4 zurückwärts)
    let rows = vec![
        pred(me, 1, ko(10, 18), (1, 0), (0, 1), Stage::Group), // 0
        pred(me, 2, ko(11, 18), (1, 0), (0, 2), Stage::Group), // 0
        pred(me, 3, ko(12, 18), (1, 0), (1, 0), Stage::Group), // 4
        pred(me, 4, ko(13, 18), (2, 1), (3, 2), Stage::Group), // 2 (diff)
        pred(me, 5, ko(14, 18), (1, 0), (3, 0), Stage::Group), // 1 (tendency)
    ];
    let owned = base_owned(me, rows, vec![me]);
    assert_eq!(
        run(CurrentStreakBadge, &owned),
        BadgeDisplay::Metric(BadgeValue::Streak(3))
    );
}
#[test]
fn current_streak_zero_when_empty() {
    let owned = base_owned(uid(1), vec![], vec![uid(1)]);
    assert_eq!(
        run(CurrentStreakBadge, &owned),
        BadgeDisplay::Metric(BadgeValue::Streak(0))
    );
}
#[test]
fn longest_streak_tracks_best_run() {
    let me = uid(1);
    // chronologisch: 1, 0, 2, 4, 4, 0, 1 → längste 3
    let rows = vec![
        pred(me, 1, ko(10, 18), (1, 0), (3, 0), Stage::Group), // 1
        pred(me, 2, ko(11, 18), (1, 0), (0, 1), Stage::Group), // 0
        pred(me, 3, ko(12, 18), (2, 1), (3, 2), Stage::Group), // 2
        pred(me, 4, ko(13, 18), (1, 0), (1, 0), Stage::Group), // 4
        pred(me, 5, ko(14, 18), (0, 0), (0, 0), Stage::Group), // 4
        pred(me, 6, ko(15, 18), (1, 0), (0, 1), Stage::Group), // 0
        pred(me, 7, ko(16, 18), (1, 0), (3, 0), Stage::Group), // 1
    ];
    let owned = base_owned(me, rows, vec![me]);
    assert_eq!(
        run(LongestStreakBadge, &owned),
        BadgeDisplay::Metric(BadgeValue::Streak(3))
    );
}
#[test]
fn longest_streak_zero_when_all_misses() {
    let me = uid(1);
    let rows = vec![pred(me, 1, ko(10, 18), (1, 0), (0, 1), Stage::Group)];
    let owned = base_owned(me, rows, vec![me]);
    assert_eq!(
        run(LongestStreakBadge, &owned),
        BadgeDisplay::Metric(BadgeValue::Streak(0))
    );
}
#[test]
fn longest_streak_zero_when_empty() {
    let owned = base_owned(uid(1), vec![], vec![uid(1)]);
    assert_eq!(
        run(LongestStreakBadge, &owned),
        BadgeDisplay::Metric(BadgeValue::Streak(0))
    );
}
#[test]
fn rank_delta_none_when_no_prior_day() {
    let me = uid(1);
    // Heute (15.6.) ist auch der einzige Tag mit Matches.
    let rows = vec![pred(me, 1, ko(15, 18), (1, 0), (1, 0), Stage::Group)];
    let owned = base_owned(me, rows, vec![me]);
    assert_eq!(
        run(RankDeltaBadge, &owned),
        BadgeDisplay::Metric(BadgeValue::Delta(None))
    );
}
#[test]
fn rank_delta_climb() {
    let a = uid(1); // me
    let b = uid(2);
    let c = uid(3);
    // Vor heute: B=4, C=4, A=0 → A auf Rang 2 (A=0, B&C=4 tied)
    // Heute: A=4, B=0, C=0 → A=4, B=4, C=4 alle tied → Rang 1
    let rows = vec![
        // Vortag (10.6.)
        pred(a, 1, ko(10, 18), (1, 0), (0, 1), Stage::Group),
        pred(b, 1, ko(10, 18), (1, 0), (1, 0), Stage::Group),
        pred(c, 1, ko(10, 18), (1, 0), (1, 0), Stage::Group),
        // Heute (15.6.)
        pred(a, 2, ko(15, 18), (1, 0), (1, 0), Stage::Group),
        pred(b, 2, ko(15, 18), (1, 0), (0, 1), Stage::Group),
        pred(c, 2, ko(15, 18), (1, 0), (0, 1), Stage::Group),
    ];
    let owned = base_owned(a, rows, vec![a, b, c]);
    // prev_rank: A=0, B=4, C=4 → 2 verschiedene Punktwerte > 0 = 1 → A Rang 2.
    // cur_rank: A=4, B=4, C=4 → alle gleich → A Rang 1.
    // Delta: 2 - 1 = 1
    assert_eq!(
        run(RankDeltaBadge, &owned),
        BadgeDisplay::Metric(BadgeValue::Delta(Some(1)))
    );
}
#[test]
fn rank_delta_drop() {
    let a = uid(1);
    let b = uid(2);
    // Vortag: A=4, B=0 → A Rang 1. Heute: A=0, B=4 → A=4, B=4 tied → A Rang 1.
    // Delta = 0 (kein Drop, weil tie). Eigentlicher Drop-Test: A=4, B=0 → A=4, B=8.
    let rows = vec![
        pred(a, 1, ko(10, 18), (1, 0), (1, 0), Stage::Group), // A=4
        pred(b, 1, ko(10, 18), (1, 0), (0, 1), Stage::Group), // B=0
        pred(a, 2, ko(15, 18), (1, 0), (0, 1), Stage::Group), // A=0
        pred(b, 2, ko(15, 18), (1, 0), (1, 0), Stage::Group), // B=4
        pred(b, 3, ko(15, 19), (2, 1), (2, 1), Stage::Group), // B=4 → B total 8
    ];
    let owned = base_owned(a, rows, vec![a, b]);
    // prev: A=4, B=0 → A Rang 1. cur: A=4, B=8 → A Rang 2. Delta 1-2 = -1.
    assert_eq!(
        run(RankDeltaBadge, &owned),
        BadgeDisplay::Metric(BadgeValue::Delta(Some(-1)))
    );
}
#[test]
fn champion_empty_without_pick() {
    let owned = base_owned(uid(1), vec![], vec![uid(1)]);
    assert_eq!(
        run(ChampionPickBadge, &owned),
        BadgeDisplay::Metric(BadgeValue::Empty)
    );
}
#[test]
fn champion_with_pick() {
    let mut owned = base_owned(uid(1), vec![], vec![uid(1)]);
    owned.user_champion = Some(ChampionView {
        team_name: "Deutschland".into(),
        flag_url: "https://flagcdn.com/w40/de.png".into(),
    });
    let r = run(ChampionPickBadge, &owned);
    match r {
        BadgeDisplay::Metric(BadgeValue::Champion { team, flag_url }) => {
            assert_eq!(team, "Deutschland");
            assert!(flag_url.ends_with("de.png"));
        }
        _ => panic!("expected Champion variant, got {:?}", r),
    }
}
#[test]
fn sanity_invariants_over_random_inputs() {
    // Deterministische Pseudo-Sequenz statt rand-Crate.
    let me = uid(1);
    let other = uid(2);
    for seed in 0u32..50 {
        let mut rows = vec![];
        for i in 0..10 {
            let day = 10 + (i + seed) % 6;
            let actual = ((seed.wrapping_mul(31) + i) % 4) as i32;
            let pred_h = ((seed.wrapping_mul(17) + i * 3) % 4) as i32;
            let pred_a = ((seed.wrapping_mul(23) + i * 5) % 4) as i32;
            let user = if (seed + i) % 2 == 0 { me } else { other };
            let stage = if i % 5 == 0 {
                Stage::RoundOf16
            } else {
                Stage::Group
            };
            rows.push(pred(
                user,
                i as i32,
                ko(day, 18),
                (actual, (actual + 1) % 4),
                (pred_h, pred_a),
                stage,
            ));
        }
        let owned = base_owned(me, rows, vec![me, other]);

        // ExactCount ≤ Anzahl getippter fertiger Matches.
        let user_finished = owned
            .finished_predictions
            .iter()
            .filter(|r| r.user_id == me)
            .count() as i32;
        if let BadgeDisplay::Achievement { times_earned } = run(ExactCountBadge, &owned) {
            assert!(
                times_earned <= user_finished,
                "exact_count {} > user_finished {}",
                times_earned,
                user_finished
            );
        }

        // TendencyPct ∈ [0,100] oder None.
        if let BadgeDisplay::Metric(BadgeValue::Percent(p)) = run(TendencyPctBadge, &owned) {
            if let Some(v) = p {
                assert!((0..=100).contains(&v), "pct out of range: {v}");
            }
        }

        // CurrentStreak ≤ LongestStreak.
        let cur = match run(CurrentStreakBadge, &owned) {
            BadgeDisplay::Metric(BadgeValue::Streak(n)) => n,
            _ => 0,
        };
        let lng = match run(LongestStreakBadge, &owned) {
            BadgeDisplay::Metric(BadgeValue::Streak(n)) => n,
            _ => 0,
        };
        assert!(cur <= lng, "current {cur} > longest {lng}");
    }
}
#[test]
fn registry_has_all_badges_in_stable_order() {
    let owned = base_owned(uid(1), vec![], vec![uid(1)]);
    let views = compute_all(&owned.as_ctx());
    let keys: Vec<&str> = views.iter().map(|v| v.key).collect();
    assert_eq!(
        keys,
        vec![
            "matchday_wins",
            "exact_count",
            "underdog",
            "solo_hit",
            "tendency_pct",
            "knockout_points",
            "discipline_pct",
            "current_streak",
            "longest_streak",
            "rank_delta",
            "champion_pick",
        ]
    );
    // Jeder Badge hat einen nicht-leeren how_to_earn-Text.
    for v in &views {
        assert!(
            !v.how_to_earn.is_empty(),
            "{} hat keinen how_to_earn-Text",
            v.key
        );
        assert!(!v.title.is_empty());
        assert!(!v.icon.is_empty());
    }
}

#[test]
fn ko_points_sums_only_ko() {
    let me = uid(1);
    let rows = vec![
        pred(me, 1, ko(10, 18), (1, 0), (1, 0), Stage::Group), // 4 (group, ignored)
        pred(me, 2, ko(20, 18), (2, 1), (2, 1), Stage::RoundOf32), // 4 * 2 = 8
        pred(me, 3, ko(25, 18), (1, 0), (1, 0), Stage::QuarterFinal), // 4 * 4 = 16
    ];
    let owned = base_owned(me, rows, vec![me]);
    assert_eq!(
        run(KnockoutPointsBadge, &owned),
        BadgeDisplay::Metric(BadgeValue::Count(24))
    );
}

/// With distinct kickoffs the current streak never exceeds the longest.
#[test]
fn current_streak_not_above_longest() {
    let me = uid(1);
    let rows = vec![
        pred(me, 1, ko(10, 18), (1, 0), (1, 0), Stage::Group),
        pred(me, 2, ko(11, 18), (1, 0), (0, 1), Stage::Group),
        pred(me, 3, ko(12, 18), (2, 0), (1, 0), Stage::Group),
        pred(me, 4, ko(13, 18), (2, 2), (1, 1), Stage::Group),
        pred(me, 5, ko(14, 18), (3, 1), (2, 0), Stage::Group),
    ];
    let owned = base_owned(me, rows, vec![me]);
    assert_eq!(run(CurrentStreakBadge, &owned), BadgeDisplay::Metric(BadgeValue::Streak(3)));
    assert_eq!(run(LongestStreakBadge, &owned), BadgeDisplay::Metric(BadgeValue::Streak(3)));
}

/// Tied kickoffs that agree on scoring keep the current streak within the
/// longest.
#[test]
fn current_streak_not_above_longest_with_agreeing_ties() {
    let me = uid(1);
    let rows = vec![
        pred(me, 1, ko(10, 18), (1, 0), (0, 1), Stage::Group),
        pred(me, 2, ko(11, 18), (2, 0), (1, 0), Stage::Group),
        pred(me, 3, ko(11, 18), (1, 1), (0, 0), Stage::Group),
        pred(me, 4, ko(12, 18), (2, 1), (2, 1), Stage::Group),
    ];
    let owned = base_owned(me, rows, vec![me]);
    assert_eq!(run(CurrentStreakBadge, &owned), BadgeDisplay::Metric(BadgeValue::Streak(3)));
    assert_eq!(run(LongestStreakBadge, &owned), BadgeDisplay::Metric(BadgeValue::Streak(3)));
}
