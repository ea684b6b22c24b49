use pila::league::DEFAULT_LEAGUE_ID;
use pila::specials::MemorySpecialPredictionRepo;

#[test]
fn upsert_then_get_round_trips() {
    let mut repo = MemorySpecialPredictionRepo::new();
    let user = 0xA1;
    repo.upsert(user, Some(42));
    assert_eq!(repo.get_user_champion(user), Some(42));
}

#[test]
fn upsert_overwrites_existing_pick() {
    let mut repo = MemorySpecialPredictionRepo::new();
    let user = 0xA1;
    repo.upsert(user, Some(1));
    repo.upsert(user, Some(2));
    assert_eq!(repo.get_user_champion(user), Some(2));
}

#[test]
fn upsert_none_clears_pick() {
    let mut repo = MemorySpecialPredictionRepo::new();
    let user = 0xA1;
    repo.upsert(user, Some(1));
    repo.upsert(user, None);
    assert_eq!(repo.get_user_champion(user), None);
}

#[test]
fn list_all_picks_filters_none_and_scopes_by_league() {
    let mut repo = MemorySpecialPredictionRepo::new();
    let a = 0xA1;
    let b = 0xB2;
    repo.seed_user(a, DEFAULT_LEAGUE_ID, "A");
    repo.seed_user(b, DEFAULT_LEAGUE_ID, "B");
    repo.upsert(a, Some(11));
    repo.upsert(b, None);
    let picks = repo.list_all_picks(DEFAULT_LEAGUE_ID);
    assert_eq!(picks.len(), 1);
    assert_eq!(picks[0].1, 11);
}

#[test]
fn list_all_picks_excludes_other_leagues() {
    let mut repo = MemorySpecialPredictionRepo::new();
    let other = 0x0DD;
    let a = 0xA1;
    let b = 0xB2;
    repo.seed_user(a, DEFAULT_LEAGUE_ID, "A");
    repo.seed_user(b, other, "B");
    repo.upsert(a, Some(1));
    repo.upsert(b, Some(2));
    let default_picks = repo.list_all_picks(DEFAULT_LEAGUE_ID);
    assert_eq!(default_picks, vec![(a, 1)]);
    let other_picks = repo.list_all_picks(other);
    assert_eq!(other_picks, vec![(b, 2)]);
}

#[test]
fn named_picks_sorted_by_name_within_the_league() {
    let mut repo = MemorySpecialPredictionRepo::new();
    repo.seed_user(1, DEFAULT_LEAGUE_ID, "Zoe");
    repo.seed_user(2, DEFAULT_LEAGUE_ID, "Anna");
    repo.seed_user(3, 0x0DD, "Mallory");
    repo.upsert(1, Some(7));
    // A pick made before the player is known carries no league.
    repo.upsert(4, Some(9));
    let rows = repo.list_with_user_names(DEFAULT_LEAGUE_ID);
    let lines: Vec<(String, Option<i32>)> = rows.iter().map(|r| (r.user_name.clone(), r.champion_id)).collect();
    assert_eq!(lines, vec![("Anna".to_string(), None), ("Zoe".to_string(), Some(7))]);
    assert!(rows.iter().all(|r| r.team_name.is_none() && r.flag_code.is_none()));
    assert!(repo.user_champion_view(1).is_none());
    assert!(repo.list_all_picks(0).contains(&(4, 9)));
}
