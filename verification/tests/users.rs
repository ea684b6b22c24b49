use pila::league::DEFAULT_LEAGUE_ID;
use pila::users::{MemoryUserRepo, NewUser, RepoError, UserFull};

fn user(id: u128, name: &str, token: &str, is_admin: bool) -> UserFull {
    UserFull {
        id,
        name: name.to_string(),
        real_name: name.to_string(),
        token: token.to_string(),
        phone_number: None,
        email: None,
        is_admin,
        can_create_league: false,
        league_id: DEFAULT_LEAGUE_ID,
        language: "de".to_string(),
    }
}

#[test]
fn user_create_then_find_by_token_returns_auth_view() {
    let mut repo = MemoryUserRepo::new();
    let id = 0xA11CE;
    repo.create(NewUser {
        id,
        name: "Alice",
        real_name: "Alice",
        token: "tkn-a",
        is_admin: true,
        phone_number: Some("+491"),
        email: Some("alice@example.com"),
        league_id: DEFAULT_LEAGUE_ID,
        language: "de",
    })
    .unwrap();

    let auth = repo.find_by_token("tkn-a").unwrap();
    assert_eq!(auth.id, id);
    assert_eq!(auth.name, "Alice");
    assert!(auth.is_admin);
    assert_eq!(auth.phone_number.as_deref(), Some("+491"));
    assert_eq!(auth.email.as_deref(), Some("alice@example.com"));
    assert_eq!(auth.league_id, DEFAULT_LEAGUE_ID);
}

#[test]
fn user_list_for_admin_is_sorted_by_name() {
    let mut repo = MemoryUserRepo::new();
    repo.seed(user(1, "Charlie", "t1", false), "classic");
    repo.seed(user(2, "Alice", "t2", true), "classic");
    repo.seed(user(3, "Bob", "t3", false), "classic");

    let list = repo.list_for_admin(DEFAULT_LEAGUE_ID);
    let names: Vec<_> = list.iter().map(|u| u.name.as_str()).collect();
    assert_eq!(names, vec!["Alice", "Bob", "Charlie"]);
}

#[test]
fn user_count_admins_only_counts_admins() {
    let mut repo = MemoryUserRepo::new();
    repo.seed(user(1, "a", "t1", true), "classic");
    repo.seed(user(2, "b", "t2", false), "classic");
    repo.seed(user(3, "c", "t3", true), "classic");
    assert_eq!(repo.count_admins(), 2);
}

#[test]
fn user_rename_updates_name() {
    let mut repo = MemoryUserRepo::new();
    let u = user(7, "Old", "t", false);
    let id = u.id;
    repo.seed(u, "classic");
    repo.rename(id, "New").unwrap();
    let after = repo.find_full_by_id(id).unwrap();
    assert_eq!(after.name, "New");
}

#[test]
fn user_delete_removes_user_and_jersey() {
    let mut repo = MemoryUserRepo::new();
    let u = user(7, "X", "t", false);
    let id = u.id;
    repo.seed(u, "brasilien");
    repo.delete(id);
    assert!(repo.find_full_by_id(id).is_none());
}

#[test]
fn user_set_jersey_persists() {
    let mut repo = MemoryUserRepo::new();
    let u = user(7, "X", "t", false);
    let id = u.id;
    repo.seed(u, "classic");
    repo.set_jersey(id, "brasilien");
    let auth = repo.find_by_token("t").unwrap();
    assert_eq!(auth.jersey_preset, "brasilien");
}

#[test]
fn user_set_email_persists() {
    let mut repo = MemoryUserRepo::new();
    let u = user(7, "X", "t", false);
    let id = u.id;
    repo.seed(u, "classic");
    repo.set_email(id, Some("x@example.com"));
    let full = repo.find_full_by_id(id).unwrap();
    assert_eq!(full.email.as_deref(), Some("x@example.com"));
    repo.set_email(id, None);
    let full = repo.find_full_by_id(id).unwrap();
    assert!(full.email.is_none());
}

#[test]
fn user_list_for_admin_filters_by_league() {
    let mut repo = MemoryUserRepo::new();
    let other_league = 0xBEEF;
    let mut a = user(1, "Alice", "t1", false);
    a.league_id = DEFAULT_LEAGUE_ID;
    let mut b = user(2, "Bob", "t2", false);
    b.league_id = other_league;
    repo.seed(a, "classic");
    repo.seed(b, "classic");

    let default_list = repo.list_for_admin(DEFAULT_LEAGUE_ID);
    assert_eq!(default_list.len(), 1);
    assert_eq!(default_list[0].name, "Alice");

    let other_list = repo.list_for_admin(other_league);
    assert_eq!(other_list.len(), 1);
    assert_eq!(other_list[0].name, "Bob");
}

#[test]
fn user_list_ids_filters_by_league() {
    let mut repo = MemoryUserRepo::new();
    let other = 0xBEEF;
    let mut a = user(1, "Alice", "t1", false);
    a.league_id = DEFAULT_LEAGUE_ID;
    let mut b = user(2, "Bob", "t2", false);
    b.league_id = other;
    repo.seed(a, "classic");
    repo.seed(b, "classic");

    assert_eq!(repo.list_ids(DEFAULT_LEAGUE_ID).len(), 1);
    assert_eq!(repo.list_ids(other).len(), 1);
    assert_eq!(repo.list_all_ids().len(), 2);
}

#[test]
fn memory_create_then_find_by_token_returns_auth_view() {
    let mut repo = MemoryUserRepo::new();
    let id = 0xA11CE;
    repo.create(NewUser {
        id,
        name: "Alice",
        real_name: "Alice",
        token: "tkn-a",
        is_admin: true,
        phone_number: Some("+491"),
        email: Some("alice@example.com"),
        league_id: DEFAULT_LEAGUE_ID,
        language: "de",
    })
    .unwrap();

    let auth = repo.find_by_token("tkn-a").unwrap();
    assert_eq!(auth.id, id);
    assert_eq!(auth.name, "Alice");
    assert!(auth.is_admin);
    assert_eq!(auth.phone_number.as_deref(), Some("+491"));
    assert_eq!(auth.email.as_deref(), Some("alice@example.com"));
    assert_eq!(auth.league_id, DEFAULT_LEAGUE_ID);
}

#[test]
fn memory_list_for_admin_is_sorted_by_name() {
    let mut repo = MemoryUserRepo::new();
    repo.seed(user(1, "Charlie", "t1", false), "classic");
    repo.seed(user(2, "Alice", "t2", true), "classic");
    repo.seed(user(3, "Bob", "t3", false), "classic");

    let list = repo.list_for_admin(DEFAULT_LEAGUE_ID);
    let names: Vec<_> = list.iter().map(|u| u.name.as_str()).collect();
    assert_eq!(names, vec!["Alice", "Bob", "Charlie"]);
}

#[test]
fn memory_count_admins_only_counts_admins() {
    let mut repo = MemoryUserRepo::new();
    repo.seed(user(1, "a", "t1", true), "classic");
    repo.seed(user(2, "b", "t2", false), "classic");
    repo.seed(user(3, "c", "t3", true), "classic");
    assert_eq!(repo.count_admins(), 2);
}

#[test]
fn memory_rename_updates_name() {
    let mut repo = MemoryUserRepo::new();
    let u = user(7, "Old", "t", false);
    let id = u.id;
    repo.seed(u, "classic");
    repo.rename(id, "New").unwrap();
    let after = repo.find_full_by_id(id).unwrap();
    assert_eq!(after.name, "New");
}

#[test]
fn memory_delete_removes_user_and_jersey() {
    let mut repo = MemoryUserRepo::new();
    let u = user(7, "X", "t", false);
    let id = u.id;
    repo.seed(u, "brasilien");
    repo.delete(id);
    assert!(repo.find_full_by_id(id).is_none());
}

#[test]
fn memory_set_jersey_persists() {
    let mut repo = MemoryUserRepo::new();
    let u = user(7, "X", "t", false);
    let id = u.id;
    repo.seed(u, "classic");
    repo.set_jersey(id, "brasilien");
    let auth = repo.find_by_token("t").unwrap();
    assert_eq!(auth.jersey_preset, "brasilien");
}

#[test]
fn memory_set_email_persists() {
    let mut repo = MemoryUserRepo::new();
    let u = user(7, "X", "t", false);
    let id = u.id;
    repo.seed(u, "classic");
    repo.set_email(id, Some("x@example.com"));
    let full = repo.find_full_by_id(id).unwrap();
    assert_eq!(full.email.as_deref(), Some("x@example.com"));
    repo.set_email(id, None);
    let full = repo.find_full_by_id(id).unwrap();
    assert!(full.email.is_none());
}

#[test]
fn memory_list_for_admin_filters_by_league() {
    let mut repo = MemoryUserRepo::new();
    let other_league = 0xBEEF;
    let mut a = user(1, "Alice", "t1", false);
    a.league_id = DEFAULT_LEAGUE_ID;
    let mut b = user(2, "Bob", "t2", false);
    b.league_id = other_league;
    repo.seed(a, "classic");
    repo.seed(b, "classic");

    let default_list = repo.list_for_admin(DEFAULT_LEAGUE_ID);
    assert_eq!(default_list.len(), 1);
    assert_eq!(default_list[0].name, "Alice");

    let other_list = repo.list_for_admin(other_league);
    assert_eq!(other_list.len(), 1);
    assert_eq!(other_list[0].name, "Bob");
}

#[test]
fn memory_list_ids_filters_by_league() {
    let mut repo = MemoryUserRepo::new();
    let other = 0xBEEF;
    let mut a = user(1, "Alice", "t1", false);
    a.league_id = DEFAULT_LEAGUE_ID;
    let mut b = user(2, "Bob", "t2", false);
    b.league_id = other;
    repo.seed(a, "classic");
    repo.seed(b, "classic");

    assert_eq!(repo.list_ids(DEFAULT_LEAGUE_ID).len(), 1);
    assert_eq!(repo.list_ids(other).len(), 1);
    assert_eq!(repo.list_all_ids().len(), 2);
}

#[test]
fn unknown_token_and_id_find_nothing() {
    let mut repo = MemoryUserRepo::new();
    repo.seed(user(1, "A", "t1", false), "classic");
    assert!(repo.find_by_token("nope").is_none());
    assert!(repo.find_full_by_id(99).is_none());
    assert_eq!(repo.count(), 1);
}

#[test]
fn jersey_defaults_to_classic_and_latest_choice_wins() {
    let mut repo = MemoryUserRepo::new();
    repo.create(NewUser {
        id: 5,
        name: "Eve",
        real_name: "Eve",
        token: "te",
        is_admin: false,
        phone_number: None,
        email: None,
        league_id: DEFAULT_LEAGUE_ID,
        language: "en",
    })
    .unwrap();
    assert_eq!(repo.find_by_token("te").unwrap().jersey_preset, "classic");
    // The in-memory store keeps no language: the login view is German.
    assert_eq!(repo.find_by_token("te").unwrap().language, "de");
    repo.set_jersey(5, "a");
    repo.set_jersey(5, "b");
    assert_eq!(repo.list_basic(DEFAULT_LEAGUE_ID)[0].jersey_preset, "b");
    repo.delete(5);
    assert!(repo.list_basic(DEFAULT_LEAGUE_ID).is_empty());
}

#[test]
fn admin_flags_and_email_lists() {
    let mut repo = MemoryUserRepo::new();
    let mut a = user(1, "Anna", "t1", false);
    a.email = Some("anna@x".into());
    repo.seed(a, "classic");
    repo.seed(user(2, "Ben", "t2", false), "classic");
    repo.set_admin(2, true);
    repo.set_can_create_league(2, true);
    let ben = repo.find_full_by_id(2).unwrap();
    assert!(ben.is_admin && ben.can_create_league);
    assert_eq!(repo.count_admins(), 1);
    let reach = repo.users_missing_prediction_with_email(DEFAULT_LEAGUE_ID, 3);
    assert_eq!(reach, vec![(1, "Anna".to_string(), "anna@x".to_string(), "t1".to_string())]);
    assert_eq!(repo.users_missing_champion_with_email(DEFAULT_LEAGUE_ID), reach);
    assert!(repo.users_missing_champion_with_email(0xBEEF).is_empty());
}

#[test]
fn admin_view_marks_own_line_and_links() {
    let mut repo = MemoryUserRepo::new();
    repo.seed(user(1, "Anna", "tok-a", true), "classic");
    repo.seed(user(2, "Ben", "tok-b", false), "classic");
    let rows = repo.list_for_admin(DEFAULT_LEAGUE_ID);
    let views: Vec<_> = rows.into_iter().map(|r| pila::users::admin_user_view(r, 1, "https://pila.example.com/")).collect();
    assert!(views[0].is_self && !views[1].is_self);
    assert_eq!(views[1].magic_link, "https://pila.example.com/play/me/tok-b");
}

fn new_user<'a>(id: u128, name: &'a str, token: &'a str) -> NewUser<'a> {
    NewUser {
        id,
        name,
        real_name: name,
        token,
        is_admin: false,
        phone_number: None,
        email: None,
        league_id: DEFAULT_LEAGUE_ID,
        language: "de",
    }
}

#[test]
fn memory_create_refuses_taken_name_ignoring_case() {
    let mut repo = MemoryUserRepo::new();
    repo.create(new_user(1, "Alice", "t1")).unwrap();
    assert_eq!(repo.create(new_user(2, "aLICE", "t2")), Err(RepoError::Conflict));
    assert_eq!(repo.count(), 1);
    assert!(repo.find_full_by_id(2).is_none());
    assert!(repo.name_exists(DEFAULT_LEAGUE_ID, "ALICE"));
    assert!(!repo.name_exists(DEFAULT_LEAGUE_ID, "Bob"));
}

#[test]
fn memory_create_refuses_taken_id_or_token() {
    let mut repo = MemoryUserRepo::new();
    repo.create(new_user(1, "Alice", "t1")).unwrap();
    assert_eq!(repo.create(new_user(1, "Bob", "t2")), Err(RepoError::Conflict));
    assert_eq!(repo.create(new_user(3, "Carol", "t1")), Err(RepoError::Conflict));
    assert_eq!(repo.count(), 1);
}

#[test]
fn memory_same_name_in_other_league_is_allowed() {
    let mut repo = MemoryUserRepo::new();
    repo.create(new_user(1, "Alice", "t1")).unwrap();
    let mut other = new_user(2, "Alice", "t2");
    other.league_id = 77;
    assert_eq!(repo.create(other), Ok(()));
    assert_eq!(repo.count(), 2);
}

#[test]
fn memory_rename_refuses_name_of_other_player() {
    let mut repo = MemoryUserRepo::new();
    repo.create(new_user(1, "Alice", "t1")).unwrap();
    repo.create(new_user(2, "Bob", "t2")).unwrap();
    assert_eq!(repo.rename(2, "ALICE"), Err(RepoError::Conflict));
    assert_eq!(repo.find_full_by_id(2).unwrap().name, "Bob");
    // A player may change the case of their own name.
    assert_eq!(repo.rename(1, "alice"), Ok(()));
    assert_eq!(repo.find_full_by_id(1).unwrap().name, "alice");
}

#[test]
fn memory_set_real_name_keeps_tip_name() {
    let mut repo = MemoryUserRepo::new();
    repo.create(new_user(1, "Ace", "t1")).unwrap();
    repo.set_real_name(1, "Alice");
    let u = repo.find_full_by_id(1).unwrap();
    assert_eq!(u.name, "Ace");
    assert_eq!(u.real_name, "Alice");
    assert_eq!(repo.find_by_token("t1").unwrap().real_name, "Alice");
    assert_eq!(repo.list_for_admin(DEFAULT_LEAGUE_ID)[0].real_name, "Alice");
}
