use pila::league::DEFAULT_LEAGUE_ID;
use pila::notifications::{ClosingSoonMatch, MemoryNotificationRepo};
use pila::notifier::{NoopNotifier, NotificationEvent, Notifier};
use pila::stage::Stage;

/// Drop-target notifier that always succeeds.
struct OkNotifier;
impl Notifier for OkNotifier {
    fn notify(&self, _event: NotificationEvent) -> Result<(), String> {
        Ok(())
    }
}

/// Notifier that always fails, to see the slot given back.
struct FailNotifier;
impl Notifier for FailNotifier {
    fn notify(&self, _event: NotificationEvent) -> Result<(), String> {
        Err("nope".to_string())
    }
}

const OTHER_LEAGUE: u128 = 0x5eed_0000_0000_0000_0000_0000_0000_0042;
const NOW: i64 = 1_781_524_800;

fn lock_event() -> NotificationEvent {
    NotificationEvent::SpecialPredictionsLock { lock_at: NOW, missing_names: vec!["Anna".into()] }
}

fn closing(id: i32, hours: i64, home: &str, away: &str) -> ClosingSoonMatch {
    ClosingSoonMatch {
        match_id: id,
        stage: Stage::Group,
        group_letter: Some("A".into()),
        kickoff_time: NOW + hours * 3600,
        home: home.into(),
        away: away.into(),
    }
}

#[test]
fn memory_try_send_succeeds_first_time_and_records_slot() {
    let mut repo = MemoryNotificationRepo::new();
    let sent = repo.try_send(&OkNotifier, DEFAULT_LEAGUE_ID, "match_closing_soon", 1, None, lock_event());
    assert!(sent);
    assert!(repo.already_sent(DEFAULT_LEAGUE_ID, "match_closing_soon", 1, None));
}

#[test]
fn memory_try_send_skips_already_recorded_slot() {
    let mut repo = MemoryNotificationRepo::new();
    let _ = repo.try_send(&OkNotifier, DEFAULT_LEAGUE_ID, "match_closing_soon", 1, None, lock_event());
    let sent_again = repo.try_send(&OkNotifier, DEFAULT_LEAGUE_ID, "match_closing_soon", 1, None, lock_event());
    assert!(!sent_again, "second call must be a no-op");
    assert_eq!(repo.sent_count(), 1);
}

#[test]
fn memory_try_send_releases_slot_on_notifier_failure() {
    let mut repo = MemoryNotificationRepo::new();
    let sent = repo.try_send(&FailNotifier, DEFAULT_LEAGUE_ID, "special_lock_soon", 0, None, lock_event());
    assert!(!sent);
    assert!(
        !repo.already_sent(DEFAULT_LEAGUE_ID, "special_lock_soon", 0, None),
        "slot must be released so the next tick retries"
    );
}

#[test]
fn silence_only_marks_within_one_league() {
    let mut repo = MemoryNotificationRepo::new();
    repo.seed_match_with_both_teams(1);
    repo.seed_match_with_both_teams(2);
    repo.silence_existing_matches(DEFAULT_LEAGUE_ID);

    assert!(repo.already_sent(DEFAULT_LEAGUE_ID, "match_closing_soon", 1, None));
    assert!(!repo.already_sent(OTHER_LEAGUE, "match_closing_soon", 1, None));
}

#[test]
fn memory_users_missing_prediction_excludes_those_who_tipped() {
    let mut repo = MemoryNotificationRepo::new();
    repo.seed_user(DEFAULT_LEAGUE_ID, "Anna");
    repo.seed_user(DEFAULT_LEAGUE_ID, "Ben");
    repo.seed_user(DEFAULT_LEAGUE_ID, "Cleo");
    repo.seed_prediction(DEFAULT_LEAGUE_ID, "Ben", 5);

    let missing = repo.users_missing_prediction_for(DEFAULT_LEAGUE_ID, 5);
    assert_eq!(missing, vec!["Anna".to_string(), "Cleo".to_string()]);
}

#[test]
fn users_missing_prediction_excludes_other_leagues() {
    let mut repo = MemoryNotificationRepo::new();
    repo.seed_user(DEFAULT_LEAGUE_ID, "Anna");
    repo.seed_user(OTHER_LEAGUE, "Mallory");
    let missing = repo.users_missing_prediction_for(DEFAULT_LEAGUE_ID, 5);
    assert_eq!(missing, vec!["Anna".to_string()]);
}

#[test]
fn memory_users_missing_champion_excludes_pickers() {
    let mut repo = MemoryNotificationRepo::new();
    repo.seed_user(DEFAULT_LEAGUE_ID, "Anna");
    repo.seed_user_with_champion(DEFAULT_LEAGUE_ID, "Ben");
    let missing = repo.users_missing_champion(DEFAULT_LEAGUE_ID);
    assert_eq!(missing, vec!["Anna".to_string()]);
}

#[test]
fn list_closing_soon_excludes_already_sent_for_this_league_only() {
    let mut repo = MemoryNotificationRepo::new();
    repo.seed_closing_soon(closing(1, 2, "GER", "BRA"));
    repo.seed_closing_soon(closing(2, 5, "ARG", "URU"));
    // Default league marked match 1 as sent.
    let _ = repo.try_send(&OkNotifier, DEFAULT_LEAGUE_ID, "match_closing_soon", 1, None, lock_event());

    let default_ids: Vec<i32> = repo.list_closing_soon_unnotified(DEFAULT_LEAGUE_ID).iter().map(|m| m.match_id).collect();
    assert_eq!(default_ids, vec![2]);

    // The other league still sees both: its state is independent.
    let other_ids: Vec<i32> = repo.list_closing_soon_unnotified(OTHER_LEAGUE).iter().map(|m| m.match_id).collect();
    assert_eq!(other_ids, vec![1, 2]);
}

#[test]
fn missing_names_come_sorted_whatever_the_seed_order() {
    let mut repo = MemoryNotificationRepo::new();
    repo.seed_user(DEFAULT_LEAGUE_ID, "Zoe");
    repo.seed_user(DEFAULT_LEAGUE_ID, "Anna");
    repo.seed_user(DEFAULT_LEAGUE_ID, "Mia");
    repo.seed_prediction(OTHER_LEAGUE, "Mia", 5);
    let missing = repo.users_missing_prediction_for(DEFAULT_LEAGUE_ID, 5);
    assert_eq!(missing, vec!["Anna".to_string(), "Mia".to_string(), "Zoe".to_string()]);
    let no_champion = repo.users_missing_champion(DEFAULT_LEAGUE_ID);
    assert_eq!(no_champion, vec!["Anna".to_string(), "Mia".to_string(), "Zoe".to_string()]);
}

#[test]
fn per_user_slots_are_separate() {
    let mut repo = MemoryNotificationRepo::new();
    assert!(repo.try_send(&OkNotifier, DEFAULT_LEAGUE_ID, "invite", 3, Some(7), lock_event()));
    assert!(repo.try_send(&OkNotifier, DEFAULT_LEAGUE_ID, "invite", 3, Some(8), lock_event()));
    assert!(repo.try_send(&OkNotifier, DEFAULT_LEAGUE_ID, "invite", 3, None, lock_event()));
    assert!(!repo.try_send(&OkNotifier, DEFAULT_LEAGUE_ID, "invite", 3, Some(7), lock_event()));
    assert_eq!(repo.sent_count(), 3);
}

#[test]
fn failed_send_is_retried_on_the_next_tick() {
    let mut repo = MemoryNotificationRepo::new();
    assert!(!repo.try_send(&FailNotifier, DEFAULT_LEAGUE_ID, "match_closing_soon", 9, None, lock_event()));
    assert_eq!(repo.sent_count(), 0);
    assert!(repo.try_send(&OkNotifier, DEFAULT_LEAGUE_ID, "match_closing_soon", 9, None, lock_event()));
    assert_eq!(repo.sent_count(), 1);
}

#[test]
fn claim_and_settle_by_outcome() {
    let mut repo = MemoryNotificationRepo::new();
    assert!(repo.claim(DEFAULT_LEAGUE_ID, "k", 1, None));
    assert!(!repo.claim(DEFAULT_LEAGUE_ID, "k", 1, None));
    assert!(!repo.settle(DEFAULT_LEAGUE_ID, "k", 1, None, &Err("down".to_string())));
    assert!(!repo.already_sent(DEFAULT_LEAGUE_ID, "k", 1, None));
    assert!(repo.claim(DEFAULT_LEAGUE_ID, "k", 1, None));
    assert!(repo.settle(DEFAULT_LEAGUE_ID, "k", 1, None, &Ok(())));
    assert!(repo.already_sent(DEFAULT_LEAGUE_ID, "k", 1, None));
}

#[test]
fn silencing_twice_changes_nothing_more() {
    let mut repo = MemoryNotificationRepo::new();
    repo.seed_match_with_both_teams(4);
    repo.seed_match_with_both_teams(5);
    repo.silence_existing_matches(DEFAULT_LEAGUE_ID);
    assert_eq!(repo.sent_count(), 2);
    repo.silence_existing_matches(DEFAULT_LEAGUE_ID);
    assert_eq!(repo.sent_count(), 2);
}

#[test]
fn memory_try_send_with_noop_notifier_records_the_slot() {
    let mut repo = MemoryNotificationRepo::new();
    assert!(repo.try_send(&NoopNotifier, DEFAULT_LEAGUE_ID, "special_lock", 0, None, lock_event()));
    assert!(repo.already_sent(DEFAULT_LEAGUE_ID, "special_lock", 0, None));
    assert!(!repo.try_send(&NoopNotifier, DEFAULT_LEAGUE_ID, "special_lock", 0, None, lock_event()));
}
