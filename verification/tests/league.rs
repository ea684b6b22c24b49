use pila::league::{
    League, LeagueConfig, MemoryLeagueRepo, KEY_DEFAULT_LANGUAGE, KEY_KO_ONLY, KEY_MATCH_SCORING_SYSTEM, KEY_RSS_FEED_URL,
    KEY_SIGNAL_GROUP_ID,
};
use pila::scoring::{MatchScoringSystem, WINNER_ONLY_VALUE};

fn kv(pairs: &[(&str, &str)]) -> Vec<(String, String)> {
    pairs.iter().map(|(k, v)| (k.to_string(), v.to_string())).collect()
}

#[test]
fn from_kv_defaults_when_empty() {
    let cfg = LeagueConfig::from_kv(&vec![]);
    assert_eq!(cfg.default_language, "de");
    assert!(cfg.signal_group_id.is_none());
    assert!(cfg.signal_from_number.is_none());
    assert!(cfg.rss_feed_url.is_none());
    assert!(!cfg.predict_knockout_only);
    assert_eq!(cfg.match_scoring_system, MatchScoringSystem::ExactScore);
    let d = LeagueConfig::default();
    assert_eq!(d.default_language, "de");
    assert!(!d.uses_winner_only_scoring());
}

#[test]
fn config_reads_stored_values() {
    let cfg = LeagueConfig::from_kv(&kv(&[
        ("signal_group_id", "grp"),
        ("default_language", "fr"),
        ("predict_knockout_only", "true"),
        ("match_scoring_system", "winner_only"),
        ("rss_feed_url", "https://feed"),
    ]));
    assert_eq!(cfg.signal_group_id.as_deref(), Some("grp"));
    assert_eq!(cfg.default_language, "fr");
    assert!(cfg.predict_knockout_only);
    assert!(cfg.uses_winner_only_scoring());
    assert_eq!(cfg.rss_feed_url.as_deref(), Some("https://feed"));
}

#[test]
fn config_unknown_values_fall_back() {
    let cfg = LeagueConfig::from_kv(&kv(&[
        ("predict_knockout_only", "yes"),
        ("match_scoring_system", "bogus"),
        ("default_language", "en"),
        ("default_language", "es"),
    ]));
    assert!(!cfg.predict_knockout_only);
    assert_eq!(cfg.match_scoring_system, MatchScoringSystem::ExactScore);
    // The last stored value of a key wins.
    assert_eq!(cfg.default_language, "es");
}

#[test]
fn create_then_list_returns_new_league() {
    let mut repo = MemoryLeagueRepo::new();
    let id = repo.create("Friends");
    let list = repo.list();
    assert_eq!(list.len(), 1);
    assert_eq!(list[0].id, id);
    assert_eq!(list[0].name, "Friends");
    assert!(!list[0].notifications_bootstrapped);
}

#[test]
fn list_is_alphabetical() {
    let mut repo = MemoryLeagueRepo::new();
    repo.create("Zoo");
    repo.create("Acme");
    repo.create("Mid");
    let list = repo.list();
    let names: Vec<_> = list.iter().map(|l| l.name.as_str()).collect();
    assert_eq!(names, vec!["Acme", "Mid", "Zoo"]);
}

#[test]
fn find_by_id_returns_seeded_league() {
    let mut repo = MemoryLeagueRepo::new();
    let id = 0x1234_5678;
    repo.seed(League { id, name: "Friends".into(), notifications_bootstrapped: false });
    let found = repo.find_by_id(id).unwrap();
    assert_eq!(found.name, "Friends");
    assert!(repo.find_by_id(id + 1).is_none());
}

#[test]
fn set_bootstrapped_flips_flag() {
    let mut repo = MemoryLeagueRepo::new();
    let id = repo.create("Friends");
    repo.set_bootstrapped(id);
    let l = repo.find_by_id(id).unwrap();
    assert!(l.notifications_bootstrapped);
}

#[test]
fn get_config_returns_defaults_when_empty() {
    let mut repo = MemoryLeagueRepo::new();
    let id = repo.create("Friends");
    let cfg = repo.get_config(id);
    assert_eq!(cfg.default_language, "de");
    assert!(cfg.signal_group_id.is_none());
    assert!(cfg.signal_from_number.is_none());
    assert!(cfg.rss_feed_url.is_none());
    assert!(!cfg.predict_knockout_only);
    assert_eq!(cfg.match_scoring_system, MatchScoringSystem::ExactScore);
}

#[test]
fn set_setting_then_get_config_round_trips() {
    let mut repo = MemoryLeagueRepo::new();
    let id = repo.create("Friends");
    repo.set_setting(id, KEY_SIGNAL_GROUP_ID, Some("group.123"));
    repo.set_setting(id, KEY_DEFAULT_LANGUAGE, Some("en"));
    repo.set_setting(id, KEY_RSS_FEED_URL, Some("https://x/rss"));
    repo.set_setting(id, KEY_KO_ONLY, Some("true"));
    repo.set_setting(id, KEY_MATCH_SCORING_SYSTEM, Some(WINNER_ONLY_VALUE));
    let cfg = repo.get_config(id);
    assert_eq!(cfg.signal_group_id.as_deref(), Some("group.123"));
    assert_eq!(cfg.default_language, "en");
    assert_eq!(cfg.rss_feed_url.as_deref(), Some("https://x/rss"));
    assert!(cfg.predict_knockout_only);
    assert_eq!(cfg.match_scoring_system, MatchScoringSystem::WinnerOnly);
}

#[test]
fn set_setting_none_deletes_value() {
    let mut repo = MemoryLeagueRepo::new();
    let id = repo.create("Friends");
    repo.set_setting(id, KEY_SIGNAL_GROUP_ID, Some("g"));
    repo.set_setting(id, KEY_SIGNAL_GROUP_ID, None);
    let cfg = repo.get_config(id);
    assert!(cfg.signal_group_id.is_none());
}

#[test]
fn settings_isolated_between_leagues() {
    let mut repo = MemoryLeagueRepo::new();
    let a = repo.create("A");
    let b = repo.create("B");
    repo.set_setting(a, KEY_SIGNAL_GROUP_ID, Some("a-group"));
    let cfg_a = repo.get_config(a);
    let cfg_b = repo.get_config(b);
    assert_eq!(cfg_a.signal_group_id.as_deref(), Some("a-group"));
    assert!(cfg_b.signal_group_id.is_none());
}

#[test]
fn setting_rewritten_after_delete_is_read_back() {
    let mut repo = MemoryLeagueRepo::new();
    let id = repo.create("Friends");
    repo.set_setting(id, KEY_DEFAULT_LANGUAGE, Some("en"));
    repo.set_setting(id, KEY_DEFAULT_LANGUAGE, None);
    assert_eq!(repo.get_config(id).default_language, "de");
    repo.set_setting(id, KEY_DEFAULT_LANGUAGE, Some("fr"));
    repo.set_setting(id, KEY_RSS_FEED_URL, Some("https://f"));
    let cfg = repo.get_config(id);
    assert_eq!(cfg.default_language, "fr");
    assert_eq!(cfg.rss_feed_url.as_deref(), Some("https://f"));
}
