use pila::store::{is_placeholder, EspnTeamUpsert, MemoryBootstrapRepo, MemorySettingsRepo, MemoryTeamRepo, TeamOption};

fn team(id: i32, name: &str) -> TeamOption {
    TeamOption { id, name: name.to_string(), flag_code: None }
}

#[test]
fn returns_seeded_value() {
    let mut repo = MemorySettingsRepo::new();
    repo.seed("tipprunden_name", "Acme Tippspiel");
    assert_eq!(repo.get("tipprunden_name").as_deref(), Some("Acme Tippspiel"));
}

#[test]
fn missing_key_returns_none() {
    let repo = MemorySettingsRepo::new();
    assert!(repo.get("absent").is_none());
}

#[test]
fn setting_overwrites_and_keeps_others() {
    let mut repo = MemorySettingsRepo::new();
    repo.set("a", "1");
    repo.set("b", "2");
    repo.set("a", "3");
    assert_eq!(repo.get("a").as_deref(), Some("3"));
    assert_eq!(repo.get("b").as_deref(), Some("2"));
}

#[test]
fn list_excludes_placeholders_and_sorts_alphabetically() {
    let mut repo = MemoryTeamRepo::new();
    repo.seed(team(2, "Brazil"));
    repo.seed(team(1, "Argentina"));
    repo.seed(team(99, "Group A Winner"));
    repo.seed(team(98, "Quarterfinal 2"));
    repo.seed(team(3, "Canada"));

    let list = repo.list_real_for_dropdown();
    let names: Vec<_> = list.iter().map(|t| t.name.as_str()).collect();
    assert_eq!(names, vec!["Argentina", "Brazil", "Canada"]);
}

#[test]
fn exists_real_rejects_placeholders() {
    let mut repo = MemoryTeamRepo::new();
    repo.seed(team(99, "Group A Winner"));
    repo.seed(team(11, "Germany"));
    assert!(repo.exists_real(11));
    assert!(!repo.exists_real(99));
    assert!(!repo.exists_real(404));
}

#[test]
fn upsert_updates_name_and_keeps_flag() {
    let mut repo = MemoryTeamRepo::new();
    repo.seed(TeamOption { id: 7, name: "Germny".into(), flag_code: Some("de".into()) });
    let u = EspnTeamUpsert { espn_id: 7, name: "Germany", short_name: Some("GER"), flag_code: None, group_letter: Some("A") };
    repo.upsert_from_espn(u.clone());
    repo.upsert_from_espn(u);
    let list = repo.list_real_for_dropdown();
    assert_eq!(list.len(), 1);
    assert_eq!(list[0].name, "Germany");
    assert_eq!(list[0].flag_code.as_deref(), Some("de"));
    repo.upsert_from_espn(EspnTeamUpsert { espn_id: 8, name: "Round of 16 1", short_name: None, flag_code: Some("xx"), group_letter: None });
    assert!(!repo.exists_real(8));
}

#[test]
fn placeholder_names() {
    assert!(is_placeholder("Group B Runner-up"));
    assert!(is_placeholder("Semifinal 1 Winner"));
    assert!(is_placeholder("Round of 32 5"));
    assert!(is_placeholder("Third Place Match"));
    assert!(!is_placeholder("Groupland"));
    assert!(!is_placeholder("Brazil"));
    let _ = MemoryBootstrapRepo::new();
}
