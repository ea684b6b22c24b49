use pila::forms::{plan_join, JoinForm};
use pila::users::{MemoryUserRepo, NewUser};
use pila::forms::{
    optional_text, plan_league_name, plan_league_settings, plan_names, plan_new_member, plan_rename, plan_setup,
    AdminCreateForm, AdminRenameForm, FormError, LeagueSettingsForm, SetupForm,
};

fn setup_form() -> SetupForm {
    SetupForm {
        name: "  Admin ".into(),
        real_name: "".into(),
        phone_number: " ".into(),
        email: " a@b.c ".into(),
        league_name: " Friends ".into(),
        default_language: "".into(),
        signal_group_id: " g ".into(),
        signal_from_number: "".into(),
        rss_feed_url: "".into(),
    }
}

#[test]
fn setup_defaults_real_name_and_language() {
    let plan = plan_setup(0, &setup_form()).unwrap();
    assert_eq!(plan.name, "Admin");
    assert_eq!(plan.real_name, "Admin");
    assert_eq!(plan.league_name, "Friends");
    assert_eq!(plan.language, "de");
    assert_eq!(plan.phone_number, None);
    assert_eq!(plan.email.as_deref(), Some("a@b.c"));
    assert_eq!(plan.settings[0], ("default_language", "de".to_string()));
    assert_eq!(plan.settings[1], ("signal_group_id", "g".to_string()));
    assert_eq!(plan.settings.len(), 4);
}

#[test]
fn setup_rejections() {
    assert_eq!(plan_setup(1, &setup_form()).unwrap_err(), FormError::SetupAlreadyDone);
    let mut f = setup_form();
    f.name = "   ".into();
    assert_eq!(plan_setup(0, &f).unwrap_err(), FormError::NameEmpty);
    let mut f = setup_form();
    f.default_language = "it".into();
    assert_eq!(plan_setup(0, &f).unwrap_err(), FormError::UnknownLanguage);
    let mut f = setup_form();
    f.league_name = "ü".repeat(128);
    assert_eq!(plan_setup(0, &f).unwrap_err(), FormError::LeagueNameTooLong);
    assert_eq!(FormError::LeagueNameTooLong.key(), "error-league-name-too-long");
}

#[test]
fn league_names_count_bytes() {
    assert_eq!(plan_league_name(&"a".repeat(255)).unwrap().len(), 255);
    assert_eq!(plan_league_name(&"a".repeat(256)).unwrap_err(), FormError::LeagueNameTooLong);
    assert_eq!(plan_league_name(&"ß".repeat(127)).unwrap().len(), 254);
    assert_eq!(plan_league_name(&"ß".repeat(128)).unwrap_err(), FormError::LeagueNameTooLong);
    assert_eq!(plan_league_name("  ").unwrap_err(), FormError::LeagueNameEmpty);
}

#[test]
fn names_rules() {
    assert_eq!(plan_names(" Ann ", "").unwrap(), ("Ann".to_string(), "Ann".to_string()));
    assert_eq!(plan_names("Ann", " Anna Schmidt ").unwrap(), ("Ann".to_string(), "Anna Schmidt".to_string()));
    assert_eq!(plan_names(" ", "x").unwrap_err(), FormError::NameEmpty);
    assert_eq!(plan_names(&"ä".repeat(255), "").unwrap().0.chars().count(), 255);
    assert_eq!(plan_names(&"ä".repeat(256), "").unwrap_err(), FormError::NameEmpty);
    assert_eq!(plan_names("Ann", &"x".repeat(256)).unwrap_err(), FormError::NameEmpty);
}

#[test]
fn member_and_rename() {
    let m = plan_new_member(&AdminCreateForm { name: " Bo ".into(), phone_number: " +49 1 ".into(), email: "".into() }).unwrap();
    assert_eq!(m.name, "Bo");
    assert_eq!(m.phone_number.as_deref(), Some("+49 1"));
    assert_eq!(m.email, None);
    assert_eq!(plan_new_member(&AdminCreateForm { name: "".into(), phone_number: "".into(), email: "".into() }).unwrap_err(), FormError::NameEmpty);
    assert_eq!(plan_rename(&AdminRenameForm { name: " Kai ".into() }).unwrap(), "Kai");
    assert_eq!(optional_text("  "), None);
}

#[test]
fn league_settings_updates() {
    let form = LeagueSettingsForm {
        signal_group_id: " grp ".into(),
        signal_from_number: "".into(),
        default_language: " en ".into(),
        rss_feed_url: "".into(),
        ko_only: true,
        match_scoring_system: " winner_only ".into(),
    };
    let v = plan_league_settings(&form).unwrap();
    assert_eq!(v.len(), 6);
    assert_eq!(v[0], ("predict_knockout_only", Some("true".to_string())));
    assert_eq!(v[1], ("signal_group_id", Some("grp".to_string())));
    assert_eq!(v[2], ("signal_from_number", None));
    assert_eq!(v[3], ("default_language", Some("en".to_string())));
    assert_eq!(v[5], ("match_scoring_system", Some("winner_only".to_string())));
    let mut bad = form.clone();
    bad.default_language = "xx".into();
    assert_eq!(plan_league_settings(&bad).unwrap_err(), FormError::UnknownLanguage);
    let mut bad = form.clone();
    bad.match_scoring_system = "".into();
    assert_eq!(plan_league_settings(&bad).unwrap_err(), FormError::UnknownScoring);
}

#[test]
fn join_refuses_name_taken_in_league_ignoring_case() {
    let mut users = MemoryUserRepo::new();
    users
        .create(NewUser {
            id: 1,
            name: "Alice",
            real_name: "Alice",
            token: "t1",
            is_admin: false,
            phone_number: None,
            email: None,
            league_id: 5,
            language: "de",
        })
        .unwrap();
    let taken = JoinForm { name: "  alice ".to_string(), real_name: String::new() };
    assert_eq!(plan_join(&users, 5, &taken), Err(FormError::NameTaken));
    assert_eq!(FormError::NameTaken.key(), "error-name-taken");
    // The same name is free in another league; a blank real name falls back to the tip name.
    assert_eq!(plan_join(&users, 6, &taken), Ok(("alice".to_string(), "alice".to_string())));
    let empty = JoinForm { name: "   ".to_string(), real_name: "Bob".to_string() };
    assert_eq!(plan_join(&users, 5, &empty), Err(FormError::NameEmpty));
}
