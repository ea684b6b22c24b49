use pila::scoreboard::{classify_slug, classify_stage, flag_code_for_abbr};
use pila::stage::Stage;

#[test]
fn classify_group_stage() {
    let (s, g) = classify_stage("Group A - Matchday 1");
    assert_eq!(s, Stage::Group);
    assert_eq!(g, Some("A".to_string()));
}
#[test]
fn classify_group_letter_uppercased() {
    let (s, g) = classify_stage("FIFA World Cup - Group f");
    assert_eq!(s, Stage::Group);
    assert_eq!(g, Some("F".to_string()));
}
#[test]
fn classify_round_of_32() {
    assert_eq!(classify_stage("Round of 32").0, Stage::RoundOf32);
}
#[test]
fn classify_round_of_16() {
    assert_eq!(classify_stage("Round of 16").0, Stage::RoundOf16);
}
#[test]
fn classify_quarter_final() {
    assert_eq!(classify_stage("Quarterfinals").0, Stage::QuarterFinal);
    assert_eq!(classify_stage("Quarter-final").0, Stage::QuarterFinal);
}
#[test]
fn classify_semi_final() {
    assert_eq!(classify_stage("Semifinals").0, Stage::SemiFinal);
}
#[test]
fn classify_third_place() {
    assert_eq!(classify_stage("Third-Place Match").0, Stage::ThirdPlace);
    assert_eq!(classify_stage("3rd Place").0, Stage::ThirdPlace);
}
#[test]
fn classify_final() {
    assert_eq!(classify_stage("Final").0, Stage::Final);
}
#[test]
fn classify_unknown_defaults_to_group() {
    assert_eq!(classify_stage("").0, Stage::Group);
}
#[test]
fn classify_slug_round_of_32() {
    assert_eq!(classify_slug("round-of-32"), Some(Stage::RoundOf32));
}
#[test]
fn classify_slug_third_place_alternates() {
    assert_eq!(classify_slug("3rd-place-match"), Some(Stage::ThirdPlace));
    assert_eq!(classify_slug("third-place-match"), Some(Stage::ThirdPlace));
}
#[test]
fn classify_slug_unknown_is_none() {
    assert!(classify_slug("preseason").is_none());
}
#[test]
fn flag_lookup_works_case_insensitive() {
    assert_eq!(flag_code_for_abbr("ger"), Some("de"));
    assert_eq!(flag_code_for_abbr("USA"), Some("us"));
    assert_eq!(flag_code_for_abbr("ENG"), Some("gb-eng"));
}
#[test]
fn flag_lookup_wm2026_participants() {
    // Previously missing teams that now have correct mappings
    assert_eq!(flag_code_for_abbr("ALG"), Some("dz")); // Algeria
    assert_eq!(flag_code_for_abbr("BIH"), Some("ba")); // Bosnia-Herzegovina
    assert_eq!(flag_code_for_abbr("CPV"), Some("cv")); // Cape Verde
    assert_eq!(flag_code_for_abbr("COD"), Some("cd")); // Congo DR
    assert_eq!(flag_code_for_abbr("CUW"), Some("cw")); // Curacao
    assert_eq!(flag_code_for_abbr("HAI"), Some("ht")); // Haiti
    assert_eq!(flag_code_for_abbr("CIV"), Some("ci")); // Ivory Coast
    assert_eq!(flag_code_for_abbr("JOR"), Some("jo")); // Jordan
    assert_eq!(flag_code_for_abbr("UZB"), Some("uz")); // Uzbekistan
                                                       // Additional teams
    assert_eq!(flag_code_for_abbr("CMR"), Some("cm")); // Cameroon
    assert_eq!(flag_code_for_abbr("MLI"), Some("ml")); // Mali
    assert_eq!(flag_code_for_abbr("UAE"), Some("ae")); // United Arab Emirates
    assert_eq!(flag_code_for_abbr("HUN"), Some("hu")); // Hungary
    assert_eq!(flag_code_for_abbr("IRL"), Some("ie")); // Ireland
}
#[test]
fn flag_lookup_unknown() {
    assert!(flag_code_for_abbr("XYZ").is_none());
}

use pila::scoreboard::{FakeScoreboardClient, MatchStatus, SportsEvent};

fn ev(id: i64) -> SportsEvent {
    SportsEvent {
        provider_event_id: id,
        stage: Stage::Group,
        group_letter: Some("A".into()),
        home_team: None,
        away_team: None,
        score_home: None,
        score_away: None,
        // 2026-06-11 18:00 UTC
        kickoff: Some(1_781_200_800),
        status: MatchStatus::Scheduled,
    }
}

// 2026-06-11 as days from the Common Era.
const JUNE_11: i32 = 739_778;

#[test]
fn returns_seeded_events_for_date() {
    let mut c = FakeScoreboardClient::new();
    let d = JUNE_11;
    c.seed(d, vec![ev(1), ev(2)]);
    let got = c.fetch_events(d).unwrap();
    assert_eq!(got.len(), 2);
    assert_eq!(got[1].provider_event_id, 2);
}

#[test]
fn returns_empty_for_unseeded_date() {
    let mut c = FakeScoreboardClient::new();
    let d = JUNE_11 + 1;
    assert!(c.fetch_events(d).unwrap().is_empty());
}

#[test]
fn fail_once_is_consumed_on_first_call_only() {
    let mut c = FakeScoreboardClient::new();
    let d = JUNE_11 + 2;
    c.fail_once(d);
    assert!(c.fetch_events(d).is_err());
    assert!(c.fetch_events(d).is_ok());
    assert_eq!(c.call_count(), 2);
}

#[test]
fn later_seeding_of_a_day_replaces_the_earlier() {
    let mut c = FakeScoreboardClient::new();
    c.seed(JUNE_11, vec![ev(1)]);
    c.seed(JUNE_11 + 1, vec![ev(5)]);
    c.seed(JUNE_11, vec![ev(2), ev(3)]);
    let ids: Vec<i64> = c.fetch_events(JUNE_11).unwrap().iter().map(|e| e.provider_event_id).collect();
    assert_eq!(ids, vec![2, 3]);
}

use pila::scoreboard::{event_to_sports_event, groups_from_standings, EspnCompetition, EspnCompetitor, EspnEvent, StandingsGroup};

fn competitor(side: &str, id: &str, name: &str, abbr: &str, score: Option<&str>) -> EspnCompetitor {
    EspnCompetitor {
        home_away: side.into(),
        team_id: id.into(),
        display_name: name.into(),
        abbreviation: abbr.into(),
        score: score.map(|s| s.to_string()),
    }
}

fn espn_event(id: &str, slug: &str, headlines: &[&str], competitors: Vec<EspnCompetitor>, state: Option<&str>) -> EspnEvent {
    EspnEvent {
        id: id.into(),
        slug: slug.into(),
        competitions: vec![EspnCompetition {
            start_date: "2026-06-11T19:00Z".into(),
            competitors,
            headlines: headlines.iter().map(|h| h.to_string()).collect(),
            state: state.map(|s| s.to_string()),
        }],
    }
}

#[test]
fn espn_event_maps_teams_scores_and_stage() {
    let ev = espn_event(
        "732140",
        "group-stage",
        &["", "Group C - Matchday 1"],
        vec![
            competitor("away", "205", "Brazil", "BRA", Some("1")),
            competitor("home", "481", "Germany", "GER", Some("2")),
        ],
        Some("post"),
    );
    let e = event_to_sports_event(&ev, &vec![]).unwrap();
    assert_eq!(e.provider_event_id, 732140);
    assert_eq!(e.stage, Stage::Group);
    assert_eq!(e.group_letter.as_deref(), Some("C"));
    let home = e.home_team.unwrap();
    assert_eq!((home.provider_team_id, home.display_name.as_str()), (481, "Germany"));
    assert_eq!(home.short_name.as_deref(), Some("GER"));
    assert_eq!(home.flag_code.as_deref(), Some("de"));
    assert_eq!(e.away_team.unwrap().flag_code.as_deref(), Some("br"));
    assert_eq!((e.score_home, e.score_away), (Some(2), Some(1)));
    assert_eq!(e.kickoff, Some(1_781_204_400));
    assert_eq!(e.status, MatchStatus::Finished);
}

#[test]
fn espn_event_group_from_standings_and_bad_ids() {
    let groups = groups_from_standings(&vec![
        StandingsGroup { name: "Group a".into(), team_ids: Some(vec!["481".into(), "x".into()]) },
        StandingsGroup { name: "Knockout".into(), team_ids: Some(vec!["1".into()]) },
        StandingsGroup { name: "Group B".into(), team_ids: None },
    ]);
    assert_eq!(groups, vec![(481, "A".to_string())]);
    let ev = espn_event(
        "9",
        "",
        &[],
        vec![competitor("home", "481", "Germany", "", None), competitor("away", "abc", "TBD", "", Some("x"))],
        None,
    );
    let e = event_to_sports_event(&ev, &groups).unwrap();
    assert_eq!(e.stage, Stage::Group);
    assert_eq!(e.group_letter.as_deref(), Some("A"));
    assert!(e.home_team.as_ref().unwrap().short_name.is_none());
    assert!(e.away_team.is_none());
    assert_eq!((e.score_home, e.score_away), (None, None));
    assert_eq!(e.status, MatchStatus::Scheduled);
    // Events without a numeric id or without a competition are dropped.
    assert!(event_to_sports_event(&espn_event("x1", "", &[], vec![], None), &groups).is_none());
    assert!(event_to_sports_event(&EspnEvent { id: "1".into(), slug: String::new(), competitions: vec![] }, &groups).is_none());
}

#[test]
fn standings_lookup_keeps_the_last_listing() {
    let groups = groups_from_standings(&vec![
        StandingsGroup { name: "Group A".into(), team_ids: Some(vec!["1".into(), "2".into()]) },
        StandingsGroup { name: "Group D".into(), team_ids: Some(vec!["2".into()]) },
    ]);
    assert_eq!(groups, vec![(2, "D".to_string()), (2, "A".to_string()), (1, "A".to_string())]);
}

#[test]
fn simulated_failure_names_the_day() {
    let mut c = FakeScoreboardClient::new();
    c.fail_once(JUNE_11 + 2);
    assert_eq!(c.fetch_events(JUNE_11 + 2).unwrap_err(), "simulated fetch failure for 2026-06-13");
}
