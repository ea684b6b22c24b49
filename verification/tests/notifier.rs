use pila::notifier::{render_message, MessageArg};
use pila::notifier::names_or_count;

#[test]
fn names_or_count_short_list_joins() {
    let names = vec!["Anna".into(), "Ben".into()];
    assert_eq!(names_or_count(&names, "Mitspieler"), "Anna, Ben");
}
#[test]
fn names_or_count_long_list_falls_back_to_count() {
    let names: Vec<String> = (0..6).map(|i| format!("U{i}")).collect();
    assert_eq!(names_or_count(&names, "Mitspieler"), "6 Mitspieler");
}

use pila::notifier::{in_quiet_hours, signal_configured, signal_group_configured, NoopNotifier, NotificationEvent, Notifier};
use pila::stage::Stage;

#[test]
fn noop_notifier_accepts_every_event() {
    let n = NoopNotifier;
    let e = NotificationEvent::KnockoutBracketReady { stage: Stage::RoundOf16, match_count: 8 };
    assert_eq!(n.notify(e), Ok(()));
}

#[test]
fn signal_needs_url_number_and_group() {
    let s = |x: &str| Some(x.to_string());
    assert!(signal_group_configured(&s("http://api"), &s("+49"), &s("g1")));
    assert!(!signal_group_configured(&s("http://api"), &s("+49"), &s("")));
    assert!(!signal_group_configured(&s("http://api"), &None, &s("g1")));
    assert!(signal_configured(&s("http://api"), &s("+49")));
    assert!(!signal_configured(&s(""), &s("+49")));
}

#[test]
fn quiet_hours_follow_berlin_clock() {
    // 2026-06-15 12:00 UTC is 14:00 in Berlin.
    assert!(!in_quiet_hours(1_781_524_800));
    // 2026-06-15 21:00 UTC is 23:00 in Berlin.
    assert!(in_quiet_hours(1_781_557_200));
    // 2026-01-15 06:30 UTC is 07:30 in Berlin (winter time).
    assert!(in_quiet_hours(1_768_458_600));
    // 2026-01-15 07:00 UTC is 08:00 in Berlin: the first loud hour.
    assert!(!in_quiet_hours(1_768_460_400));
}

use pila::notifier::{invite_channel, InviteChannel};

#[test]
fn invite_goes_by_signal_then_email() {
    let some = |x: &str| Some(x.to_string());
    assert_eq!(invite_channel(&some("+49"), true, &some("a@b"), true), InviteChannel::Signal);
    assert_eq!(invite_channel(&some("+49"), false, &some("a@b"), true), InviteChannel::Email);
    assert_eq!(invite_channel(&None, true, &some("a@b"), true), InviteChannel::Email);
    assert_eq!(invite_channel(&None, true, &some("a@b"), false), InviteChannel::Unavailable);
    assert_eq!(invite_channel(&None, true, &None, true), InviteChannel::Unavailable);
}

#[test]
fn render_match_closing_group_match_names_group_and_players() {
    let ev = NotificationEvent::MatchClosingSoon {
        match_id: 1,
        home: "Deutschland".into(),
        away: "Schottland".into(),
        stage: Stage::Group,
        group_letter: Some("A".into()),
        lock_at: 0,
        missing_names: vec!["Anna".into(), "Ben".into()],
    };
    let m = render_message(&ev, "https://pila.example.com");
    assert_eq!(m.key, "notify-match-closing-soon");
    assert_eq!(
        m.args,
        vec![
            ("home", MessageArg::Text("Deutschland".into())),
            ("away", MessageArg::Text("Schottland".into())),
            ("where", MessageArg::GroupPrefix("A".into())),
            ("who", MessageArg::Text("Anna, Ben".into())),
            ("base_url", MessageArg::Text("https://pila.example.com".into())),
        ]
    );
}

#[test]
fn render_match_closing_knockout_uses_stage_and_counts_many_players() {
    let ev = NotificationEvent::MatchClosingSoon {
        match_id: 2,
        home: "A".into(),
        away: "B".into(),
        stage: Stage::QuarterFinal,
        group_letter: None,
        lock_at: 0,
        missing_names: (0..6).map(|i| format!("U{i}")).collect(),
    };
    let m = render_message(&ev, "x");
    assert_eq!(m.args[2], ("where", MessageArg::StageName(Stage::QuarterFinal)));
    assert_eq!(m.args[3], ("who", MessageArg::PlayerCount(6)));
}

#[test]
fn render_knockout_ready_and_special_lock() {
    let ko = render_message(&NotificationEvent::KnockoutBracketReady { stage: Stage::RoundOf32, match_count: 16 }, "u");
    assert_eq!(ko.key, "notify-knockout-ready");
    assert_eq!(ko.args[1], ("match_count", MessageArg::Text("16".into())));
    let lock = render_message(&NotificationEvent::SpecialPredictionsLock { lock_at: 0, missing_names: vec!["Anna".into()] }, "u");
    assert_eq!(lock.key, "notify-special-lock");
    assert_eq!(lock.args, vec![("who", MessageArg::Text("Anna".into())), ("base_url", MessageArg::Text("u".into()))]);
}
