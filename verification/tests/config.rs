use pila::config::{non_empty, parse_port, AiConfig, SmtpConfig, MAX_ATTEMPTS};

fn s(x: &str) -> Option<String> {
    Some(x.to_string())
}

#[test]
fn parse_port_reads_like_u16_from_str() {
    assert_eq!(parse_port("587"), Some(587));
    assert_eq!(parse_port("+25"), Some(25));
    assert_eq!(parse_port("0"), Some(0));
    assert_eq!(parse_port("65535"), Some(65535));
    assert_eq!(parse_port("65536"), None);
    assert_eq!(parse_port("99999999999"), None);
    assert_eq!(parse_port(""), None);
    assert_eq!(parse_port("+"), None);
    assert_eq!(parse_port("-1"), None);
    assert_eq!(parse_port(" 25"), None);
    assert_eq!(parse_port("2a"), None);
    for p in ["1", "80", "443", "2525", "65535"] {
        assert_eq!(parse_port(p), p.parse::<u16>().ok());
    }
}

#[test]
fn non_empty_trims_and_drops_blank() {
    assert_eq!(non_empty(s("  key ")), s("key"));
    assert_eq!(non_empty(s("   ")), None);
    assert_eq!(non_empty(None), None);
}

#[test]
fn smtp_needs_host_user_and_password() {
    let c = SmtpConfig::from_settings(s("mail.example.com"), None, s("bot"), s("pw"), None).unwrap();
    assert_eq!(c.host, "mail.example.com");
    assert_eq!(c.port, 587);
    assert_eq!(c.user, "bot");
    assert_eq!(c.pass, "pw");
    assert_eq!(c.from, "bot");
    let c = SmtpConfig::from_settings(s("h"), s("2525"), s("u"), s("p"), s("Pila <noreply@x>")).unwrap();
    assert_eq!(c.port, 2525);
    assert_eq!(c.from, "Pila <noreply@x>");
    let c = SmtpConfig::from_settings(s("h"), s("junk"), s("u"), s("p"), s("")).unwrap();
    assert_eq!(c.port, 587);
    assert_eq!(c.from, "u");
    assert!(SmtpConfig::from_settings(None, None, s("u"), s("p"), None).is_none());
    assert!(SmtpConfig::from_settings(s("h"), None, s(""), s("p"), None).is_none());
    assert!(SmtpConfig::from_settings(s("h"), None, s("u"), None, None).is_none());
}

#[test]
fn ai_config_needs_provider_model_and_key() {
    let c = AiConfig::from_settings(s("  openai "), s("gpt-4o"), s("k"), None).unwrap();
    assert_eq!(c.provider, "openai");
    assert_eq!(c.model_ref(), "openai::gpt-4o");
    assert!(AiConfig::from_settings(s("p"), s("  "), s("k"), None).is_none());
    assert!(AiConfig::from_settings(None, s("m"), s("k"), None).is_none());
    assert!(AiConfig::from_settings(s("p"), s("m"), None, None).is_none());
    assert_eq!(MAX_ATTEMPTS, 5);
}

#[test]
fn ai_matchday_zone_defaults_to_new_york() {
    // 2026-06-16 02:00 UTC: still the 15th in New York, already the 16th in Berlin.
    let ts = 1_781_575_200;
    let ny = AiConfig::from_settings(s("p"), s("m"), s("k"), None).unwrap();
    let unknown = AiConfig::from_settings(s("p"), s("m"), s("k"), s("Mars/Olympus")).unwrap();
    let berlin = AiConfig::from_settings(s("p"), s("m"), s("k"), s("Europe/Berlin")).unwrap();
    assert_eq!(ny.matchday_tz.day_of(ts) + 1, berlin.matchday_tz.day_of(ts));
    assert_eq!(unknown.matchday_tz.day_of(ts), ny.matchday_tz.day_of(ts));
}

use pila::config::{after_attempt, AiError, RetryAction};

#[test]
fn retry_accepts_text_and_backs_off_linearly() {
    match after_attempt(1, Ok(Some("## Recap".into()))) {
        RetryAction::Accept(t) => assert_eq!(t, "## Recap"),
        other => panic!("unexpected {other:?}"),
    }
    match after_attempt(2, Ok(Some("   ".into()))) {
        RetryAction::RetryAfter(secs, why) => {
            assert_eq!(secs, 4);
            assert_eq!(why, "model returned empty response");
        }
        other => panic!("unexpected {other:?}"),
    }
    match after_attempt(4, Err("timeout".into())) {
        RetryAction::RetryAfter(secs, why) => {
            assert_eq!(secs, 8);
            assert_eq!(why, "timeout");
        }
        other => panic!("unexpected {other:?}"),
    }
    match after_attempt(5, Ok(None)) {
        RetryAction::GiveUp(AiError::Failed(why)) => assert_eq!(why, "model returned empty response"),
        other => panic!("unexpected {other:?}"),
    }
}
