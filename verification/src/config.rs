//! Settings read once at start-up: the mail server and the AI recap
//! provider.
//!
//! Each setting arrives as optional text (an environment variable); a blank
//! value counts as missing.

use vstd::prelude::*;

use crate::clock::Zone;
use crate::text::{all_digits, append_str, chars_of, digits_value, lemma_digits_value_monotone, lemma_prefix_exceeds, owned, string_of, trim, trim_of};

verus! {

broadcast use vstd::seq_lib::group_seq_properties;

/// A setting with its surrounding white space removed; absent when blank.
pub open spec fn setting_value(v: Option<Seq<char>>) -> Option<Seq<char>> {
    match v {
        Some(s) => if trim_of(s).len() > 0 { Some(trim_of(s)) } else { None },
        None => None,
    }
}

/// Value of an optional text.
pub open spec fn text_opt(s: Option<String>) -> Option<Seq<char>> {
    match s {
        Some(x) => Some(x@),
        None => None,
    }
}

/// A setting trimmed, `None` when missing or blank.
pub fn non_empty(value: Option<String>) -> (r: Option<String>)
    ensures
        text_opt(r) == setting_value(text_opt(value)),
{
    match value {
        Some(s) => {
            let c = chars_of(s.as_str());
            let t = trim(&c);
            if t.len() > 0 {
                Some(string_of(&t))
            } else {
                None
            }
        },
        None => None,
    }
}

// ─── Decimal numbers ─────────────────────────────────────────────────────────

/// A port number as `u16::from_str` reads it: an optional `+`, then at least
/// one ASCII digit, with a value below 65536.
pub open spec fn port_of(s: Seq<char>) -> Option<u16> {
    let d = if s.len() > 0 && s[0] == '+' { s.drop_first() } else { s };
    if d.len() > 0 && all_digits(d) && digits_value(d) <= 65535 {
        Some(digits_value(d) as u16)
    } else {
        None
    }
}

/// A port number, read as `u16::from_str` reads it.
pub fn parse_port(s: &str) -> (p: Option<u16>)
    ensures
        p == port_of(s@),
{
    let c = chars_of(s);
    let start: usize = if c.len() > 0 && c[0] == '+' { 1 } else { 0 };
    let ghost d = if c@.len() > 0 && c@[0] == '+' { c@.drop_first() } else { c@ };
    assert(d =~= c@.subrange(start as int, c@.len() as int));
    if start == c.len() {
        return None;
    }
    let mut value: u32 = 0;
    let mut i: usize = start;
    while i < c.len()
        invariant
            start <= i <= c@.len(),
            c@ == s@,
            d == if s@.len() > 0 && s@[0] == '+' { s@.drop_first() } else { s@ },
            d == c@.subrange(start as int, c@.len() as int),
            all_digits(c@.subrange(start as int, i as int)),
            value == digits_value(c@.subrange(start as int, i as int)),
            value <= 65535,
        decreases c@.len() - i,
    {
        let ch = c[i];
        let ghost pre = c@.subrange(start as int, i as int);
        let ghost next = c@.subrange(start as int, i as int + 1);
        assert(next.drop_last() =~= pre);
        if !('0' <= ch && ch <= '9') {
            assert(!all_digits(d)) by {
                assert(d[i - start] == ch);
            }
            return None;
        }
        assert(all_digits(next)) by {
            assert forall|q: int| 0 <= q < next.len() implies '0' <= #[trigger] next[q] && next[q] <= '9' by {
                if q < pre.len() {
                    assert(next[q] == pre[q]);
                }
            }
        }
        let digit: u32 = (ch as u32) - ('0' as u32);
        value = value * 10 + digit;
        if value > 65535 {
            proof {
                assert(next =~= d.subrange(0, i - start + 1));
                lemma_prefix_exceeds(d, (i - start + 1) as int, 65535);
            }
            return None;
        }
        i = i + 1;
    }
    assert(c@.subrange(start as int, i as int) =~= d);
    Some(value as u16)
}

// ─── Mail ─────────────────────────────────────────────────────────────────────

/// The mail server all leagues send through.
#[derive(Debug, Clone)]
pub struct SmtpConfig {
    pub host: String,
    pub port: u16,
    pub user: String,
    pub pass: String,
    pub from: String,
}

/// The SMTP settings: host, user and password are required; the port
/// defaults to 587 when missing or unreadable, the sender to the user.
pub open spec fn smtp_fits(c: Option<SmtpConfig>, host: Option<Seq<char>>, port: Option<Seq<char>>, user: Option<Seq<char>>, pass: Option<Seq<char>>, from: Option<Seq<char>>) -> bool {
    let given = |v: Option<Seq<char>>| match v {
        Some(s) => if s.len() > 0 { Some(s) } else { None },
        None => None,
    };
    match (given(host), given(user), given(pass)) {
        (Some(h), Some(u), Some(p)) => c matches Some(cfg) && cfg.host@ == h && cfg.user@ == u && cfg.pass@ == p
            && cfg.port == match port {
                Some(s) => match port_of(s) {
                    Some(n) => n,
                    None => 587u16,
                },
                None => 587u16,
            }
            && cfg.from@ == match given(from) {
                Some(f) => f,
                None => u,
            },
        _ => c is None,
    }
}

fn given(v: Option<String>) -> (r: Option<String>)
    ensures
        text_opt(r) == match text_opt(v) {
            Some(s) => if s.len() > 0 { Some(s) } else { None },
            None => None,
        },
{
    match v {
        Some(s) => if s.as_str().is_empty() { None } else { Some(s) },
        None => None,
    }
}

impl SmtpConfig {
    /// The mail server described by the settings; `None` (mail disabled)
    /// when the host, the user or the password is missing.
    pub fn from_settings(host: Option<String>, port: Option<String>, user: Option<String>, pass: Option<String>, from: Option<String>) -> (c: Option<SmtpConfig>)
        ensures
            smtp_fits(c, text_opt(host), text_opt(port), text_opt(user), text_opt(pass), text_opt(from)),
    {
        let host = match given(host) {
            Some(h) => h,
            None => {
                return None;
            },
        };
        let port = match &port {
            Some(s) => match parse_port(s.as_str()) {
                Some(n) => n,
                None => 587,
            },
            None => 587,
        };
        let user = match given(user) {
            Some(u) => u,
            None => {
                return None;
            },
        };
        let pass = match given(pass) {
            Some(p) => p,
            None => {
                return None;
            },
        };
        let from = match given(from) {
            Some(f) => f,
            None => user.clone(),
        };
        Some(SmtpConfig { host, port, user, pass, from })
    }
}

// ─── AI recaps ────────────────────────────────────────────────────────────────

/// The AI recap provider.
pub struct AiConfig {
    pub provider: String,
    pub model: String,
    pub api_key: String,
    /// Zone in which matchdays are counted.
    pub matchday_tz: Zone,
}

/// Why a recap could not be generated.
#[derive(Debug, Clone)]
pub enum AiError {
    Failed(String),
}

/// How many times a recap is attempted before giving up.
pub const MAX_ATTEMPTS: usize = 5;

/// What to do after an attempt at a recap.
#[derive(Debug, Clone)]
pub enum RetryAction {
    /// The model answered: this is the recap.
    Accept(String),
    /// Wait that many seconds, then try again; the reason the attempt
    /// failed.
    RetryAfter(u64, String),
    /// Give up.
    GiveUp(AiError),
}

/// The decision after attempt number `attempt` (counting from 1) got
/// `reply` from the model: a text that is not blank is the recap; a blank
/// answer or an error is retried after `2 × attempt` seconds until
/// `MAX_ATTEMPTS` attempts failed.
pub open spec fn retry_decision(attempt: usize, reply: Result<Option<Seq<char>>, Seq<char>>, action: RetryAction) -> bool {
    let reason = match reply {
        Ok(Some(t)) => if trim_of(t).len() > 0 { None } else { Some("model returned empty response"@) },
        Ok(None) => Some("model returned empty response"@),
        Err(e) => Some(e),
    };
    match reason {
        None => action matches RetryAction::Accept(t) && reply == Ok::<Option<Seq<char>>, Seq<char>>(Some(t@)),
        Some(r) => if attempt < MAX_ATTEMPTS {
            action matches RetryAction::RetryAfter(secs, why) && secs == 2 * attempt && why@ == r
        } else {
            action matches RetryAction::GiveUp(AiError::Failed(why)) && why@ == r
        },
    }
}

/// Value of a model reply.
pub open spec fn reply_view(reply: &Result<Option<String>, String>) -> Result<Option<Seq<char>>, Seq<char>> {
    match reply {
        Ok(Some(t)) => Ok(Some(t@)),
        Ok(None) => Ok(None),
        Err(e) => Err(e@),
    }
}

/// Decides what follows attempt number `attempt` at a recap, given the
/// model's reply: its first text, if any, or the error message.
pub fn after_attempt(attempt: usize, reply: Result<Option<String>, String>) -> (action: RetryAction)
    requires
        1 <= attempt <= MAX_ATTEMPTS,
    ensures
        retry_decision(attempt, reply_view(&reply), action),
{
    let reason = match reply {
        Ok(Some(t)) => {
            let c = chars_of(t.as_str());
            if trim(&c).len() > 0 {
                return RetryAction::Accept(t);
            }
            owned("model returned empty response")
        },
        Ok(None) => owned("model returned empty response"),
        Err(e) => e,
    };
    if attempt < MAX_ATTEMPTS {
        RetryAction::RetryAfter(2 * attempt as u64, reason)
    } else {
        RetryAction::GiveUp(AiError::Failed(reason))
    }
}

impl AiConfig {
    /// The provider settings: provider, model and key are required (trimmed,
    /// not blank); the matchday zone defaults to `America/New_York` when
    /// missing or unknown.
    pub fn from_settings(provider: Option<String>, model: Option<String>, api_key: Option<String>, matchday_tz: Option<String>) -> (c: Option<AiConfig>)
        ensures
            match (setting_value(text_opt(provider)), setting_value(text_opt(model)), setting_value(text_opt(api_key))) {
                (Some(p), Some(m), Some(k)) => c matches Some(cfg) && cfg.provider@ == p && cfg.model@ == m && cfg.api_key@ == k
                    && cfg.matchday_tz.wf()
                    && cfg.matchday_tz.name() == match setting_value(text_opt(matchday_tz)) {
                        Some(z) => if crate::clock::zone_known(z) { z } else { "America/New_York"@ },
                        None => "America/New_York"@,
                    },
                _ => c is None,
            },
    {
        let provider = match non_empty(provider) {
            Some(p) => p,
            None => {
                return None;
            },
        };
        let model = match non_empty(model) {
            Some(m) => m,
            None => {
                return None;
            },
        };
        let api_key = match non_empty(api_key) {
            Some(k) => k,
            None => {
                return None;
            },
        };
        let zone = match non_empty(matchday_tz) {
            Some(z) => match Zone::parse(z.as_str()) {
                Some(zone) => Some(zone),
                None => None,
            },
            None => None,
        };
        let matchday_tz = match zone {
            Some(z) => z,
            None => Zone::new_york(),
        };
        Some(AiConfig { provider, model, api_key, matchday_tz })
    }

    /// `provider::model`, the model reference that selects the provider.
    pub fn model_ref(&self) -> (r: String)
        ensures
            r@ == self.provider@ + "::"@ + self.model@,
    {
        let mut v = chars_of(self.provider.as_str());
        append_str(&mut v, "::");
        append_str(&mut v, self.model.as_str());
        string_of(&v)
    }
}

/// A recap is attempted at most `MAX_ATTEMPTS` times: after the last
/// attempt nothing is retried; and an accepted recap is never blank.
pub proof fn lemma_retries_bounded(attempt: usize, reply: Result<Option<Seq<char>>, Seq<char>>, action: RetryAction)
    requires
        1 <= attempt <= MAX_ATTEMPTS,
        retry_decision(attempt, reply, action),
    ensures
        attempt == MAX_ATTEMPTS ==> !(action is RetryAfter),
        action matches RetryAction::Accept(t) ==> trim_of(t@).len() > 0,
        action matches RetryAction::RetryAfter(secs, _) ==> secs <= 2 * MAX_ATTEMPTS,
{
}


/// Every port number written in decimal reads back as itself.
pub proof fn lemma_port_round_trip(p: u16)
    ensures
        port_of(crate::text::decimal_of(p as nat)) == Some(p),
{
    crate::text::lemma_decimal_round_trip(p as nat);
    let s = crate::text::decimal_of(p as nat);
    assert('0' <= s[0] && s[0] <= '9');
}

} // verus!
