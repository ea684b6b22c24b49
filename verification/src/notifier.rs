//! Signal notification rules: the events, when the integration counts as
//! configured, when notifications wait, and how the list of players a
//! reminder names is worded.

use vstd::prelude::*;

use crate::clock::valid_instant;
use crate::stage::Stage;
use crate::text::{i64_decimal, join, join_of, signed_decimal_of, string_of, views_of};

verus! {

/// Whether an optional setting is present and not empty.
pub open spec fn non_empty(s: Option<String>) -> bool {
    match s {
        Some(x) => x@.len() > 0,
        None => false,
    }
}

/// Signal sending needs both the API URL and the sender number.
pub fn signal_configured(api_url: &Option<String>, from_number: &Option<String>) -> (b: bool)
    ensures
        b == (non_empty(*api_url) && non_empty(*from_number)),
{
    match (api_url, from_number) {
        (Some(a), Some(f)) => !a.as_str().is_empty() && !f.as_str().is_empty(),
        _ => false,
    }
}

/// What the worker tells the group about. Instants are seconds since the
/// Unix epoch.
#[derive(Debug, Clone)]
pub enum NotificationEvent {
    MatchClosingSoon {
        match_id: i32,
        home: String,
        away: String,
        stage: Stage,
        group_letter: Option<String>,
        lock_at: i64,
        missing_names: Vec<String>,
    },
    SpecialPredictionsLock {
        lock_at: i64,
        missing_names: Vec<String>,
    },
    KnockoutBracketReady {
        stage: Stage,
        match_count: i32,
    },
}

/// Somewhere events can be sent; a failed send returns the reason.
pub trait Notifier {
    /// Whether `r` is an answer this notifier may give when sending `event`;
    /// a notifier that says nothing of its answers may give any.
    open spec fn delivers(&self, event: NotificationEvent, r: Result<(), String>) -> bool {
        true
    }

    /// Sends the event.
    fn notify(&self, event: NotificationEvent) -> (r: Result<(), String>)
        ensures
            self.delivers(event, r),
    ;
}

/// The notifier used while Signal is not configured: drops every event.
pub struct NoopNotifier;

impl Notifier for NoopNotifier {
    /// Dropping an event always succeeds.
    open spec fn delivers(&self, event: NotificationEvent, r: Result<(), String>) -> bool {
        r is Ok
    }

    fn notify(&self, event: NotificationEvent) -> (r: Result<(), String>)
        ensures
            r is Ok,
    {
        Ok(())
    }
}

/// Whether the Signal notifier is used: the API URL, the sender number and
/// the group are all set and not empty (otherwise events are dropped).
pub fn signal_group_configured(api_url: &Option<String>, from_number: &Option<String>, group_id: &Option<String>) -> (b: bool)
    ensures
        b == (non_empty(*api_url) && non_empty(*from_number) && non_empty(*group_id)),
{
    signal_configured(api_url, from_number) && match group_id {
        Some(g) => !g.as_str().is_empty(),
        None => false,
    }
}

/// Hour of the day (0–23) of an instant on Berlin clocks.
pub uninterp spec fn berlin_hour_of(ts: i64) -> u32;

/// Hour of the day of an instant on Berlin clocks.
///
/// Trusted: wraps `DateTime::from_timestamp`, `with_timezone` to
/// `chrono_tz::Europe::Berlin` and `Timelike::hour`; claims the result is the
/// named `berlin_hour_of` and, as `hour` documents, below 24. The instant
/// range keeps `from_timestamp` from failing.
#[verifier::external_body]
fn berlin_hour(ts: i64) -> (h: u32)
    requires
        valid_instant(ts),
    ensures
        h == berlin_hour_of(ts),
        h < 24,
{
    chrono::Timelike::hour(&chrono::DateTime::from_timestamp(ts, 0).unwrap().with_timezone(&chrono_tz::Europe::Berlin))
}

/// Notifications wait outside 08:00–22:00 Berlin time.
pub fn in_quiet_hours(now: i64) -> (q: bool)
    requires
        valid_instant(now),
    ensures
        q == !(8 <= berlin_hour_of(now) < 22),
{
    let h = berlin_hour(now);
    !(8 <= h && h < 22)
}

/// Through which channel an invite link is sent again.
#[derive(Debug, Clone, Copy, PartialEq, Eq, Structural)]
pub enum InviteChannel {
    Signal,
    Email,
    /// Neither channel is available; the administrator is told so.
    Unavailable,
}

/// Signal when the player has a phone number and Signal is configured,
/// otherwise email when the player has an address and mail is configured.
pub open spec fn channel_of(has_phone: bool, signal_ready: bool, has_email: bool, smtp_ready: bool) -> InviteChannel {
    if has_phone && signal_ready {
        InviteChannel::Signal
    } else if has_email && smtp_ready {
        InviteChannel::Email
    } else {
        InviteChannel::Unavailable
    }
}

/// The channel an invite is sent again through.
pub fn invite_channel(phone_number: &Option<String>, signal_ready: bool, email: &Option<String>, smtp_ready: bool) -> (c: InviteChannel)
    ensures
        c == channel_of(phone_number is Some, signal_ready, email is Some, smtp_ready),
{
    if phone_number.is_some() && signal_ready {
        InviteChannel::Signal
    } else if email.is_some() && smtp_ready {
        InviteChannel::Email
    } else {
        InviteChannel::Unavailable
    }
}

/// How a reminder names the players it is about: up to five names joined
/// with `, `, beyond that only their number followed by `many_label`.
pub open spec fn who_of(names: Seq<String>, many_label: Seq<char>) -> Seq<char> {
    if names.len() > 5 {
        signed_decimal_of(names.len() as int) + seq![' '] + many_label
    } else {
        join_of(views_of(names), ", "@)
    }
}

/// The players a reminder names: the names themselves, or their count with
/// the (localised) label once there are more than five.
pub fn names_or_count(names: &Vec<String>, many_label: &str) -> (who: String)
    requires
        names@.len() <= i64::MAX,
    ensures
        who@ == who_of(names@, many_label@),
{
    if names.len() > 5 {
        let mut v = i64_decimal(names.len() as i64);
        v.push(' ');
        crate::text::append_str(&mut v, many_label);
        string_of(&v)
    } else {
        let v = join(names, ", ");
        string_of(&v)
    }
}

// ─── Message rendering ────────────────────────────────────────────────────────

/// An argument of a notification message, before it is put into words.
#[derive(Debug, Clone, PartialEq, Eq)]
pub enum MessageArg {
    /// Text used as it is.
    Text(String),
    /// The localised name of a stage.
    StageName(Stage),
    /// The localised "group X" label of a group letter.
    GroupPrefix(String),
    /// The localised "N players" label, used for more than five players.
    PlayerCount(usize),
}

/// A notification message: the translation key of its text and the values
/// of its placeholders, in order.
#[derive(Debug, Clone, PartialEq, Eq)]
pub struct Message {
    pub key: &'static str,
    pub args: Vec<(&'static str, MessageArg)>,
}

/// Value of a message argument.
pub enum ArgView {
    Text(Seq<char>),
    StageName(Stage),
    GroupPrefix(Seq<char>),
    PlayerCount(nat),
}

/// Value of a message argument.
pub open spec fn arg_view(a: MessageArg) -> ArgView {
    match a {
        MessageArg::Text(s) => ArgView::Text(s@),
        MessageArg::StageName(s) => ArgView::StageName(s),
        MessageArg::GroupPrefix(l) => ArgView::GroupPrefix(l@),
        MessageArg::PlayerCount(n) => ArgView::PlayerCount(n as nat),
    }
}

/// Values of a message's placeholders.
pub open spec fn args_view(args: Seq<(&'static str, MessageArg)>) -> Seq<(Seq<char>, ArgView)> {
    args.map_values(|p: (&'static str, MessageArg)| (p.0@, arg_view(p.1)))
}

/// How a message names the players it is about: their names joined with
/// `, `, or their number once there are more than five.
pub open spec fn who_arg(names: Seq<String>) -> ArgView {
    if names.len() > 5 {
        ArgView::PlayerCount(names.len())
    } else {
        ArgView::Text(join_of(views_of(names), ", "@))
    }
}

/// Where a closing match is played: its group for a group match with a
/// letter, else its stage.
pub open spec fn where_arg(stage: Stage, group_letter: Option<String>) -> ArgView {
    match group_letter {
        Some(l) => if stage == Stage::Group { ArgView::GroupPrefix(l@) } else { ArgView::StageName(stage) },
        None => ArgView::StageName(stage),
    }
}

/// The message sent to the group for an event, with links below `base_url`.
pub open spec fn message_of(event: NotificationEvent, base_url: Seq<char>) -> (Seq<char>, Seq<(Seq<char>, ArgView)>) {
    match event {
        NotificationEvent::MatchClosingSoon { home, away, stage, group_letter, missing_names, .. } => (
            "notify-match-closing-soon"@,
            seq![
                ("home"@, ArgView::Text(home@)),
                ("away"@, ArgView::Text(away@)),
                ("where"@, where_arg(stage, group_letter)),
                ("who"@, who_arg(missing_names@)),
                ("base_url"@, ArgView::Text(base_url)),
            ],
        ),
        NotificationEvent::SpecialPredictionsLock { missing_names, .. } => (
            "notify-special-lock"@,
            seq![("who"@, who_arg(missing_names@)), ("base_url"@, ArgView::Text(base_url))],
        ),
        NotificationEvent::KnockoutBracketReady { stage, match_count } => (
            "notify-knockout-ready"@,
            seq![
                ("stage"@, ArgView::StageName(stage)),
                ("match_count"@, ArgView::Text(signed_decimal_of(match_count as int))),
                ("base_url"@, ArgView::Text(base_url)),
            ],
        ),
    }
}

fn who(names: &Vec<String>) -> (a: MessageArg)
    ensures
        arg_view(a) == who_arg(names@),
{
    if names.len() > 5 {
        MessageArg::PlayerCount(names.len())
    } else {
        let v = join(names, ", ");
        MessageArg::Text(string_of(&v))
    }
}

/// Puts an event into a message for the group: which text, and the values
/// of its placeholders.
pub fn render_message(event: &NotificationEvent, base_url: &str) -> (m: Message)
    ensures
        (m.key@, args_view(m.args@)) == message_of(*event, base_url@),
{
    let base = crate::text::owned(base_url);
    match event {
        NotificationEvent::MatchClosingSoon { home, away, stage, group_letter, missing_names, .. } => {
            let where_label = match group_letter {
                Some(l) => match stage {
                    Stage::Group => MessageArg::GroupPrefix(l.clone()),
                    _ => MessageArg::StageName(*stage),
                },
                None => MessageArg::StageName(*stage),
            };
            let args = vec![
                ("home", MessageArg::Text(home.clone())),
                ("away", MessageArg::Text(away.clone())),
                ("where", where_label),
                ("who", who(missing_names)),
                ("base_url", MessageArg::Text(base)),
            ];
            let m = Message { key: "notify-match-closing-soon", args };
            assert(args_view(m.args@) =~= message_of(*event, base_url@).1);
            m
        },
        NotificationEvent::SpecialPredictionsLock { missing_names, .. } => {
            let args = vec![("who", who(missing_names)), ("base_url", MessageArg::Text(base))];
            let m = Message { key: "notify-special-lock", args };
            assert(args_view(m.args@) =~= message_of(*event, base_url@).1);
            m
        },
        NotificationEvent::KnockoutBracketReady { stage, match_count } => {
            let count = string_of(&i64_decimal(*match_count as i64));
            let args = vec![
                ("stage", MessageArg::StageName(*stage)),
                ("match_count", MessageArg::Text(count)),
                ("base_url", MessageArg::Text(base)),
            ];
            let m = Message { key: "notify-knockout-ready", args };
            assert(args_view(m.args@) =~= message_of(*event, base_url@).1);
            m
        },
    }
}

} // verus!
