//! The forms of the web interface and the rules their input is checked and
//! normalised by before anything is stored.
//!
//! Text fields are trimmed; an empty optional field means "not given". A
//! rejected form is answered with the translation key of its error.

use vstd::prelude::*;
use vstd::utf8::encode_utf8;

use crate::league::{KEY_DEFAULT_LANGUAGE, KEY_KO_ONLY, KEY_MATCH_SCORING_SYSTEM, KEY_RSS_FEED_URL, KEY_SIGNAL_FROM_NUMBER, KEY_SIGNAL_GROUP_ID};
use crate::scoring::{setting_of, system_from_setting, MatchScoringSystem};
use crate::text::{chars_of, owned, str_eq, string_of, trim, trim_of};
use crate::users::{name_taken, MemoryUserRepo};

verus! {

/// Why a form was rejected.
#[derive(Debug, Clone, Copy, PartialEq, Eq, Structural)]
pub enum FormError {
    SetupAlreadyDone,
    NameEmpty,
    NameTaken,
    LeagueNameEmpty,
    LeagueNameTooLong,
    UnknownLanguage,
    UnknownScoring,
}

/// Translation key of a form error.
pub open spec fn error_key_of(e: FormError) -> Seq<char> {
    match e {
        FormError::SetupAlreadyDone => "error-setup-already-done"@,
        FormError::NameEmpty => "error-name-empty"@,
        FormError::NameTaken => "error-name-taken"@,
        FormError::LeagueNameEmpty => "error-league-name-empty"@,
        FormError::LeagueNameTooLong => "error-league-name-too-long"@,
        FormError::UnknownLanguage => "error-unknown-language"@,
        FormError::UnknownScoring => "error-unknown-scoring"@,
    }
}

impl FormError {
    pub fn key(&self) -> (k: &'static str)
        ensures
            k@ == error_key_of(*self),
    {
        match self {
            FormError::SetupAlreadyDone => "error-setup-already-done",
            FormError::NameEmpty => "error-name-empty",
            FormError::NameTaken => "error-name-taken",
            FormError::LeagueNameEmpty => "error-league-name-empty",
            FormError::LeagueNameTooLong => "error-league-name-too-long",
            FormError::UnknownLanguage => "error-unknown-language",
            FormError::UnknownScoring => "error-unknown-scoring",
        }
    }
}

/// The locales the interface is translated to.
pub open spec fn locale_supported(code: Seq<char>) -> bool {
    code == "de"@ || code == "en"@ || code == "es"@ || code == "fr"@
}

/// Whether the interface is translated to that locale.
pub fn is_supported_locale(code: &str) -> (b: bool)
    ensures
        b == locale_supported(code@),
{
    str_eq(code, "de") || str_eq(code, "en") || str_eq(code, "es") || str_eq(code, "fr")
}

/// Value of an optional text.
pub open spec fn text_opt(s: Option<String>) -> Option<Seq<char>> {
    match s {
        Some(x) => Some(x@),
        None => None,
    }
}

/// A trimmed optional field: absent when empty.
pub open spec fn optional_of(s: Seq<char>) -> Option<Seq<char>> {
    if trim_of(s).len() == 0 {
        None
    } else {
        Some(trim_of(s))
    }
}

/// `s` without surrounding white space.
pub fn trimmed(s: &str) -> (t: String)
    ensures
        t@ == trim_of(s@),
{
    let c = chars_of(s);
    let t = trim(&c);
    string_of(&t)
}

/// A trimmed optional field: `None` when nothing but white space was given.
pub fn optional_text(s: &str) -> (r: Option<String>)
    ensures
        text_opt(r) == optional_of(s@),
{
    let t = trimmed(s);
    if t.as_str().is_empty() {
        None
    } else {
        Some(t)
    }
}

// ─── Names ────────────────────────────────────────────────────────────────────

/// The tip name and private real name a player registers or edits: the tip
/// name must not be empty; the real name defaults to the tip name; neither
/// may be longer than 255 characters.
pub open spec fn names_of(name: Seq<char>, real_name: Seq<char>) -> Result<(Seq<char>, Seq<char>), FormError> {
    let n = trim_of(name);
    let r = if trim_of(real_name).len() == 0 { n } else { trim_of(real_name) };
    if n.len() == 0 || n.len() > 255 || r.len() > 255 {
        Err(FormError::NameEmpty)
    } else {
        Ok((n, r))
    }
}

/// Checks a tip name and real name.
pub fn plan_names(name: &str, real_name: &str) -> (r: Result<(String, String), FormError>)
    ensures
        match r {
            Ok(p) => names_of(name@, real_name@) == Ok::<(Seq<char>, Seq<char>), FormError>((p.0@, p.1@)),
            Err(e) => names_of(name@, real_name@) == Err::<(Seq<char>, Seq<char>), FormError>(e),
        },
{
    let n = trimmed(name);
    let rn = trimmed(real_name);
    let r = if rn.as_str().is_empty() { n.clone() } else { rn };
    if n.as_str().is_empty() || chars_of(n.as_str()).len() > 255 || chars_of(r.as_str()).len() > 255 {
        Err(FormError::NameEmpty)
    } else {
        Ok((n, r))
    }
}

/// Self-registration through an invite link.
#[derive(Debug, Clone)]
pub struct JoinForm {
    pub name: String,
    pub real_name: String,
}

/// A self-registration in a league: the names as `names_of` checks them,
/// then refused when the tip name is taken in the league (ignoring case).
pub open spec fn join_of(taken: spec_fn(Seq<char>) -> bool, name: Seq<char>, real_name: Seq<char>) -> Result<(Seq<char>, Seq<char>), FormError> {
    match names_of(name, real_name) {
        Ok(p) => if taken(p.0) { Err(FormError::NameTaken) } else { Ok(p) },
        Err(e) => Err(e),
    }
}

/// Checks a self-registration into league `league_id` against the players
/// already there; on success gives the tip name and real name to register.
pub fn plan_join(users: &MemoryUserRepo, league_id: u128, form: &JoinForm) -> (r: Result<(String, String), FormError>)
    ensures
        match r {
            Ok(p) => join_of(|n: Seq<char>| name_taken(users.users(), league_id, n, None), form.name@, form.real_name@)
                == Ok::<(Seq<char>, Seq<char>), FormError>((p.0@, p.1@)),
            Err(e) => join_of(|n: Seq<char>| name_taken(users.users(), league_id, n, None), form.name@, form.real_name@)
                == Err::<(Seq<char>, Seq<char>), FormError>(e),
        },
{
    let names = plan_names(form.name.as_str(), form.real_name.as_str());
    match names {
        Ok(p) => {
            if users.name_exists(league_id, p.0.as_str()) {
                Err(FormError::NameTaken)
            } else {
                Ok(p)
            }
        },
        Err(e) => Err(e),
    }
}

/// A player's edit of their own names.
#[derive(Debug, Clone)]
pub struct ProfileNameForm {
    pub name: String,
    pub real_name: String,
}

/// An administrator renaming a player.
#[derive(Debug, Clone)]
pub struct AdminRenameForm {
    pub name: String,
}

/// The new tip name of a rename: trimmed, not empty.
pub fn plan_rename(form: &AdminRenameForm) -> (r: Result<String, FormError>)
    ensures
        match r {
            Ok(n) => trim_of(form.name@).len() > 0 && n@ == trim_of(form.name@),
            Err(e) => trim_of(form.name@).len() == 0 && e == FormError::NameEmpty,
        },
{
    let n = trimmed(form.name.as_str());
    if n.as_str().is_empty() {
        Err(FormError::NameEmpty)
    } else {
        Ok(n)
    }
}

/// An administrator adding a player.
#[derive(Debug, Clone)]
pub struct AdminCreateForm {
    pub name: String,
    pub phone_number: String,
    pub email: String,
}

/// A player to create: name and optional contact data.
#[derive(Debug, Clone)]
pub struct NewMember {
    pub name: String,
    pub phone_number: Option<String>,
    pub email: Option<String>,
}

/// The player an administrator adds: a non-empty trimmed name, phone number
/// and email only where given.
pub fn plan_new_member(form: &AdminCreateForm) -> (r: Result<NewMember, FormError>)
    ensures
        match r {
            Ok(m) => trim_of(form.name@).len() > 0 && m.name@ == trim_of(form.name@)
                && text_opt(m.phone_number) == optional_of(form.phone_number@)
                && text_opt(m.email) == optional_of(form.email@),
            Err(e) => trim_of(form.name@).len() == 0 && e == FormError::NameEmpty,
        },
{
    let name = trimmed(form.name.as_str());
    if name.as_str().is_empty() {
        return Err(FormError::NameEmpty);
    }
    Ok(NewMember { name, phone_number: optional_text(form.phone_number.as_str()), email: optional_text(form.email.as_str()) })
}

// ─── Leagues ──────────────────────────────────────────────────────────────────

/// A league name: trimmed, not empty, at most 255 bytes of UTF-8.
pub open spec fn league_name_of(name: Seq<char>) -> Result<Seq<char>, FormError> {
    let n = trim_of(name);
    if n.len() == 0 {
        Err(FormError::LeagueNameEmpty)
    } else if encode_utf8(n).len() > 255 {
        Err(FormError::LeagueNameTooLong)
    } else {
        Ok(n)
    }
}

/// Checks a league name.
pub fn plan_league_name(name: &str) -> (r: Result<String, FormError>)
    ensures
        match r {
            Ok(n) => league_name_of(name@) == Ok::<Seq<char>, FormError>(n@),
            Err(e) => league_name_of(name@) == Err::<Seq<char>, FormError>(e),
        },
{
    let n = trimmed(name);
    proof {
        lemma_utf8_len_bounds(n@);
    }
    if n.as_str().is_empty() {
        Err(FormError::LeagueNameEmpty)
    } else if chars_of(n.as_str()).len() > 255 || n.as_str().len() > 255 {
        Err(FormError::LeagueNameTooLong)
    } else {
        Ok(n)
    }
}

/// A text takes one to four bytes of UTF-8 per character.
proof fn lemma_utf8_len_bounds(s: Seq<char>)
    ensures
        s.len() <= encode_utf8(s).len() <= 4 * s.len(),
    decreases s.len(),
{
    if s.len() > 0 {
        lemma_utf8_len_bounds(s.drop_first());
    }
}

/// A super administrator creating a league.
#[derive(Debug, Clone)]
pub struct LeagueCreateForm {
    pub name: String,
}

/// A super administrator editing a league's settings.
#[derive(Debug, Clone)]
pub struct LeagueSettingsForm {
    pub signal_group_id: String,
    pub signal_from_number: String,
    pub default_language: String,
    pub rss_feed_url: String,
    pub ko_only: bool,
    pub match_scoring_system: String,
}

/// Value of a setting update.
pub open spec fn update_view(u: (&'static str, Option<String>)) -> (Seq<char>, Option<Seq<char>>) {
    (u.0@, text_opt(u.1))
}

/// The setting updates of a league settings form, in the order they are
/// written (`None` clears a setting): the language must be empty or
/// supported and the scoring system known, else nothing is written.
pub open spec fn league_settings_of(form: LeagueSettingsForm) -> Result<Seq<(Seq<char>, Option<Seq<char>>)>, FormError> {
    let lang = trim_of(form.default_language@);
    if lang.len() > 0 && !locale_supported(lang) {
        Err(FormError::UnknownLanguage)
    } else {
        match system_from_setting(trim_of(form.match_scoring_system@)) {
            None => Err(FormError::UnknownScoring),
            Some(system) => Ok(seq![
                (KEY_KO_ONLY@, if form.ko_only { Some("true"@) } else { None }),
                (KEY_SIGNAL_GROUP_ID@, optional_of(form.signal_group_id@)),
                (KEY_SIGNAL_FROM_NUMBER@, optional_of(form.signal_from_number@)),
                (KEY_DEFAULT_LANGUAGE@, optional_of(form.default_language@)),
                (KEY_RSS_FEED_URL@, optional_of(form.rss_feed_url@)),
                (KEY_MATCH_SCORING_SYSTEM@, Some(setting_of(system))),
            ]),
        }
    }
}

/// Checks a league settings form and lists the updates it makes.
pub fn plan_league_settings(form: &LeagueSettingsForm) -> (r: Result<Vec<(&'static str, Option<String>)>, FormError>)
    ensures
        match r {
            Ok(v) => league_settings_of(*form) == Ok::<Seq<(Seq<char>, Option<Seq<char>>)>, FormError>(v@.map_values(|u: (&'static str, Option<String>)| update_view(u))),
            Err(e) => league_settings_of(*form) == Err::<Seq<(Seq<char>, Option<Seq<char>>)>, FormError>(e),
        },
{
    let lang = trimmed(form.default_language.as_str());
    if !lang.as_str().is_empty() && !is_supported_locale(lang.as_str()) {
        return Err(FormError::UnknownLanguage);
    }
    let system_text = trimmed(form.match_scoring_system.as_str());
    let system = match MatchScoringSystem::from_setting_value(system_text.as_str()) {
        Some(s) => s,
        None => {
            return Err(FormError::UnknownScoring);
        },
    };
    let ko = if form.ko_only { Some(owned("true")) } else { None };
    let mut v: Vec<(&'static str, Option<String>)> = Vec::new();
    v.push((KEY_KO_ONLY, ko));
    v.push((KEY_SIGNAL_GROUP_ID, optional_text(form.signal_group_id.as_str())));
    v.push((KEY_SIGNAL_FROM_NUMBER, optional_text(form.signal_from_number.as_str())));
    v.push((KEY_DEFAULT_LANGUAGE, optional_text(form.default_language.as_str())));
    v.push((KEY_RSS_FEED_URL, optional_text(form.rss_feed_url.as_str())));
    v.push((KEY_MATCH_SCORING_SYSTEM, Some(owned(system.as_setting_value()))));
    assert(v@.map_values(|u: (&'static str, Option<String>)| update_view(u)) =~= league_settings_of(*form)->Ok_0);
    Ok(v)
}

// ─── First run ────────────────────────────────────────────────────────────────

/// The first-run form: the first administrator and the first league.
#[derive(Debug, Clone)]
pub struct SetupForm {
    pub name: String,
    pub real_name: String,
    pub phone_number: String,
    pub email: String,
    pub league_name: String,
    pub default_language: String,
    pub signal_group_id: String,
    pub signal_from_number: String,
    pub rss_feed_url: String,
}

/// What the first run creates.
#[derive(Debug, Clone)]
pub struct SetupPlan {
    pub name: String,
    pub real_name: String,
    pub league_name: String,
    pub language: String,
    pub phone_number: Option<String>,
    pub email: Option<String>,
    pub settings: Vec<(&'static str, String)>,
}

/// Value of a setup plan.
pub struct SetupView {
    pub name: Seq<char>,
    pub real_name: Seq<char>,
    pub league_name: Seq<char>,
    pub language: Seq<char>,
    pub phone_number: Option<Seq<char>>,
    pub email: Option<Seq<char>>,
    pub settings: Seq<(Seq<char>, Seq<char>)>,
}

impl View for SetupPlan {
    type V = SetupView;

    open spec fn view(&self) -> SetupView {
        SetupView {
            name: self.name@,
            real_name: self.real_name@,
            league_name: self.league_name@,
            language: self.language@,
            phone_number: text_opt(self.phone_number),
            email: text_opt(self.email),
            settings: self.settings@.map_values(|p: (&'static str, String)| (p.0@, p.1@)),
        }
    }
}

/// The first run: only while no user exists; the administrator's name must
/// not be empty and the real name defaults to it; the league name is
/// checked as for every league; the language defaults to German and must
/// be supported. The league starts with its language, Signal group, Signal
/// sender and feed settings (trimmed, possibly empty).
pub open spec fn setup_of(existing_users: i64, form: SetupForm) -> Result<SetupView, FormError> {
    let name = trim_of(form.name@);
    let real_name = if trim_of(form.real_name@).len() == 0 { name } else { trim_of(form.real_name@) };
    let lang = if trim_of(form.default_language@).len() == 0 { "de"@ } else { trim_of(form.default_language@) };
    if existing_users > 0 {
        Err(FormError::SetupAlreadyDone)
    } else if name.len() == 0 {
        Err(FormError::NameEmpty)
    } else {
        match league_name_of(form.league_name@) {
            Err(e) => Err(e),
            Ok(league) => if !locale_supported(lang) {
                Err(FormError::UnknownLanguage)
            } else {
                Ok(SetupView {
                    name,
                    real_name,
                    league_name: league,
                    language: lang,
                    phone_number: optional_of(form.phone_number@),
                    email: optional_of(form.email@),
                    settings: seq![
                        (KEY_DEFAULT_LANGUAGE@, lang),
                        (KEY_SIGNAL_GROUP_ID@, trim_of(form.signal_group_id@)),
                        (KEY_SIGNAL_FROM_NUMBER@, trim_of(form.signal_from_number@)),
                        (KEY_RSS_FEED_URL@, trim_of(form.rss_feed_url@)),
                    ],
                })
            },
        }
    }
}

/// Checks the first-run form against the number of existing users.
pub fn plan_setup(existing_users: i64, form: &SetupForm) -> (r: Result<SetupPlan, FormError>)
    ensures
        match r {
            Ok(p) => setup_of(existing_users, *form) == Ok::<SetupView, FormError>(p@),
            Err(e) => setup_of(existing_users, *form) == Err::<SetupView, FormError>(e),
        },
{
    if existing_users > 0 {
        return Err(FormError::SetupAlreadyDone);
    }
    let name = trimmed(form.name.as_str());
    if name.as_str().is_empty() {
        return Err(FormError::NameEmpty);
    }
    let rn = trimmed(form.real_name.as_str());
    let real_name = if rn.as_str().is_empty() { name.clone() } else { rn };
    let league_name = match plan_league_name(form.league_name.as_str()) {
        Ok(n) => n,
        Err(e) => {
            return Err(e);
        },
    };
    let l = trimmed(form.default_language.as_str());
    let language = if l.as_str().is_empty() { owned("de") } else { l };
    if !is_supported_locale(language.as_str()) {
        return Err(FormError::UnknownLanguage);
    }
    let mut settings: Vec<(&'static str, String)> = Vec::new();
    settings.push((KEY_DEFAULT_LANGUAGE, language.clone()));
    settings.push((KEY_SIGNAL_GROUP_ID, trimmed(form.signal_group_id.as_str())));
    settings.push((KEY_SIGNAL_FROM_NUMBER, trimmed(form.signal_from_number.as_str())));
    settings.push((KEY_RSS_FEED_URL, trimmed(form.rss_feed_url.as_str())));
    let plan = SetupPlan {
        name,
        real_name,
        league_name,
        language,
        phone_number: optional_text(form.phone_number.as_str()),
        email: optional_text(form.email.as_str()),
        settings,
    };
    assert(plan@.settings =~= (setup_of(existing_users, *form)->Ok_0).settings);
    Ok(plan)
}

// ─── Forms without rules ─────────────────────────────────────────────────────

/// An administrator creating an invite link.
#[derive(Debug, Clone)]
pub struct InviteCreateForm {
    pub label: String,
}

/// A form without fields.
#[derive(Debug, Clone)]
pub struct EmptyForm {}

/// The simulated clock of the development tools (`YYYY-MM-DDTHH:MM`).
#[derive(Debug, Clone)]
pub struct SetTimeForm {
    pub time: String,
}

/// The jersey a player picks.
#[derive(Debug, Clone)]
pub struct JerseyPostQuery {
    pub preset: String,
}

/// The interface language a player picks.
#[derive(Debug, Clone)]
pub struct SetLanguageForm {
    pub language: String,
}

/// The colour theme a player picks.
#[derive(Debug, Clone)]
pub struct SetThemeForm {
    pub theme: String,
}

/// The matchday a recap page shows (`YYYY-MM-DD`); the latest when absent.
#[derive(Debug, Clone)]
pub struct ReportQuery {
    pub date: Option<String>,
}


/// Setup runs only on an empty install; when it goes through, the
/// administrator's tip name is the trimmed, non-empty name given, the league
/// name is the trimmed, non-empty name given, and the language is supported.
pub proof fn lemma_setup_only_once(existing_users: i64, form: SetupForm)
    ensures
        existing_users > 0 ==> setup_of(existing_users, form) == Err::<SetupView, FormError>(FormError::SetupAlreadyDone),
        setup_of(existing_users, form) matches Ok(v) ==> existing_users <= 0
            && v.name == trim_of(form.name@) && v.name.len() > 0
            && v.league_name == trim_of(form.league_name@) && v.league_name.len() > 0
            && locale_supported(v.language),
{
}

/// A league name goes through exactly when its trimmed form is neither empty
/// nor longer than 255 bytes, and then it is that trimmed form.
pub proof fn lemma_league_name_rule(name: Seq<char>)
    ensures
        league_name_of(name) matches Ok(n) ==> n == trim_of(name) && n.len() > 0 && encode_utf8(n).len() <= 255,
        trim_of(name).len() == 0 ==> league_name_of(name) == Err::<Seq<char>, FormError>(FormError::LeagueNameEmpty),
{
}

/// A tip name goes through exactly when its trimmed form is not empty; the
/// real name falls back to the tip name when left blank.
pub proof fn lemma_names_rule(name: Seq<char>, real_name: Seq<char>)
    ensures
        names_of(name, real_name) matches Ok(p) ==> p.0 == trim_of(name) && p.0.len() > 0
            && (trim_of(real_name).len() == 0 ==> p.1 == p.0)
            && (trim_of(real_name).len() > 0 ==> p.1 == trim_of(real_name)),
        trim_of(name).len() == 0 ==> names_of(name, real_name) is Err,
{
}

} // verus!
