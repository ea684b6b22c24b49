//! Leagues and their configuration, read from each league's key/value
//! settings, and the leagues held in memory.
//!
//! Every setting has a default, so a league without any stored setting gets
//! the default configuration. In the list of stored pairs a later pair
//! overrides an earlier one with the same key.

use vstd::prelude::*;

use crate::scoring::{setting_of, system_from_setting, MatchScoringSystem};
use crate::order::{count_by, lemma_sort_by, sort_by, sorted_by};
use crate::text::{lemma_lex_lt_irreflexive, lemma_lex_lt_total, lemma_lex_lt_transitive, lex_lt, owned, str_eq, str_less};

verus! {

/// Typed view over the settings of one league.
#[derive(Debug, Clone)]
pub struct LeagueConfig {
    pub signal_group_id: Option<String>,
    pub signal_from_number: Option<String>,
    /// Locale code used as the fallback for newly invited users.
    pub default_language: String,
    /// Optional RSS feed URL.
    pub rss_feed_url: Option<String>,
    /// When true, group-stage matches are hidden and cannot be tipped.
    pub predict_knockout_only: bool,
    /// Scoring system of the league's match predictions.
    pub match_scoring_system: MatchScoringSystem,
}

/// The league every installation starts with.
pub const DEFAULT_LEAGUE_ID: u128 = 1;

/// Key of the Signal group setting.
pub const KEY_SIGNAL_GROUP_ID: &'static str = "signal_group_id";
/// Key of the Signal sender number setting.
pub const KEY_SIGNAL_FROM_NUMBER: &'static str = "signal_from_number";
/// Key of the default language setting.
pub const KEY_DEFAULT_LANGUAGE: &'static str = "default_language";
/// Key of the RSS feed setting.
pub const KEY_RSS_FEED_URL: &'static str = "rss_feed_url";
/// Key of the knockout-only setting.
pub const KEY_KO_ONLY: &'static str = "predict_knockout_only";
/// Key of the scoring system setting.
pub const KEY_MATCH_SCORING_SYSTEM: &'static str = "match_scoring_system";

/// Value of an optional text.
pub open spec fn text_opt(s: Option<String>) -> Option<Seq<char>> {
    match s {
        Some(x) => Some(x@),
        None => None,
    }
}

/// The value stored under `key`: the last pair with that key.
pub open spec fn setting(kv: Seq<(String, String)>, key: Seq<char>) -> Option<Seq<char>>
    decreases kv.len(),
{
    if kv.len() == 0 {
        None
    } else if kv.last().0@ == key {
        Some(kv.last().1@)
    } else {
        setting(kv.drop_last(), key)
    }
}

/// The configuration the settings describe, `value(key)` being the value
/// stored under `key`: stored values where present, otherwise German, no
/// Signal group, no feed, all stages tipped, and the exact-score system.
/// Only the exact text `true` enables knockout-only; an unknown scoring
/// system value falls back to exact scores.
pub open spec fn config_with(c: LeagueConfig, value: spec_fn(Seq<char>) -> Option<Seq<char>>) -> bool {
    &&& text_opt(c.signal_group_id) == value(KEY_SIGNAL_GROUP_ID@)
    &&& text_opt(c.signal_from_number) == value(KEY_SIGNAL_FROM_NUMBER@)
    &&& c.default_language@ == match value(KEY_DEFAULT_LANGUAGE@) {
        Some(v) => v,
        None => "de"@,
    }
    &&& text_opt(c.rss_feed_url) == value(KEY_RSS_FEED_URL@)
    &&& c.predict_knockout_only == (value(KEY_KO_ONLY@) == Some("true"@))
    &&& c.match_scoring_system == match value(KEY_MATCH_SCORING_SYSTEM@) {
        Some(v) => match system_from_setting(v) {
            Some(s) => s,
            None => MatchScoringSystem::ExactScore,
        },
        None => MatchScoringSystem::ExactScore,
    }
}

/// The configuration a list of stored pairs describes.
pub open spec fn config_fits(c: LeagueConfig, kv: Seq<(String, String)>) -> bool {
    config_with(c, |k: Seq<char>| setting(kv, k))
}

/// The value stored under `key`.
fn lookup(kv: &Vec<(String, String)>, key: &str) -> (v: Option<String>)
    ensures
        text_opt(v) == setting(kv@, key@),
{
    let mut i: usize = kv.len();
    assert(kv@.take(i as int) =~= kv@);
    while i > 0
        invariant
            i <= kv@.len(),
            setting(kv@, key@) == setting(kv@.take(i as int), key@),
        decreases i,
    {
        let ghost t = kv@.take(i as int);
        assert(t.drop_last() =~= kv@.take(i as int - 1));
        assert(t.last() == kv@[i as int - 1]);
        i = i - 1;
        if str_eq(kv[i].0.as_str(), key) {
            return Some(kv[i].1.clone());
        }
    }
    assert(kv@.take(0) =~= Seq::<(String, String)>::empty());
    None
}

impl Default for LeagueConfig {
    fn default() -> (c: Self)
        ensures
            config_fits(c, Seq::empty()),
    {
        LeagueConfig {
            signal_group_id: None,
            signal_from_number: None,
            default_language: owned("de"),
            rss_feed_url: None,
            predict_knockout_only: false,
            match_scoring_system: MatchScoringSystem::ExactScore,
        }
    }
}

impl LeagueConfig {
    /// The configuration described by the stored key/value pairs; missing
    /// keys fall back to the defaults.
    pub fn from_kv(kv: &Vec<(String, String)>) -> (c: Self)
        ensures
            config_fits(c, kv@),
    {
        let default_language = match lookup(kv, KEY_DEFAULT_LANGUAGE) {
            Some(v) => v,
            None => owned("de"),
        };
        let predict_knockout_only = match lookup(kv, KEY_KO_ONLY) {
            Some(v) => str_eq(v.as_str(), "true"),
            None => false,
        };
        let match_scoring_system = match lookup(kv, KEY_MATCH_SCORING_SYSTEM) {
            Some(v) => match MatchScoringSystem::from_setting_value(v.as_str()) {
                Some(s) => s,
                None => MatchScoringSystem::default(),
            },
            None => MatchScoringSystem::default(),
        };
        LeagueConfig {
            signal_group_id: lookup(kv, KEY_SIGNAL_GROUP_ID),
            signal_from_number: lookup(kv, KEY_SIGNAL_FROM_NUMBER),
            default_language,
            rss_feed_url: lookup(kv, KEY_RSS_FEED_URL),
            predict_knockout_only,
            match_scoring_system,
        }
    }

    /// Whether the league tips only the winner of each match.
    pub fn uses_winner_only_scoring(&self) -> (b: bool)
        ensures
            b == (self.match_scoring_system == MatchScoringSystem::WinnerOnly),
    {
        self.match_scoring_system.is_winner_only()
    }
}

// ─── Leagues in memory ────────────────────────────────────────────────────────

/// A league: the boundary of every listing and aggregate.
#[derive(Debug, Clone)]
pub struct League {
    pub id: u128,
    pub name: String,
    pub notifications_bootstrapped: bool,
}

/// Value of a league.
pub struct LeagueView {
    pub id: u128,
    pub name: Seq<char>,
    pub notifications_bootstrapped: bool,
}

impl View for League {
    type V = LeagueView;

    open spec fn view(&self) -> LeagueView {
        LeagueView { id: self.id, name: self.name@, notifications_bootstrapped: self.notifications_bootstrapped }
    }
}

/// Values of leagues.
pub open spec fn league_views(s: Seq<League>) -> Seq<LeagueView> {
    s.map_values(|l: League| l@)
}

/// A change of a setting: the league, the key, and the new value (`None`
/// deletes it).
pub type SettingChange = (u128, Seq<char>, Option<Seq<char>>);

/// Values of stored setting changes.
pub open spec fn change_views(s: Seq<(u128, String, Option<String>)>) -> Seq<SettingChange> {
    s.map_values(|c: (u128, String, Option<String>)| (c.0, c.1@, text_opt(c.2)))
}

/// The value of a league's setting after the changes: the latest change of
/// that key in that league decides.
pub open spec fn current(log: Seq<SettingChange>, league: u128, key: Seq<char>) -> Option<Seq<char>>
    decreases log.len(),
{
    if log.len() == 0 {
        None
    } else if log.last().0 == league && log.last().1 == key {
        log.last().2
    } else {
        current(log.drop_last(), league, key)
    }
}

/// League list order: by name, by code point.
pub open spec fn league_le() -> spec_fn(LeagueView, LeagueView) -> bool {
    |a: LeagueView, b: LeagueView| !lex_lt(b.name, a.name)
}

/// Index of the first league with that id.
pub open spec fn find_league(ls: Seq<LeagueView>, id: u128) -> Option<int>
    decreases ls.len(),
{
    if ls.len() == 0 {
        None
    } else {
        match find_league(ls.drop_last(), id) {
            Some(i) => Some(i),
            None => if ls.last().id == id { Some(ls.len() - 1) } else { None },
        }
    }
}

fn copy_league(l: &League) -> (c: League)
    ensures
        c == *l,
{
    League { id: l.id, name: l.name.clone(), notifications_bootstrapped: l.notifications_bootstrapped }
}

/// The pairs without those under `key`.
fn without_key(kv: &Vec<(String, String)>, key: &String) -> (r: Vec<(String, String)>)
    ensures
        forall|k: Seq<char>| #[trigger] setting(r@, k) == if k == key@ { None } else { setting(kv@, k) },
{
    let mut r: Vec<(String, String)> = Vec::new();
    let mut j: usize = 0;
    while j < kv.len()
        invariant
            j <= kv@.len(),
            forall|k: Seq<char>| #[trigger] setting(r@, k) == if k == key@ { None } else { setting(kv@.take(j as int), k) },
        decreases kv@.len() - j,
    {
        let ghost before = r@;
        let ghost t = kv@.take(j as int + 1);
        assert(t.drop_last() =~= kv@.take(j as int));
        assert(t.last() == kv@[j as int]);
        if !str_eq(kv[j].0.as_str(), key.as_str()) {
            r.push((kv[j].0.clone(), kv[j].1.clone()));
            assert(r@.drop_last() =~= before);
            assert(r@.last() == kv@[j as int]);
            assert forall|k: Seq<char>| #[trigger] setting(r@, k) == if k == key@ { None } else { setting(t, k) } by {
                assert(setting(before, k) == if k == key@ { None } else { setting(kv@.take(j as int), k) });
            }
        } else {
            assert forall|k: Seq<char>| #[trigger] setting(r@, k) == if k == key@ { None } else { setting(t, k) } by {
                assert(setting(r@, k) == if k == key@ { None } else { setting(kv@.take(j as int), k) });
            }
        }
        j = j + 1;
    }
    assert(kv@.take(j as int) =~= kv@);
    r
}

/// The leagues and their settings, held in memory.
pub struct MemoryLeagueRepo {
    leagues: Vec<League>,
    settings: Vec<(u128, String, Option<String>)>,
}

impl MemoryLeagueRepo {
    /// The leagues, in order of creation.
    pub closed spec fn leagues(&self) -> Seq<LeagueView> {
        league_views(self.leagues@)
    }

    /// The setting changes, oldest first.
    pub closed spec fn changes(&self) -> Seq<SettingChange> {
        change_views(self.settings@)
    }

    /// No leagues, no settings.
    pub fn new() -> (r: Self)
        ensures
            r.leagues() == Seq::<LeagueView>::empty(),
            r.changes() == Seq::<SettingChange>::empty(),
    {
        let r = MemoryLeagueRepo { leagues: Vec::new(), settings: Vec::new() };
        assert(league_views(r.leagues@) =~= Seq::<LeagueView>::empty());
        assert(change_views(r.settings@) =~= Seq::<SettingChange>::empty());
        r
    }

    /// Adds a league as it is.
    pub fn seed(&mut self, league: League)
        ensures
            final(self).leagues() == old(self).leagues().push(league@),
            final(self).changes() == old(self).changes(),
    {
        self.leagues.push(league);
        assert(league_views(self.leagues@) =~= league_views(old(self).leagues@).push(league@));
    }

    /// All leagues, sorted by name.
    pub fn list(&self) -> (out: Vec<League>)
        ensures
            league_views(out@) == sort_by(self.leagues(), league_le()),
    {
        let ghost ls = self.leagues();
        let mut out: Vec<League> = Vec::new();
        let mut j: usize = 0;
        while j < self.leagues.len()
            invariant
                j <= self.leagues@.len(),
                ls == self.leagues(),
                ls.len() == self.leagues@.len(),
                league_views(out@) == sort_by(ls.take(j as int), league_le()),
            decreases self.leagues@.len() - j,
        {
            assert(ls.take(j as int + 1).drop_last() =~= ls.take(j as int));
            let ghost vs = league_views(out@);
            let mut cnt: usize = 0;
            let mut k: usize = 0;
            while k < out.len()
                invariant
                    k <= out@.len(),
                    j < self.leagues@.len(),
                    ls == self.leagues(),
                    vs == league_views(out@),
                    vs.len() == out@.len(),
                    cnt <= k,
                    cnt == count_by(vs.take(k as int), ls[j as int], league_le()),
                decreases out@.len() - k,
            {
                assert(vs.take(k as int + 1).drop_last() =~= vs.take(k as int));
                if !str_less(self.leagues[j].name.as_str(), out[k].name.as_str()) {
                    cnt = cnt + 1;
                }
                k = k + 1;
            }
            assert(vs.take(k as int) =~= vs);
            out.insert(cnt, copy_league(&self.leagues[j]));
            assert(league_views(out@) =~= vs.insert(cnt as int, ls[j as int]));
            j = j + 1;
        }
        assert(ls.take(j as int) =~= ls);
        out
    }

    /// Index of the first league with that id.
    fn index_of(&self, id: u128) -> (r: Option<usize>)
        ensures
            match r {
                Some(i) => i < self.leagues@.len() && find_league(self.leagues(), id) == Some(i as int),
                None => find_league(self.leagues(), id) is None,
            },
    {
        let ghost ls = self.leagues();
        let mut i: usize = 0;
        while i < self.leagues.len()
            invariant
                i <= self.leagues@.len(),
                ls == self.leagues(),
                ls.len() == self.leagues@.len(),
                find_league(ls.take(i as int), id) is None,
            decreases self.leagues@.len() - i,
        {
            assert(ls.take(i as int + 1).drop_last() =~= ls.take(i as int));
            if self.leagues[i].id == id {
                proof { lemma_find_league_prefix(ls, id, i as int + 1); }
                return Some(i);
            }
            i = i + 1;
        }
        assert(ls.take(i as int) =~= ls);
        None
    }

    /// The first league with that id.
    pub fn find_by_id(&self, id: u128) -> (r: Option<League>)
        ensures
            r is Some <==> find_league(self.leagues(), id) is Some,
            r matches Some(l) ==> l@ == self.leagues()[find_league(self.leagues(), id).unwrap()],
    {
        match self.index_of(id) {
            Some(i) => Some(copy_league(&self.leagues[i])),
            None => None,
        }
    }

    /// Creates a league under a fresh random id, not yet bootstrapped, and
    /// returns the id.
    pub fn create(&mut self, name: &str) -> (id: u128)
        ensures
            final(self).leagues() == old(self).leagues().push(LeagueView { id, name: name@, notifications_bootstrapped: false }),
            final(self).changes() == old(self).changes(),
    {
        let id = crate::util::fresh_id();
        self.leagues.push(League { id, name: owned(name), notifications_bootstrapped: false });
        assert(league_views(self.leagues@) =~= league_views(old(self).leagues@).push(
            LeagueView { id, name: name@, notifications_bootstrapped: false },
        ));
        id
    }

    /// Marks the first league with that id as bootstrapped.
    pub fn set_bootstrapped(&mut self, league_id: u128)
        ensures
            final(self).leagues() == match find_league(old(self).leagues(), league_id) {
                Some(k) => old(self).leagues().update(k, LeagueView { notifications_bootstrapped: true, ..old(self).leagues()[k] }),
                None => old(self).leagues(),
            },
            final(self).changes() == old(self).changes(),
    {
        if let Some(i) = self.index_of(league_id) {
            let mut l = copy_league(&self.leagues[i]);
            l.notifications_bootstrapped = true;
            self.leagues.set(i, l);
            assert(league_views(self.leagues@) =~= league_views(old(self).leagues@).update(i as int, l@));
        }
    }

    /// Sets (or, with `None`, deletes) a setting of a league.
    pub fn set_setting(&mut self, league_id: u128, key: &str, value: Option<&str>)
        ensures
            final(self).leagues() == old(self).leagues(),
            final(self).changes() == old(self).changes().push((league_id, key@, match value {
                Some(v) => Some(v@),
                None => None,
            })),
    {
        let v = match value {
            Some(v) => Some(owned(v)),
            None => None,
        };
        self.settings.push((league_id, owned(key), v));
        assert(change_views(self.settings@) =~= change_views(old(self).settings@).push((league_id, key@, match value {
            Some(v) => Some(v@),
            None => None,
        })));
    }

    /// The league's configuration from its current settings; missing keys
    /// fall back to the defaults.
    pub fn get_config(&self, league_id: u128) -> (c: LeagueConfig)
        ensures
            config_with(c, |k: Seq<char>| current(self.changes(), league_id, k)),
    {
        let ghost log = self.changes();
        let mut kv: Vec<(String, String)> = Vec::new();
        let mut i: usize = 0;
        while i < self.settings.len()
            invariant
                i <= self.settings@.len(),
                log == self.changes(),
                log.len() == self.settings@.len(),
                forall|k: Seq<char>| #[trigger] setting(kv@, k) == current(log.take(i as int), league_id, k),
            decreases self.settings@.len() - i,
        {
            let ghost t = log.take(i as int + 1);
            assert(t.drop_last() =~= log.take(i as int));
            assert(t.last() == (self.settings@[i as int].0, self.settings@[i as int].1@, text_opt(self.settings@[i as int].2)));
            let entry = &self.settings[i];
            let ghost old_kv = kv@;
            if entry.0 == league_id {
                let mut next = without_key(&kv, &entry.1);
                match &entry.2 {
                    Some(v) => {
                        let ghost base = next@;
                        next.push((entry.1.clone(), v.clone()));
                        assert(next@.drop_last() =~= base);
                        assert forall|k: Seq<char>| #[trigger] setting(next@, k) == current(t, league_id, k) by {
                            assert(setting(base, k) == if k == entry.1@ { None } else { setting(old_kv, k) });
                            assert(setting(old_kv, k) == current(log.take(i as int), league_id, k));
                        }
                    },
                    None => {
                        assert forall|k: Seq<char>| #[trigger] setting(next@, k) == current(t, league_id, k) by {
                            assert(setting(old_kv, k) == current(log.take(i as int), league_id, k));
                        }
                    },
                }
                kv = next;
            } else {
                assert forall|k: Seq<char>| #[trigger] setting(kv@, k) == current(t, league_id, k) by {
                    assert(setting(old_kv, k) == current(log.take(i as int), league_id, k));
                }
            }
            i = i + 1;
        }
        assert(log.take(i as int) =~= log);
        let c = LeagueConfig::from_kv(&kv);
        assert((|k: Seq<char>| setting(kv@, k)) =~= (|k: Seq<char>| current(log, league_id, k)));
        c
    }
}

/// The league list is sorted by name and holds every league once.
pub proof fn lemma_league_list_sorted(ls: Seq<LeagueView>)
    ensures
        sorted_by(sort_by(ls, league_le()), league_le()),
        sort_by(ls, league_le()).to_multiset() == ls.to_multiset(),
{
    assert forall|a: LeagueView, b: LeagueView| #[trigger] league_le()(a, b) || league_le()(b, a) by {
        lemma_lex_lt_total(a.name, b.name);
    }
    assert forall|a: LeagueView, b: LeagueView, c: LeagueView| #[trigger] league_le()(a, b) && #[trigger] league_le()(b, c) implies league_le()(a, c) by {
        lemma_lex_lt_total(a.name, b.name);
        lemma_lex_lt_total(b.name, c.name);
        lemma_lex_lt_total(a.name, c.name);
        if lex_lt(c.name, a.name) && lex_lt(a.name, b.name) {
            lemma_lex_lt_transitive(c.name, a.name, b.name);
        }
        if lex_lt(b.name, c.name) && lex_lt(c.name, a.name) {
            lemma_lex_lt_transitive(b.name, c.name, a.name);
        }
        lemma_lex_lt_irreflexive(a.name);
    }
    lemma_sort_by(ls, league_le());
}

/// A setting reads back what was last written to it (nothing after a
/// delete); other keys and other leagues keep their values.
pub proof fn lemma_setting_round_trip(log: Seq<SettingChange>, league: u128, key: Seq<char>, value: Option<Seq<char>>, other_league: u128, other_key: Seq<char>)
    ensures
        current(log.push((league, key, value)), league, key) == value,
        (other_league != league || other_key != key)
            ==> current(log.push((league, key, value)), other_league, other_key) == current(log, other_league, other_key),
{
    assert(log.push((league, key, value)).drop_last() =~= log);
}

/// Without any stored setting a league gets the default configuration.
pub proof fn lemma_empty_settings_default(c: LeagueConfig, league: u128)
    requires
        config_with(c, |k: Seq<char>| current(Seq::empty(), league, k)),
    ensures
        c.signal_group_id is None,
        c.signal_from_number is None,
        c.default_language@ == "de"@,
        c.rss_feed_url is None,
        !c.predict_knockout_only,
        c.match_scoring_system == MatchScoringSystem::ExactScore,
{
}

proof fn lemma_find_league_prefix(ls: Seq<LeagueView>, id: u128, n: int)
    requires
        0 <= n <= ls.len(),
        find_league(ls.take(n), id) is Some,
    ensures
        find_league(ls, id) == find_league(ls.take(n), id),
    decreases ls.len() - n,
{
    if n < ls.len() {
        assert(ls.take(n + 1).drop_last() =~= ls.take(n));
        lemma_find_league_prefix(ls, id, n + 1);
    } else {
        assert(ls.take(n) =~= ls);
    }
}


/// A league plays the scoring system whose setting was stored last, and is
/// knockout-only exactly when `true` was stored last for that flag.
pub proof fn lemma_config_follows_last_setting(c: LeagueConfig, kv: Seq<(String, String)>, system: MatchScoringSystem)
    requires
        config_fits(c, kv),
        kv.len() > 0,
    ensures
        kv.last().0@ == KEY_MATCH_SCORING_SYSTEM@ && kv.last().1@ == setting_of(system) ==> c.match_scoring_system == system,
        kv.last().0@ == KEY_KO_ONLY@ ==> (c.predict_knockout_only <==> kv.last().1@ == "true"@),
{
    crate::scoring::lemma_scoring_setting_round_trip(system, setting_of(system));
}

/// Without settings a league plays exact scores in German, tips every stage
/// and has no Signal group and no feed.
pub proof fn lemma_config_defaults(c: LeagueConfig)
    requires
        config_fits(c, Seq::empty()),
    ensures
        c.match_scoring_system == MatchScoringSystem::ExactScore,
        c.default_language@ == "de"@,
        !c.predict_knockout_only,
        c.signal_group_id is None,
        c.rss_feed_url is None,
{
}

} // verus!
