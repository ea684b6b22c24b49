//! In-memory stores used in place of the database: global key/value
//! settings, the teams of the tournament, and the first-run bootstrap.

use vstd::prelude::*;

use crate::order::{count_by, lemma_sort_by, sort_by, sorted_by, total_preorder};
use crate::text::{lemma_lex_le_total_preorder, lex_le, lex_lt, owned, starts_with, str_eq, str_less};

verus! {

broadcast use vstd::seq_lib::group_seq_properties;

// ─── Settings ─────────────────────────────────────────────────────────────────

/// The map a list of pairs describes; a later pair overrides an earlier one
/// with the same key.
pub open spec fn map_of(s: Seq<(String, String)>) -> Map<Seq<char>, Seq<char>>
    decreases s.len(),
{
    if s.len() == 0 {
        Map::empty()
    } else {
        map_of(s.drop_last()).insert(s.last().0@, s.last().1@)
    }
}

/// No key occurs twice.
pub open spec fn keys_distinct(s: Seq<(String, String)>) -> bool {
    forall|i: int, j: int| 0 <= i < j < s.len() ==> (#[trigger] s[i]).0@ != (#[trigger] s[j]).0@
}

proof fn lemma_map_of_at(s: Seq<(String, String)>, i: int)
    requires
        keys_distinct(s),
        0 <= i < s.len(),
    ensures
        map_of(s).contains_key(s[i].0@),
        map_of(s)[s[i].0@] == s[i].1@,
    decreases s.len(),
{
    if i < s.len() - 1 {
        let t = s.drop_last();
        assert(t[i] == s[i]);
        assert forall|a: int, b: int| 0 <= a < b < t.len() implies (#[trigger] t[a]).0@ != (#[trigger] t[b]).0@ by {
            assert(t[a] == s[a] && t[b] == s[b]);
        }
        lemma_map_of_at(t, i);
        assert(s[i].0@ != s.last().0@);
    }
}

proof fn lemma_map_of_absent(s: Seq<(String, String)>, k: Seq<char>)
    requires
        forall|i: int| 0 <= i < s.len() ==> (#[trigger] s[i]).0@ != k,
    ensures
        !map_of(s).contains_key(k),
    decreases s.len(),
{
    if s.len() > 0 {
        let t = s.drop_last();
        assert forall|i: int| 0 <= i < t.len() implies (#[trigger] t[i]).0@ != k by {
            assert(t[i] == s[i]);
        }
        lemma_map_of_absent(t, k);
        assert(s.last().0@ != k);
    }
}

proof fn lemma_map_of_update(s: Seq<(String, String)>, i: int, p: (String, String))
    requires
        keys_distinct(s),
        0 <= i < s.len(),
        p.0@ == s[i].0@,
    ensures
        map_of(s.update(i, p)) == map_of(s).insert(p.0@, p.1@),
    decreases s.len(),
{
    let u = s.update(i, p);
    if i == s.len() - 1 {
        assert(u.drop_last() =~= s.drop_last());
        let t = s.drop_last();
        assert forall|a: int| 0 <= a < t.len() implies (#[trigger] t[a]).0@ != p.0@ by {
            assert(t[a] == s[a]);
        }
        lemma_map_of_absent(t, p.0@);
        assert(map_of(u) =~= map_of(s).insert(p.0@, p.1@));
    } else {
        let t = s.drop_last();
        assert(u.drop_last() =~= t.update(i, p));
        assert forall|a: int, b: int| 0 <= a < b < t.len() implies (#[trigger] t[a]).0@ != (#[trigger] t[b]).0@ by {
            assert(t[a] == s[a] && t[b] == s[b]);
        }
        lemma_map_of_update(t, i, p);
        assert(s.last().0@ != p.0@);
        assert(map_of(u) =~= map_of(s).insert(p.0@, p.1@));
    }
}

/// Global key/value settings held in memory.
pub struct MemorySettingsRepo {
    values: Vec<(String, String)>,
}

impl View for MemorySettingsRepo {
    type V = Map<Seq<char>, Seq<char>>;

    closed spec fn view(&self) -> Map<Seq<char>, Seq<char>> {
        map_of(self.values@)
    }
}

impl MemorySettingsRepo {
    /// Each key is stored once.
    pub closed spec fn wf(&self) -> bool {
        keys_distinct(self.values@)
    }

    /// An empty store.
    pub fn new() -> (r: Self)
        ensures
            r.wf(),
            r@ == Map::<Seq<char>, Seq<char>>::empty(),
    {
        MemorySettingsRepo { values: Vec::new() }
    }

    /// Stores `value` under `key`, replacing any earlier value.
    pub fn set(&mut self, key: &str, value: &str)
        requires
            old(self).wf(),
        ensures
            final(self).wf(),
            final(self)@ == old(self)@.insert(key@, value@),
    {
        let ghost before = self.values@;
        let mut i: usize = 0;
        while i < self.values.len()
            invariant
                i <= self.values@.len(),
                self.values@ == before,
                before == old(self).values@,
                keys_distinct(before),
                forall|q: int| 0 <= q < i ==> (#[trigger] before[q]).0@ != key@,
            decreases self.values@.len() - i,
        {
            if str_eq(self.values[i].0.as_str(), key) {
                let p = (owned(key), owned(value));
                proof {
                    lemma_map_of_update(before, i as int, p);
                }
                self.values.set(i, p);
                assert forall|a: int, b: int| 0 <= a < b < self.values@.len() implies
                    (#[trigger] self.values@[a]).0@ != (#[trigger] self.values@[b]).0@ by {
                    assert(self.values@[a].0@ == before[a].0@ && self.values@[b].0@ == before[b].0@);
                }
                return;
            }
            i = i + 1;
        }
        let p = (owned(key), owned(value));
        self.values.push(p);
        assert(self.values@.drop_last() =~= before);
    }

    /// Stores `value` under `key` (setting up a store for a test).
    pub fn seed(&mut self, key: &str, value: &str)
        requires
            old(self).wf(),
        ensures
            final(self).wf(),
            final(self)@ == old(self)@.insert(key@, value@),
    {
        self.set(key, value)
    }

    /// The value stored under `key`.
    pub fn get(&self, key: &str) -> (v: Option<String>)
        requires
            self.wf(),
        ensures
            match v {
                Some(x) => self@.contains_key(key@) && self@[key@] == x@,
                None => !self@.contains_key(key@),
            },
    {
        let mut i: usize = 0;
        while i < self.values.len()
            invariant
                i <= self.values@.len(),
                self.wf(),
                forall|q: int| 0 <= q < i ==> (#[trigger] self.values@[q]).0@ != key@,
            decreases self.values@.len() - i,
        {
            if str_eq(self.values[i].0.as_str(), key) {
                proof {
                    lemma_map_of_at(self.values@, i as int);
                }
                return Some(self.values[i].1.clone());
            }
            i = i + 1;
        }
        proof {
            lemma_map_of_absent(self.values@, key@);
        }
        None
    }
}

// ─── Teams ────────────────────────────────────────────────────────────────────

/// Team data of the champion picker.
#[derive(Debug, Clone)]
pub struct TeamOption {
    pub id: i32,
    pub name: String,
    pub flag_code: Option<String>,
}

/// One team as the scoreboard feed reports it. A missing flag keeps the
/// stored one.
#[derive(Debug, Clone)]
pub struct EspnTeamUpsert<'a> {
    pub espn_id: i32,
    pub name: &'a str,
    pub short_name: Option<&'a str>,
    pub flag_code: Option<&'a str>,
    pub group_letter: Option<&'a str>,
}

/// Value of a team.
pub struct TeamView {
    pub id: i32,
    pub name: Seq<char>,
    pub flag: Option<Seq<char>>,
}

impl View for TeamOption {
    type V = TeamView;

    open spec fn view(&self) -> TeamView {
        TeamView {
            id: self.id,
            name: self.name@,
            flag: match self.flag_code {
                Some(f) => Some(f@),
                None => None,
            },
        }
    }
}

/// Bracket slots of the feed ("Group A Winner", "Quarterfinal 2", ...) that
/// are not real teams.
pub open spec fn placeholder_of(name: Seq<char>) -> bool {
    ||| name.len() >= 6 && name.subrange(0, 6) == "Group "@
    ||| name.len() >= 13 && name.subrange(0, 13) == "Quarterfinal "@
    ||| name.len() >= 10 && name.subrange(0, 10) == "Semifinal "@
    ||| name.len() >= 9 && name.subrange(0, 9) == "Round of "@
    ||| name.len() >= 12 && name.subrange(0, 12) == "Third Place "@
}

/// Whether a team name is a bracket placeholder.
pub fn is_placeholder(name: &str) -> (b: bool)
    ensures
        b == placeholder_of(name@),
{
    proof {
        reveal_strlit("Group ");
        reveal_strlit("Quarterfinal ");
        reveal_strlit("Semifinal ");
        reveal_strlit("Round of ");
        reveal_strlit("Third Place ");
    }
    starts_with(name, "Group ") || starts_with(name, "Quarterfinal ") || starts_with(name, "Semifinal ")
        || starts_with(name, "Round of ") || starts_with(name, "Third Place ")
}

/// The real teams of a list, in list order.
pub open spec fn real_teams(s: Seq<TeamView>) -> Seq<TeamView>
    decreases s.len(),
{
    if s.len() == 0 {
        Seq::empty()
    } else {
        let t = real_teams(s.drop_last());
        if placeholder_of(s.last().name) {
            t
        } else {
            t.push(s.last())
        }
    }
}

/// Alphabetical order of teams.
pub open spec fn team_le() -> spec_fn(TeamView, TeamView) -> bool {
    |a: TeamView, b: TeamView| !lex_lt(b.name, a.name)
}

/// Index of the first team with that id.
pub open spec fn find_team(s: Seq<TeamView>, id: i32) -> Option<int>
    decreases s.len(),
{
    if s.len() == 0 {
        None
    } else {
        match find_team(s.drop_last(), id) {
            Some(i) => Some(i),
            None => if s.last().id == id { Some(s.len() - 1) } else { None },
        }
    }
}

/// The teams after an upsert: the first team with the id gets the new name
/// and, when one is given, the new flag; without such a team it is added.
pub open spec fn upserted(s: Seq<TeamView>, id: i32, name: Seq<char>, flag: Option<Seq<char>>) -> Seq<TeamView> {
    match find_team(s, id) {
        Some(i) => s.update(i, TeamView {
            id,
            name,
            flag: match flag {
                Some(f) => Some(f),
                None => s[i].flag,
            },
        }),
        None => s.push(TeamView { id, name, flag }),
    }
}

/// Value of an optional borrowed text.
pub open spec fn str_opt(s: Option<&str>) -> Option<Seq<char>> {
    match s {
        Some(x) => Some(x@),
        None => None,
    }
}

/// Value of an optional text.
pub open spec fn string_opt(s: Option<String>) -> Option<Seq<char>> {
    match s {
        Some(x) => Some(x@),
        None => None,
    }
}

proof fn lemma_find_team(s: Seq<TeamView>, id: i32)
    ensures
        match find_team(s, id) {
            Some(i) => 0 <= i < s.len() && s[i].id == id && forall|j: int| 0 <= j < i ==> (#[trigger] s[j]).id != id,
            None => forall|j: int| 0 <= j < s.len() ==> (#[trigger] s[j]).id != id,
        },
    decreases s.len(),
{
    if s.len() > 0 {
        lemma_find_team(s.drop_last(), id);
        let t = s.drop_last();
        assert forall|j: int| 0 <= j < t.len() implies t[j] == s[j] by {}
    }
}

proof fn lemma_find_team_first(s: Seq<TeamView>, id: i32, i: int)
    requires
        0 <= i < s.len(),
        s[i].id == id,
        forall|j: int| 0 <= j < i ==> (#[trigger] s[j]).id != id,
    ensures
        find_team(s, id) == Some(i),
{
    lemma_find_team(s, id);
}

proof fn lemma_find_team_none(s: Seq<TeamView>, id: i32)
    requires
        forall|j: int| 0 <= j < s.len() ==> (#[trigger] s[j]).id != id,
    ensures
        find_team(s, id) is None,
{
    lemma_find_team(s, id);
}

fn copy_team(t: &TeamOption) -> (c: TeamOption)
    ensures
        c@ == t@,
{
    TeamOption {
        id: t.id,
        name: t.name.clone(),
        flag_code: match &t.flag_code {
            Some(f) => Some(f.clone()),
            None => None,
        },
    }
}

/// The teams of the tournament held in memory.
pub struct MemoryTeamRepo {
    teams: Vec<TeamOption>,
}

impl View for MemoryTeamRepo {
    type V = Seq<TeamView>;

    closed spec fn view(&self) -> Seq<TeamView> {
        self.teams@.map_values(|t: TeamOption| t@)
    }
}

impl MemoryTeamRepo {
    /// An empty store.
    pub fn new() -> (r: Self)
        ensures
            r@ == Seq::<TeamView>::empty(),
    {
        let r = MemoryTeamRepo { teams: Vec::new() };
        assert(r@ =~= Seq::<TeamView>::empty());
        r
    }

    /// Adds a team as it is (setting up a store for a test).
    pub fn seed(&mut self, team: TeamOption)
        ensures
            final(self)@ == old(self)@.push(team@),
    {
        let ghost v = team@;
        self.teams.push(team);
        assert(self@ =~= old(self)@.push(v));
    }

    /// The real teams, sorted by name.
    pub fn list_real_for_dropdown(&self) -> (out: Vec<TeamOption>)
        ensures
            out@.map_values(|t: TeamOption| t@) == sort_by(real_teams(self@), team_le()),
    {
        let ghost all = self@;
        let mut out: Vec<TeamOption> = Vec::new();
        let mut i: usize = 0;
        while i < self.teams.len()
            invariant
                i <= self.teams@.len(),
                all == self@,
                all == self.teams@.map_values(|t: TeamOption| t@),
                out@.map_values(|t: TeamOption| t@) == sort_by(real_teams(all.take(i as int)), team_le()),
            decreases self.teams@.len() - i,
        {
            assert(all.take(i as int + 1).drop_last() =~= all.take(i as int));
            assert(all.take(i as int + 1).last() == self.teams@[i as int]@);
            let t = &self.teams[i];
            if !is_placeholder(t.name.as_str()) {
                let ghost base = real_teams(all.take(i as int));
                assert(base.push(t@).drop_last() =~= base);
                let ghost lines = out@.map_values(|t: TeamOption| t@);
                let mut cnt: usize = 0;
                let mut k: usize = 0;
                while k < out.len()
                    invariant
                        k <= out@.len(),
                        lines == out@.map_values(|t: TeamOption| t@),
                        cnt <= k,
                        cnt == count_by(lines.take(k as int), t@, team_le()),
                    decreases out@.len() - k,
                {
                    assert(lines.take(k as int + 1).drop_last() =~= lines.take(k as int));
                    if !str_less(t.name.as_str(), out[k].name.as_str()) {
                        cnt = cnt + 1;
                    }
                    k = k + 1;
                }
                assert(lines.take(k as int) =~= lines);
                let c = copy_team(t);
                out.insert(cnt, c);
                assert(out@.map_values(|t: TeamOption| t@) =~= lines.insert(cnt as int, t@));
            }
            i = i + 1;
        }
        assert(all.take(i as int) =~= all);
        out
    }

    /// Whether a real team with that id is stored.
    pub fn exists_real(&self, team_id: i32) -> (b: bool)
        ensures
            b == exists|i: int| 0 <= i < self@.len() && (#[trigger] self@[i]).id == team_id && !placeholder_of(self@[i].name),
    {
        let mut i: usize = 0;
        while i < self.teams.len()
            invariant
                i <= self.teams@.len(),
                forall|q: int| 0 <= q < i ==> !((#[trigger] self@[q]).id == team_id && !placeholder_of(self@[q].name)),
            decreases self.teams@.len() - i,
        {
            assert(self@[i as int] == self.teams@[i as int]@);
            if self.teams[i].id == team_id && !is_placeholder(self.teams[i].name.as_str()) {
                return true;
            }
            i = i + 1;
        }
        false
    }

    /// Updates the team with the upsert's id, or adds it.
    pub fn upsert_from_espn(&mut self, u: EspnTeamUpsert<'_>)
        ensures
            final(self)@ == upserted(old(self)@, u.espn_id, u.name@, str_opt(u.flag_code)),
    {
        let ghost before = self@;
        let new_flag = match u.flag_code {
            Some(f) => Some(owned(f)),
            None => None,
        };
        let mut i: usize = 0;
        while i < self.teams.len()
            invariant
                i <= self.teams@.len(),
                before == self@,
                before == old(self)@,
                string_opt(new_flag) == str_opt(u.flag_code),
                forall|q: int| 0 <= q < i ==> (#[trigger] before[q]).id != u.espn_id,
            decreases self.teams@.len() - i,
        {
            assert(before[i as int] == self.teams@[i as int]@);
            if self.teams[i].id == u.espn_id {
                proof {
                    lemma_find_team_first(before, u.espn_id, i as int);
                }
                let flag_code = match new_flag {
                    Some(f) => Some(f),
                    None => match &self.teams[i].flag_code {
                        Some(f) => Some(f.clone()),
                        None => None,
                    },
                };
                let t = TeamOption { id: u.espn_id, name: owned(u.name), flag_code };
                let ghost tv = t@;
                self.teams.set(i, t);
                assert(self@ =~= before.update(i as int, tv));
                return;
            }
            i = i + 1;
        }
        proof {
            lemma_find_team_none(before, u.espn_id);
        }
        let t = TeamOption { id: u.espn_id, name: owned(u.name), flag_code: new_flag };
        let ghost tv = t@;
        self.teams.push(t);
        assert(self@ =~= before.push(tv));
    }
}

// ─── Bootstrap ────────────────────────────────────────────────────────────────

/// First-run bootstrap held in memory: creating the first league and its
/// administrator has no effect on it.
pub struct MemoryBootstrapRepo;

impl MemoryBootstrapRepo {
    pub fn new() -> (r: Self)
        ensures
            r == MemoryBootstrapRepo,
    {
        MemoryBootstrapRepo
    }
}

// ─── Laws ─────────────────────────────────────────────────────────────────────

/// A stored setting reads back as the value last written under its key;
/// writing one key leaves every other key as it was.
pub proof fn lemma_setting_read_after_write(m: Map<Seq<char>, Seq<char>>, key: Seq<char>, value: Seq<char>, other: Seq<char>)
    requires
        other != key,
    ensures
        m.insert(key, value).contains_key(key),
        m.insert(key, value)[key] == value,
        m.insert(key, value).contains_key(other) == m.contains_key(other),
        m.contains_key(other) ==> m.insert(key, value)[other] == m[other],
{
}

/// Upserting the same team twice is the same as upserting it once.
pub proof fn lemma_upsert_idempotent(s: Seq<TeamView>, id: i32, name: Seq<char>, flag: Option<Seq<char>>)
    ensures
        upserted(upserted(s, id, name, flag), id, name, flag) == upserted(s, id, name, flag),
{
    lemma_find_team(s, id);
    let u = upserted(s, id, name, flag);
    match find_team(s, id) {
        Some(i) => {
            assert forall|j: int| 0 <= j < i implies (#[trigger] u[j]).id != id by {
                assert(u[j] == s[j]);
            }
            lemma_find_team_first(u, id, i);
            assert(upserted(u, id, name, flag) =~= u);
        },
        None => {
            assert forall|j: int| 0 <= j < s.len() implies (#[trigger] u[j]).id != id by {
                assert(u[j] == s[j]);
            }
            lemma_find_team_first(u, id, s.len() as int);
            assert(upserted(u, id, name, flag) =~= u);
        },
    }
}

/// After an upsert the first team with its id carries the new name, and the
/// new flag when one was given.
pub proof fn lemma_upsert_then_found(s: Seq<TeamView>, id: i32, name: Seq<char>, flag: Option<Seq<char>>)
    ensures
        find_team(upserted(s, id, name, flag), id) matches Some(i) && upserted(s, id, name, flag)[i].name == name
            && (flag is Some ==> upserted(s, id, name, flag)[i].flag == flag),
{
    lemma_find_team(s, id);
    let u = upserted(s, id, name, flag);
    match find_team(s, id) {
        Some(i) => {
            assert forall|j: int| 0 <= j < i implies (#[trigger] u[j]).id != id by {
                assert(u[j] == s[j]);
            }
            lemma_find_team_first(u, id, i);
        },
        None => {
            assert forall|j: int| 0 <= j < s.len() implies (#[trigger] u[j]).id != id by {
                assert(u[j] == s[j]);
            }
            lemma_find_team_first(u, id, s.len() as int);
        },
    }
}

/// Alphabetical order of teams is total and transitive.
pub proof fn lemma_team_le_total_preorder()
    ensures
        total_preorder(team_le()),
{
    lemma_lex_le_total_preorder();
    assert forall|a: TeamView, b: TeamView| #[trigger] team_le()(a, b) || team_le()(b, a) by {
        assert(lex_le()(a.name, b.name) || lex_le()(b.name, a.name));
    }
    assert forall|a: TeamView, b: TeamView, c: TeamView| #[trigger] team_le()(a, b) && #[trigger] team_le()(b, c) implies team_le()(a, c) by {
        assert(lex_le()(a.name, b.name) && lex_le()(b.name, c.name));
    }
}

/// Every team of a list is real or a placeholder, and the real ones are
/// those kept by `real_teams`, in order.
proof fn lemma_real_teams(s: Seq<TeamView>)
    ensures
        forall|i: int| 0 <= i < real_teams(s).len() ==> !placeholder_of((#[trigger] real_teams(s)[i]).name),
    decreases s.len(),
{
    if s.len() > 0 {
        lemma_real_teams(s.drop_last());
        let t = real_teams(s.drop_last());
        if !placeholder_of(s.last().name) {
            assert forall|i: int| 0 <= i < real_teams(s).len() implies !placeholder_of((#[trigger] real_teams(s)[i]).name) by {
                if i < t.len() {
                    assert(real_teams(s)[i] == t[i]);
                }
            }
        }
    }
}

/// The picker list holds each real team once, no placeholder, sorted by
/// name.
pub proof fn lemma_dropdown_sorted(s: Seq<TeamView>)
    ensures
        sorted_by(sort_by(real_teams(s), team_le()), team_le()),
        sort_by(real_teams(s), team_le()).to_multiset() == real_teams(s).to_multiset(),
        forall|i: int| 0 <= i < sort_by(real_teams(s), team_le()).len()
            ==> !placeholder_of((#[trigger] sort_by(real_teams(s), team_le())[i]).name),
{
    lemma_team_le_total_preorder();
    lemma_sort_by(real_teams(s), team_le());
    lemma_real_teams(s);
    let r = sort_by(real_teams(s), team_le());
    assert forall|i: int| 0 <= i < r.len() implies !placeholder_of((#[trigger] r[i]).name) by {
        assert(r.to_multiset().count(r[i]) > 0);
        assert(real_teams(s).to_multiset().count(r[i]) > 0);
        assert(real_teams(s).contains(r[i]));
    }
}

} // verus!
