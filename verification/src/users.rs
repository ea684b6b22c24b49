//! The players, held in memory: lookups by login token and by id, the
//! per-league listings, and the edits an administrator or the player makes.
//!
//! A player's jersey is kept apart from the record; the latest choice
//! counts, and a player without one wears the "classic" jersey.

use vstd::prelude::*;

use crate::leaderboard::UserBasic;
use crate::order::{count_by, lemma_sort_by, sort_by, sorted_by, total_preorder};
use crate::store::{str_opt, string_opt};
use crate::util::{build_magic_link, magic_link_of};
use crate::text::{chars_eq, lemma_lex_lt_irreflexive, lemma_lex_lt_total, lemma_lex_lt_transitive, lex_lt, lowercase_of, owned, str_eq, str_less, to_lowercase};

verus! {

broadcast use vstd::seq_lib::group_seq_properties;

/// What the login needs to know of the player behind a token.
#[derive(Debug, Clone)]
pub struct UserAuth {
    pub id: u128,
    pub name: String,
    /// Private real first name, shown only to the player and to administrators.
    pub real_name: String,
    pub is_admin: bool,
    pub can_create_league: bool,
    pub phone_number: Option<String>,
    pub email: Option<String>,
    pub jersey_preset: String,
    pub language: String,
    pub league_id: u128,
}

/// The full record of a player.
#[derive(Debug, Clone)]
pub struct UserFull {
    pub id: u128,
    pub name: String,
    /// Private real first name.
    pub real_name: String,
    pub token: String,
    pub phone_number: Option<String>,
    pub email: Option<String>,
    pub is_admin: bool,
    pub can_create_league: bool,
    pub league_id: u128,
    pub language: String,
}

/// A line of the administrators' player list.
#[derive(Debug, Clone)]
pub struct AdminUserRow {
    pub id: u128,
    pub name: String,
    /// Private real first name, so an administrator sees who is behind a tip
    /// name.
    pub real_name: String,
    pub token: String,
    pub phone_number: Option<String>,
    pub email: Option<String>,
    pub is_admin: bool,
    pub can_create_league: bool,
}

/// A line of the administrators' player list as shown: the player's
/// login link, and whether it is the administrator's own line.
#[derive(Debug, Clone)]
pub struct AdminUserView {
    pub id: u128,
    pub name: String,
    pub magic_link: String,
    pub phone_number: Option<String>,
    pub email: Option<String>,
    pub is_admin: bool,
    pub can_create_league: bool,
    pub is_self: bool,
}

/// A player to register.
#[derive(Debug, Clone)]
pub struct NewUser<'a> {
    pub id: u128,
    pub name: &'a str,
    /// Private real first name; callers without one pass the tip name.
    pub real_name: &'a str,
    pub token: &'a str,
    pub is_admin: bool,
    pub phone_number: Option<&'a str>,
    pub email: Option<&'a str>,
    pub league_id: u128,
    pub language: &'a str,
}

/// Value of a player's record.
pub struct UserView {
    pub id: u128,
    pub name: Seq<char>,
    pub real_name: Seq<char>,
    pub token: Seq<char>,
    pub phone_number: Option<Seq<char>>,
    pub email: Option<Seq<char>>,
    pub is_admin: bool,
    pub can_create_league: bool,
    pub league_id: u128,
    pub language: Seq<char>,
}

impl View for UserFull {
    type V = UserView;

    open spec fn view(&self) -> UserView {
        UserView {
            id: self.id,
            name: self.name@,
            real_name: self.real_name@,
            token: self.token@,
            phone_number: string_opt(self.phone_number),
            email: string_opt(self.email),
            is_admin: self.is_admin,
            can_create_league: self.can_create_league,
            league_id: self.league_id,
            language: self.language@,
        }
    }
}

/// Values of player records.
pub open spec fn user_views(s: Seq<UserFull>) -> Seq<UserView> {
    s.map_values(|u: UserFull| u@)
}

/// Jersey choices `(player id, jersey key)`, as stored.
pub open spec fn jersey_views(s: Seq<(u128, String)>) -> Seq<(u128, Seq<char>)> {
    s.map_values(|p: (u128, String)| (p.0, p.1@))
}

/// The latest jersey chosen for a player, if any.
pub open spec fn latest_jersey(js: Seq<(u128, Seq<char>)>, id: u128) -> Option<Seq<char>>
    decreases js.len(),
{
    if js.len() == 0 {
        None
    } else if js.last().0 == id {
        Some(js.last().1)
    } else {
        latest_jersey(js.drop_last(), id)
    }
}

/// The jersey a player wears: the latest chosen, else "classic".
pub open spec fn jersey_worn(js: Seq<(u128, Seq<char>)>, id: u128) -> Seq<char> {
    match latest_jersey(js, id) {
        Some(j) => j,
        None => "classic"@,
    }
}

/// Index of the first player with that token.
pub open spec fn find_token(us: Seq<UserView>, token: Seq<char>) -> Option<int>
    decreases us.len(),
{
    if us.len() == 0 {
        None
    } else {
        match find_token(us.drop_last(), token) {
            Some(i) => Some(i),
            None => if us.last().token == token { Some(us.len() - 1) } else { None },
        }
    }
}

/// Index of the first player with that id.
pub open spec fn find_id(us: Seq<UserView>, id: u128) -> Option<int>
    decreases us.len(),
{
    if us.len() == 0 {
        None
    } else {
        match find_id(us.drop_last(), id) {
            Some(i) => Some(i),
            None => if us.last().id == id { Some(us.len() - 1) } else { None },
        }
    }
}

/// The players of a league, in order of registration.
pub open spec fn in_league(us: Seq<UserView>, league: u128) -> Seq<UserView>
    decreases us.len(),
{
    if us.len() == 0 {
        Seq::empty()
    } else {
        let r = in_league(us.drop_last(), league);
        if us.last().league_id == league { r.push(us.last()) } else { r }
    }
}

/// The players of a league that have an email address.
pub open spec fn reachable(us: Seq<UserView>, league: u128) -> Seq<UserView>
    decreases us.len(),
{
    if us.len() == 0 {
        Seq::empty()
    } else {
        let r = reachable(us.drop_last(), league);
        if us.last().league_id == league && us.last().email is Some { r.push(us.last()) } else { r }
    }
}

/// The players without that id.
pub open spec fn without_id(us: Seq<UserView>, id: u128) -> Seq<UserView>
    decreases us.len(),
{
    if us.len() == 0 {
        Seq::empty()
    } else {
        let r = without_id(us.drop_last(), id);
        if us.last().id != id { r.push(us.last()) } else { r }
    }
}

/// The jersey choices of other players.
pub open spec fn jerseys_without(js: Seq<(u128, Seq<char>)>, id: u128) -> Seq<(u128, Seq<char>)>
    decreases js.len(),
{
    if js.len() == 0 {
        Seq::empty()
    } else {
        let r = jerseys_without(js.drop_last(), id);
        if js.last().0 != id { r.push(js.last()) } else { r }
    }
}

/// Number of administrators.
pub open spec fn admin_count(us: Seq<UserView>) -> nat
    decreases us.len(),
{
    if us.len() == 0 {
        0
    } else {
        admin_count(us.drop_last()) + if us.last().is_admin { 1nat } else { 0nat }
    }
}

/// Administrators' list order: by name, by code point.
pub open spec fn name_le() -> spec_fn(UserView, UserView) -> bool {
    |a: UserView, b: UserView| !lex_lt(b.name, a.name)
}

/// The first player with that id changed by `f`; the list as it is when
/// there is none.
pub open spec fn update_first(us: Seq<UserView>, id: u128, f: spec_fn(UserView) -> UserView) -> Seq<UserView> {
    match find_id(us, id) {
        Some(k) => us.update(k, f(us[k])),
        None => us,
    }
}

/// The login view of a player: the record's fields, the jersey worn, and
/// the German interface.
pub open spec fn auth_of(a: UserAuth, u: UserView, js: Seq<(u128, Seq<char>)>) -> bool {
    &&& a.id == u.id
    &&& a.name@ == u.name
    &&& a.real_name@ == u.real_name
    &&& a.is_admin == u.is_admin
    &&& a.can_create_league == u.can_create_league
    &&& string_opt(a.phone_number) == u.phone_number
    &&& string_opt(a.email) == u.email
    &&& a.jersey_preset@ == jersey_worn(js, u.id)
    &&& a.language@ == "de"@
    &&& a.league_id == u.league_id
}

/// An administrators' list line shows the record's fields.
pub open spec fn row_of(r: AdminUserRow, u: UserView) -> bool {
    &&& r.id == u.id
    &&& r.name@ == u.name
    &&& r.real_name@ == u.real_name
    &&& r.token@ == u.token
    &&& string_opt(r.phone_number) == u.phone_number
    &&& string_opt(r.email) == u.email
    &&& r.is_admin == u.is_admin
    &&& r.can_create_league == u.can_create_league
}

/// The record a registration creates: no league-creation right.
pub open spec fn created(n: NewUser) -> UserView {
    UserView {
        id: n.id,
        name: n.name@,
        real_name: n.real_name@,
        token: n.token@,
        phone_number: str_opt(n.phone_number),
        email: str_opt(n.email),
        is_admin: n.is_admin,
        can_create_league: false,
        league_id: n.league_id,
        language: n.language@,
    }
}

/// Why the store refused a write.
#[derive(Debug, Clone, Copy, PartialEq, Eq, Structural)]
pub enum RepoError {
    /// The id or login token is taken, or the tip name is taken in the
    /// league (ignoring case).
    Conflict,
}

/// Two tip names are the same when they agree ignoring case.
pub open spec fn same_name(a: Seq<char>, b: Seq<char>) -> bool {
    lowercase_of(a) == lowercase_of(b)
}

/// Whether a player of the league other than `except` uses the tip name.
pub open spec fn name_taken(us: Seq<UserView>, league: u128, name: Seq<char>, except: Option<u128>) -> bool {
    exists|j: int| 0 <= j < us.len() && (#[trigger] us[j]).league_id == league && same_name(us[j].name, name)
        && except != Some(us[j].id)
}

/// A registration collides with a record: same id, same token, or the same
/// tip name in the same league.
pub open spec fn collides(u: UserView, n: NewUser) -> bool {
    ||| u.id == n.id
    ||| u.token == n.token@
    ||| (u.league_id == n.league_id && same_name(u.name, n.name@))
}

/// Whether a registration collides with any player.
pub open spec fn create_conflict(us: Seq<UserView>, n: NewUser) -> bool {
    exists|j: int| 0 <= j < us.len() && collides(#[trigger] us[j], n)
}

/// Whether renaming the player would take the tip name of another player of
/// the same league.
pub open spec fn rename_conflict(us: Seq<UserView>, id: u128, name: Seq<char>) -> bool {
    match find_id(us, id) {
        Some(k) => name_taken(us, us[k].league_id, name, Some(id)),
        None => false,
    }
}

fn copy_opt(s: &Option<String>) -> (c: Option<String>)
    ensures
        c == *s,
{
    match s {
        Some(x) => Some(x.clone()),
        None => None,
    }
}

fn owned_opt(s: Option<&str>) -> (c: Option<String>)
    ensures
        string_opt(c) == str_opt(s),
{
    match s {
        Some(x) => Some(owned(x)),
        None => None,
    }
}

fn copy_user(u: &UserFull) -> (c: UserFull)
    ensures
        c == *u,
{
    UserFull {
        id: u.id,
        name: u.name.clone(),
        real_name: u.real_name.clone(),
        token: u.token.clone(),
        phone_number: copy_opt(&u.phone_number),
        email: copy_opt(&u.email),
        is_admin: u.is_admin,
        can_create_league: u.can_create_league,
        league_id: u.league_id,
        language: u.language.clone(),
    }
}

/// How the administrators' list shows a line to the administrator `admin_id`.
pub fn admin_user_view(row: AdminUserRow, admin_id: u128, base_url: &str) -> (v: AdminUserView)
    ensures
        v.id == row.id,
        v.name == row.name,
        v.magic_link@ == magic_link_of(row.token@, base_url@),
        v.phone_number == row.phone_number,
        v.email == row.email,
        v.is_admin == row.is_admin,
        v.can_create_league == row.can_create_league,
        v.is_self == (row.id == admin_id),
{
    let magic_link = build_magic_link(row.token.as_str(), base_url);
    AdminUserView {
        id: row.id,
        name: row.name,
        magic_link,
        phone_number: row.phone_number,
        email: row.email,
        is_admin: row.is_admin,
        can_create_league: row.can_create_league,
        is_self: row.id == admin_id,
    }
}

/// The players, held in memory.
pub struct MemoryUserRepo {
    users: Vec<UserFull>,
    jerseys: Vec<(u128, String)>,
}

impl MemoryUserRepo {
    /// The players' records, in order of registration.
    pub closed spec fn users(&self) -> Seq<UserView> {
        user_views(self.users@)
    }

    /// The jersey choices, oldest first.
    pub closed spec fn jerseys(&self) -> Seq<(u128, Seq<char>)> {
        jersey_views(self.jerseys@)
    }

    /// No players.
    pub fn new() -> (r: Self)
        ensures
            r.users() == Seq::<UserView>::empty(),
            r.jerseys() == Seq::<(u128, Seq<char>)>::empty(),
    {
        let r = MemoryUserRepo { users: Vec::new(), jerseys: Vec::new() };
        assert(user_views(r.users@) =~= Seq::<UserView>::empty());
        assert(jersey_views(r.jerseys@) =~= Seq::<(u128, Seq<char>)>::empty());
        r
    }

    /// Adds a player record as it is, wearing `jersey`.
    pub fn seed(&mut self, user: UserFull, jersey: &str)
        ensures
            final(self).users() == old(self).users().push(user@),
            final(self).jerseys() == old(self).jerseys().push((user.id, jersey@)),
    {
        self.jerseys.push((user.id, owned(jersey)));
        self.users.push(user);
        assert(user_views(self.users@) =~= user_views(old(self).users@).push(user@));
        assert(jersey_views(self.jerseys@) =~= jersey_views(old(self).jerseys@).push((user.id, jersey@)));
    }

    /// Index of the first player with that token.
    fn index_of_token(&self, token: &str) -> (r: Option<usize>)
        ensures
            match r {
                Some(i) => i < self.users@.len() && find_token(self.users(), token@) == Some(i as int),
                None => find_token(self.users(), token@) is None,
            },
    {
        let ghost us = self.users();
        let mut i: usize = 0;
        while i < self.users.len()
            invariant
                i <= self.users@.len(),
                us == self.users(),
                us.len() == self.users@.len(),
                find_token(us.take(i as int), token@) is None,
            decreases self.users@.len() - i,
        {
            assert(us.take(i as int + 1).drop_last() =~= us.take(i as int));
            if str_eq(self.users[i].token.as_str(), token) {
                proof { lemma_find_token_extend(us, token@, i as int); }
                return Some(i);
            }
            i = i + 1;
        }
        assert(us.take(i as int) =~= us);
        None
    }

    /// Index of the first player with that id.
    fn index_of_id(&self, id: u128) -> (r: Option<usize>)
        ensures
            match r {
                Some(i) => i < self.users@.len() && find_id(self.users(), id) == Some(i as int),
                None => find_id(self.users(), id) is None,
            },
    {
        let ghost us = self.users();
        let mut i: usize = 0;
        while i < self.users.len()
            invariant
                i <= self.users@.len(),
                us == self.users(),
                us.len() == self.users@.len(),
                find_id(us.take(i as int), id) is None,
            decreases self.users@.len() - i,
        {
            assert(us.take(i as int + 1).drop_last() =~= us.take(i as int));
            if self.users[i].id == id {
                proof { lemma_find_id_extend(us, id, i as int); }
                return Some(i);
            }
            i = i + 1;
        }
        assert(us.take(i as int) =~= us);
        None
    }

    /// The jersey a player wears.
    fn jersey_for(&self, id: u128) -> (j: String)
        ensures
            j@ == jersey_worn(self.jerseys(), id),
    {
        let ghost js = self.jerseys();
        let mut i: usize = self.jerseys.len();
        while i > 0
            invariant
                i <= self.jerseys@.len(),
                js == self.jerseys(),
                js.len() == self.jerseys@.len(),
                latest_jersey(js, id) == latest_jersey(js.take(i as int), id),
            decreases i,
        {
            let ghost t = js.take(i as int);
            assert(t.drop_last() =~= js.take(i as int - 1));
            assert(t.last() == (self.jerseys@[i - 1].0, self.jerseys@[i - 1].1@));
            if self.jerseys[i - 1].0 == id {
                return self.jerseys[i - 1].1.clone();
            }
            i = i - 1;
        }
        owned("classic")
    }

    /// The login view of the player with that token.
    pub fn find_by_token(&self, token: &str) -> (r: Option<UserAuth>)
        ensures
            r is Some <==> find_token(self.users(), token@) is Some,
            r matches Some(a) ==> auth_of(a, self.users()[find_token(self.users(), token@).unwrap()], self.jerseys()),
    {
        match self.index_of_token(token) {
            Some(i) => {
                let u = &self.users[i];
                Some(UserAuth {
                    id: u.id,
                    name: u.name.clone(),
                    real_name: u.real_name.clone(),
                    is_admin: u.is_admin,
                    can_create_league: u.can_create_league,
                    phone_number: copy_opt(&u.phone_number),
                    email: copy_opt(&u.email),
                    jersey_preset: self.jersey_for(u.id),
                    language: owned("de"),
                    league_id: u.league_id,
                })
            },
            None => None,
        }
    }

    /// The full record of the player with that id.
    pub fn find_full_by_id(&self, id: u128) -> (r: Option<UserFull>)
        ensures
            r is Some <==> find_id(self.users(), id) is Some,
            r matches Some(u) ==> u@ == self.users()[find_id(self.users(), id).unwrap()],
    {
        match self.index_of_id(id) {
            Some(i) => Some(copy_user(&self.users[i])),
            None => None,
        }
    }

    /// Number of players, over all leagues.
    pub fn count(&self) -> (n: i64)
        requires
            self.users().len() <= i64::MAX,
        ensures
            n == self.users().len(),
    {
        self.users.len() as i64
    }

    /// Number of administrators, over all leagues.
    pub fn count_admins(&self) -> (n: i64)
        requires
            self.users().len() <= i64::MAX,
        ensures
            n == admin_count(self.users()),
    {
        let ghost us = self.users();
        let mut n: i64 = 0;
        let mut i: usize = 0;
        while i < self.users.len()
            invariant
                i <= self.users@.len(),
                us == self.users(),
                us.len() == self.users@.len(),
                us.len() <= i64::MAX,
                n == admin_count(us.take(i as int)),
                n <= i,
            decreases self.users@.len() - i,
        {
            assert(us.take(i as int + 1).drop_last() =~= us.take(i as int));
            if self.users[i].is_admin {
                n = n + 1;
            }
            i = i + 1;
        }
        assert(us.take(i as int) =~= us);
        n
    }

    /// The players of a league, in order of registration.
    fn league_members(&self, league_id: u128) -> (out: Vec<UserFull>)
        ensures
            user_views(out@) == in_league(self.users(), league_id),
    {
        let ghost us = self.users();
        let mut out: Vec<UserFull> = Vec::new();
        let mut i: usize = 0;
        while i < self.users.len()
            invariant
                i <= self.users@.len(),
                us == self.users(),
                us.len() == self.users@.len(),
                user_views(out@) == in_league(us.take(i as int), league_id),
            decreases self.users@.len() - i,
        {
            assert(us.take(i as int + 1).drop_last() =~= us.take(i as int));
            if self.users[i].league_id == league_id {
                let ghost before = out@;
                out.push(copy_user(&self.users[i]));
                assert(user_views(out@) =~= user_views(before).push(us[i as int]));
            }
            i = i + 1;
        }
        assert(us.take(i as int) =~= us);
        out
    }

    /// The league's players for the administrators, sorted by name.
    pub fn list_for_admin(&self, league_id: u128) -> (rows: Vec<AdminUserRow>)
        ensures
            rows@.len() == in_league(self.users(), league_id).len(),
            forall|i: int| 0 <= i < rows@.len()
                ==> row_of(#[trigger] rows@[i], sort_by(in_league(self.users(), league_id), name_le())[i]),
    {
        let members = self.league_members(league_id);
        let ghost ms = user_views(members@);
        let mut sorted: Vec<UserFull> = Vec::new();
        let mut j: usize = 0;
        while j < members.len()
            invariant
                j <= members@.len(),
                ms == user_views(members@),
                ms.len() == members@.len(),
                user_views(sorted@) == sort_by(ms.take(j as int), name_le()),
            decreases members@.len() - j,
        {
            assert(ms.take(j as int + 1).drop_last() =~= ms.take(j as int));
            let ghost vs = user_views(sorted@);
            let mut cnt: usize = 0;
            let mut k: usize = 0;
            while k < sorted.len()
                invariant
                    k <= sorted@.len(),
                    j < members@.len(),
                    vs == user_views(sorted@),
                    vs.len() == sorted@.len(),
                    ms == user_views(members@),
                    cnt <= k,
                    cnt == count_by(vs.take(k as int), ms[j as int], name_le()),
                decreases sorted@.len() - k,
            {
                assert(vs.take(k as int + 1).drop_last() =~= vs.take(k as int));
                if !str_less(members[j].name.as_str(), sorted[k].name.as_str()) {
                    cnt = cnt + 1;
                }
                k = k + 1;
            }
            assert(vs.take(k as int) =~= vs);
            sorted.insert(cnt, copy_user(&members[j]));
            assert(user_views(sorted@) =~= vs.insert(cnt as int, ms[j as int]));
            j = j + 1;
        }
        assert(ms.take(j as int) =~= ms);
        proof {
            lemma_name_le_total_preorder();
            lemma_sort_by(ms, name_le());
        }
        let ghost ss = user_views(sorted@);
        let mut rows: Vec<AdminUserRow> = Vec::new();
        let mut i: usize = 0;
        while i < sorted.len()
            invariant
                i <= sorted@.len(),
                ss == user_views(sorted@),
                rows@.len() == i,
                forall|q: int| 0 <= q < i ==> row_of(#[trigger] rows@[q], ss[q]),
            decreases sorted@.len() - i,
        {
            let u = &sorted[i];
            rows.push(AdminUserRow {
                id: u.id,
                name: u.name.clone(),
                real_name: u.real_name.clone(),
                token: u.token.clone(),
                phone_number: copy_opt(&u.phone_number),
                email: copy_opt(&u.email),
                is_admin: u.is_admin,
                can_create_league: u.can_create_league,
            });
            i = i + 1;
        }
        rows
    }

    /// The league's players with the jersey each wears, in order of
    /// registration.
    pub fn list_basic(&self, league_id: u128) -> (out: Vec<UserBasic>)
        ensures
            out@.len() == in_league(self.users(), league_id).len(),
            forall|i: int| 0 <= i < out@.len() ==> {
                let u = #[trigger] in_league(self.users(), league_id)[i];
                &&& out@[i].id == u.id
                &&& out@[i].name@ == u.name
                &&& out@[i].jersey_preset@ == jersey_worn(self.jerseys(), u.id)
            },
    {
        let members = self.league_members(league_id);
        let ghost ms = user_views(members@);
        let mut out: Vec<UserBasic> = Vec::new();
        let mut i: usize = 0;
        while i < members.len()
            invariant
                i <= members@.len(),
                ms == user_views(members@),
                ms == in_league(self.users(), league_id),
                out@.len() == i,
                forall|q: int| 0 <= q < i ==> {
                    &&& (#[trigger] out@[q]).id == ms[q].id
                    &&& out@[q].name@ == ms[q].name
                    &&& out@[q].jersey_preset@ == jersey_worn(self.jerseys(), ms[q].id)
                },
            decreases members@.len() - i,
        {
            let u = &members[i];
            out.push(UserBasic { id: u.id, name: u.name.clone(), jersey_preset: self.jersey_for(u.id) });
            i = i + 1;
        }
        out
    }

    /// The ids of the league's players, in order of registration.
    pub fn list_ids(&self, league_id: u128) -> (ids: Vec<u128>)
        ensures
            ids@ == in_league(self.users(), league_id).map_values(|u: UserView| u.id),
    {
        let members = self.league_members(league_id);
        let ghost ms = user_views(members@);
        let mut ids: Vec<u128> = Vec::new();
        let mut i: usize = 0;
        while i < members.len()
            invariant
                i <= members@.len(),
                ms == user_views(members@),
                ids@ == ms.take(i as int).map_values(|u: UserView| u.id),
            decreases members@.len() - i,
        {
            ids.push(members[i].id);
            assert(ms.take(i as int + 1) =~= ms.take(i as int).push(ms[i as int]));
            assert(ids@ =~= ms.take(i as int + 1).map_values(|u: UserView| u.id));
            i = i + 1;
        }
        assert(ms.take(i as int) =~= ms);
        ids
    }

    /// The ids of all players, over all leagues.
    pub fn list_all_ids(&self) -> (ids: Vec<u128>)
        ensures
            ids@ == self.users().map_values(|u: UserView| u.id),
    {
        let ghost us = self.users();
        let mut ids: Vec<u128> = Vec::new();
        let mut i: usize = 0;
        while i < self.users.len()
            invariant
                i <= self.users@.len(),
                us == self.users(),
                us.len() == self.users@.len(),
                ids@ == us.take(i as int).map_values(|u: UserView| u.id),
            decreases self.users@.len() - i,
        {
            ids.push(self.users[i].id);
            assert(us.take(i as int + 1) =~= us.take(i as int).push(us[i as int]));
            assert(ids@ =~= us.take(i as int + 1).map_values(|u: UserView| u.id));
            i = i + 1;
        }
        assert(us.take(i as int) =~= us);
        ids
    }

    /// Whether a player of the league other than `except` uses the tip
    /// name, ignoring case.
    fn name_in_use(&self, league_id: u128, name: &str, except: Option<u128>) -> (b: bool)
        ensures
            b == name_taken(self.users(), league_id, name@, except),
    {
        let ghost us = self.users();
        let wanted = to_lowercase(name);
        let mut i: usize = 0;
        while i < self.users.len()
            invariant
                i <= self.users@.len(),
                us == self.users(),
                us.len() == self.users@.len(),
                wanted@ == lowercase_of(name@),
                forall|j: int| 0 <= j < i ==> !((#[trigger] us[j]).league_id == league_id && same_name(us[j].name, name@)
                    && except != Some(us[j].id)),
            decreases self.users@.len() - i,
        {
            let u = &self.users[i];
            assert(us[i as int] == u@);
            if u.league_id == league_id && except != Some(u.id) {
                let lc = to_lowercase(u.name.as_str());
                if chars_eq(&lc, &wanted) {
                    return true;
                }
            }
            i = i + 1;
        }
        false
    }

    /// Whether a player of the league already uses the tip name, ignoring
    /// case.
    pub fn name_exists(&self, league_id: u128, name: &str) -> (b: bool)
        ensures
            b == name_taken(self.users(), league_id, name@, None),
    {
        self.name_in_use(league_id, name, None)
    }

    /// Registers a player, wearing the "classic" jersey. A registration
    /// whose id or token is taken, or whose tip name is taken in the league
    /// (ignoring case), is refused with a conflict and changes nothing.
    pub fn create(&mut self, new_user: NewUser<'_>) -> (r: Result<(), RepoError>)
        ensures
            r is Err <==> create_conflict(old(self).users(), new_user),
            r matches Err(e) ==> e == RepoError::Conflict
                && final(self).users() == old(self).users()
                && final(self).jerseys() == old(self).jerseys(),
            r is Ok ==> final(self).users() == old(self).users().push(created(new_user))
                && final(self).jerseys() == old(self).jerseys().push((new_user.id, "classic"@)),
    {
        let ghost us = self.users();
        let wanted = to_lowercase(new_user.name);
        let mut i: usize = 0;
        while i < self.users.len()
            invariant
                i <= self.users@.len(),
                us == self.users(),
                us.len() == self.users@.len(),
                wanted@ == lowercase_of(new_user.name@),
                forall|j: int| 0 <= j < i ==> !collides(#[trigger] us[j], new_user),
            decreases self.users@.len() - i,
        {
            let u = &self.users[i];
            assert(us[i as int] == u@);
            if u.id == new_user.id || str_eq(u.token.as_str(), new_user.token) {
                assert(collides(us[i as int], new_user));
                return Err(RepoError::Conflict);
            }
            if u.league_id == new_user.league_id {
                let lc = to_lowercase(u.name.as_str());
                if chars_eq(&lc, &wanted) {
                    assert(collides(us[i as int], new_user));
                    return Err(RepoError::Conflict);
                }
            }
            i = i + 1;
        }
        self.jerseys.push((new_user.id, owned("classic")));
        self.users.push(UserFull {
            id: new_user.id,
            name: owned(new_user.name),
            real_name: owned(new_user.real_name),
            token: owned(new_user.token),
            phone_number: owned_opt(new_user.phone_number),
            email: owned_opt(new_user.email),
            is_admin: new_user.is_admin,
            can_create_league: false,
            league_id: new_user.league_id,
            language: owned(new_user.language),
        });
        assert(user_views(self.users@) =~= user_views(old(self).users@).push(created(new_user)));
        assert(jersey_views(self.jerseys@) =~= jersey_views(old(self).jerseys@).push((new_user.id, "classic"@)));
        Ok(())
    }

    /// Removes every record and jersey choice of the player.
    pub fn delete(&mut self, id: u128)
        ensures
            final(self).users() == without_id(old(self).users(), id),
            final(self).jerseys() == jerseys_without(old(self).jerseys(), id),
    {
        let ghost us = self.users();
        let ghost js = self.jerseys();
        let mut users: Vec<UserFull> = Vec::new();
        let mut i: usize = 0;
        while i < self.users.len()
            invariant
                i <= self.users@.len(),
                us == self.users(),
                us.len() == self.users@.len(),
                user_views(users@) == without_id(us.take(i as int), id),
            decreases self.users@.len() - i,
        {
            assert(us.take(i as int + 1).drop_last() =~= us.take(i as int));
            if self.users[i].id != id {
                let ghost before = users@;
                users.push(copy_user(&self.users[i]));
                assert(user_views(users@) =~= user_views(before).push(us[i as int]));
            }
            i = i + 1;
        }
        assert(us.take(i as int) =~= us);
        let mut jerseys: Vec<(u128, String)> = Vec::new();
        let mut k: usize = 0;
        while k < self.jerseys.len()
            invariant
                k <= self.jerseys@.len(),
                js == self.jerseys(),
                js.len() == self.jerseys@.len(),
                jersey_views(jerseys@) == jerseys_without(js.take(k as int), id),
            decreases self.jerseys@.len() - k,
        {
            assert(js.take(k as int + 1).drop_last() =~= js.take(k as int));
            if self.jerseys[k].0 != id {
                let ghost before = jerseys@;
                jerseys.push((self.jerseys[k].0, self.jerseys[k].1.clone()));
                assert(jersey_views(jerseys@) =~= jersey_views(before).push(js[k as int]));
            }
            k = k + 1;
        }
        assert(js.take(k as int) =~= js);
        self.users = users;
        self.jerseys = jerseys;
    }

    /// Grants or revokes the administrator flag of the player.
    pub fn set_admin(&mut self, id: u128, is_admin: bool)
        ensures
            final(self).users() == update_first(old(self).users(), id, |u: UserView| UserView { is_admin, ..u }),
            final(self).jerseys() == old(self).jerseys(),
    {
        if let Some(i) = self.index_of_id(id) {
            let mut u = copy_user(&self.users[i]);
            u.is_admin = is_admin;
            self.users.set(i, u);
            assert(user_views(self.users@) =~= user_views(old(self).users@).update(i as int, u@));
        }
    }

    /// Grants or revokes the player's right to create leagues.
    pub fn set_can_create_league(&mut self, id: u128, can: bool)
        ensures
            final(self).users() == update_first(old(self).users(), id, |u: UserView| UserView { can_create_league: can, ..u }),
            final(self).jerseys() == old(self).jerseys(),
    {
        if let Some(i) = self.index_of_id(id) {
            let mut u = copy_user(&self.users[i]);
            u.can_create_league = can;
            self.users.set(i, u);
            assert(user_views(self.users@) =~= user_views(old(self).users@).update(i as int, u@));
        }
    }

    /// Changes the player's tip name. A name another player of the same
    /// league uses (ignoring case) is refused with a conflict and changes
    /// nothing; an unknown id changes nothing.
    pub fn rename(&mut self, id: u128, name: &str) -> (r: Result<(), RepoError>)
        ensures
            r is Err <==> rename_conflict(old(self).users(), id, name@),
            r matches Err(e) ==> e == RepoError::Conflict && final(self).users() == old(self).users(),
            r is Ok ==> final(self).users() == update_first(old(self).users(), id, |u: UserView| UserView { name: name@, ..u }),
            final(self).jerseys() == old(self).jerseys(),
    {
        if let Some(i) = self.index_of_id(id) {
            let league_id = self.users[i].league_id;
            if self.name_in_use(league_id, name, Some(id)) {
                return Err(RepoError::Conflict);
            }
            let mut u = copy_user(&self.users[i]);
            u.name = owned(name);
            self.users.set(i, u);
            assert(user_views(self.users@) =~= user_views(old(self).users@).update(i as int, u@));
        }
        Ok(())
    }

    /// Changes the player's private real name; several players may share
    /// one.
    pub fn set_real_name(&mut self, id: u128, real_name: &str)
        ensures
            final(self).users() == update_first(old(self).users(), id, |u: UserView| UserView { real_name: real_name@, ..u }),
            final(self).jerseys() == old(self).jerseys(),
    {
        if let Some(i) = self.index_of_id(id) {
            let mut u = copy_user(&self.users[i]);
            u.real_name = owned(real_name);
            self.users.set(i, u);
            assert(user_views(self.users@) =~= user_views(old(self).users@).update(i as int, u@));
        }
    }

    /// Records the player's jersey choice.
    pub fn set_jersey(&mut self, id: u128, preset: &str)
        ensures
            final(self).users() == old(self).users(),
            final(self).jerseys() == old(self).jerseys().push((id, preset@)),
    {
        self.jerseys.push((id, owned(preset)));
        assert(jersey_views(self.jerseys@) =~= jersey_views(old(self).jerseys@).push((id, preset@)));
    }

    /// The language is not kept in memory: nothing changes.
    pub fn set_language(&mut self, id: u128, language: &str)
        ensures
            final(self).users() == old(self).users(),
            final(self).jerseys() == old(self).jerseys(),
    {
    }

    /// Sets or clears the player's email address.
    pub fn set_email(&mut self, id: u128, email: Option<&str>)
        ensures
            final(self).users() == update_first(old(self).users(), id, |u: UserView| UserView { email: str_opt(email), ..u }),
            final(self).jerseys() == old(self).jerseys(),
    {
        if let Some(i) = self.index_of_id(id) {
            let mut u = copy_user(&self.users[i]);
            u.email = owned_opt(email);
            self.users.set(i, u);
            assert(user_views(self.users@) =~= user_views(old(self).users@).update(i as int, u@));
        }
    }

    /// The league's players with an email address, as `(id, name, email,
    /// token)`, in order of registration.
    fn reachable_players(&self, league_id: u128) -> (out: Vec<(u128, String, String, String)>)
        ensures
            out@.len() == reachable(self.users(), league_id).len(),
            forall|i: int| 0 <= i < out@.len() ==> {
                let u = #[trigger] reachable(self.users(), league_id)[i];
                &&& out@[i].0 == u.id
                &&& out@[i].1@ == u.name
                &&& u.email == Some(out@[i].2@)
                &&& out@[i].3@ == u.token
            },
    {
        let ghost us = self.users();
        let mut out: Vec<(u128, String, String, String)> = Vec::new();
        let mut i: usize = 0;
        while i < self.users.len()
            invariant
                i <= self.users@.len(),
                us == self.users(),
                us.len() == self.users@.len(),
                out@.len() == reachable(us.take(i as int), league_id).len(),
                forall|q: int| 0 <= q < out@.len() ==> {
                    let u = #[trigger] reachable(us.take(i as int), league_id)[q];
                    &&& out@[q].0 == u.id
                    &&& out@[q].1@ == u.name
                    &&& u.email == Some(out@[q].2@)
                    &&& out@[q].3@ == u.token
                },
            decreases self.users@.len() - i,
        {
            let ghost prev = reachable(us.take(i as int), league_id);
            assert(us.take(i as int + 1).drop_last() =~= us.take(i as int));
            let u = &self.users[i];
            match &u.email {
                Some(e) => {
                    if u.league_id == league_id {
                        out.push((u.id, u.name.clone(), e.clone(), u.token.clone()));
                        assert(reachable(us.take(i as int + 1), league_id) == prev.push(us[i as int]));
                        assert forall|q: int| 0 <= q < out@.len() implies {
                            let w = #[trigger] reachable(us.take(i as int + 1), league_id)[q];
                            &&& out@[q].0 == w.id
                            &&& out@[q].1@ == w.name
                            &&& w.email == Some(out@[q].2@)
                            &&& out@[q].3@ == w.token
                        } by {
                            if q < prev.len() {
                                assert(reachable(us.take(i as int + 1), league_id)[q] == prev[q]);
                            }
                        }
                    }
                },
                None => {},
            }
            i = i + 1;
        }
        assert(us.take(i as int) =~= us);
        out
    }

    /// The league's players who can be reminded by email of a match. The
    /// tips are not kept here: every player with an address is listed.
    pub fn users_missing_prediction_with_email(&self, league_id: u128, match_id: i32) -> (out: Vec<(u128, String, String, String)>)
        ensures
            out@.len() == reachable(self.users(), league_id).len(),
            forall|i: int| 0 <= i < out@.len() ==> {
                let u = #[trigger] reachable(self.users(), league_id)[i];
                &&& out@[i].0 == u.id
                &&& out@[i].1@ == u.name
                &&& u.email == Some(out@[i].2@)
                &&& out@[i].3@ == u.token
            },
    {
        self.reachable_players(league_id)
    }

    /// The league's players who can be reminded by email of the champion
    /// pick. The picks are not kept here: every player with an address is
    /// listed.
    pub fn users_missing_champion_with_email(&self, league_id: u128) -> (out: Vec<(u128, String, String, String)>)
        ensures
            out@.len() == reachable(self.users(), league_id).len(),
            forall|i: int| 0 <= i < out@.len() ==> {
                let u = #[trigger] reachable(self.users(), league_id)[i];
                &&& out@[i].0 == u.id
                &&& out@[i].1@ == u.name
                &&& u.email == Some(out@[i].2@)
                &&& out@[i].3@ == u.token
            },
    {
        self.reachable_players(league_id)
    }
}

/// The administrators' list order is total and transitive.
pub proof fn lemma_name_le_total_preorder()
    ensures
        total_preorder(name_le()),
{
    assert forall|a: UserView, b: UserView| #[trigger] name_le()(a, b) || name_le()(b, a) by {
        lemma_lex_lt_total(a.name, b.name);
    }
    assert forall|a: UserView, b: UserView, c: UserView| #[trigger] name_le()(a, b) && #[trigger] name_le()(b, c) implies name_le()(a, c) by {
        lemma_lex_lt_total(a.name, b.name);
        lemma_lex_lt_total(b.name, c.name);
        lemma_lex_lt_total(a.name, c.name);
        if lex_lt(c.name, a.name) && lex_lt(a.name, b.name) {
            lemma_lex_lt_transitive(c.name, a.name, b.name);
        }
        if lex_lt(b.name, c.name) && lex_lt(c.name, a.name) {
            lemma_lex_lt_transitive(b.name, c.name, a.name);
        }
        lemma_lex_lt_irreflexive(a.name);
    }
}

/// After a rename, looking the player up by id finds the new name, and the
/// record keeps its place.
pub proof fn lemma_rename_then_found(us: Seq<UserView>, id: u128, name: Seq<char>)
    requires
        find_id(us, id) is Some,
    ensures
        find_id(update_first(us, id, |u: UserView| UserView { name: name, ..u }), id) == find_id(us, id),
        update_first(us, id, |u: UserView| UserView { name: name, ..u })[find_id(us, id).unwrap()].name == name,
{
    let k = find_id(us, id).unwrap();
    lemma_find_id_facts(us, id);
    let r = update_first(us, id, |u: UserView| UserView { name: name, ..u });
    lemma_find_id_first(r, id, k);
}

/// Once a player is registered, a registration with the same id, the same
/// token, or the same tip name in the league (ignoring case) is refused.
pub proof fn lemma_create_then_conflict(us: Seq<UserView>, n: NewUser, m: NewUser)
    requires
        collides(created(n), m),
    ensures
        create_conflict(us.push(created(n)), m),
{
    assert(us.push(created(n))[us.len() as int] == created(n));
}

/// Changing one record moves the administrator count by that record's flag
/// alone.
pub proof fn lemma_admin_count_update(us: Seq<UserView>, k: int, v: UserView)
    requires
        0 <= k < us.len(),
    ensures
        admin_count(us.update(k, v)) + (if us[k].is_admin { 1int } else { 0int })
            == admin_count(us) + (if v.is_admin { 1int } else { 0int }),
    decreases us.len(),
{
    if k < us.len() - 1 {
        lemma_admin_count_update(us.drop_last(), k, v);
        assert(us.update(k, v).drop_last() =~= us.drop_last().update(k, v));
    } else {
        assert(us.update(k, v).drop_last() =~= us.drop_last());
    }
}

/// After a delete, the player is gone and wears no chosen jersey.
pub proof fn lemma_delete_then_absent(us: Seq<UserView>, js: Seq<(u128, Seq<char>)>, id: u128)
    ensures
        find_id(without_id(us, id), id) is None,
        latest_jersey(jerseys_without(js, id), id) is None,
        jersey_worn(jerseys_without(js, id), id) == "classic"@,
{
    lemma_without_id(us, id);
    lemma_find_id_facts(without_id(us, id), id);
    lemma_jerseys_without(js, id);
}

proof fn lemma_without_id(us: Seq<UserView>, id: u128)
    ensures
        forall|j: int| 0 <= j < without_id(us, id).len() ==> (#[trigger] without_id(us, id)[j]).id != id,
    decreases us.len(),
{
    if us.len() > 0 {
        lemma_without_id(us.drop_last(), id);
    }
}

proof fn lemma_jerseys_without(js: Seq<(u128, Seq<char>)>, id: u128)
    ensures
        latest_jersey(jerseys_without(js, id), id) is None,
    decreases js.len(),
{
    if js.len() > 0 {
        lemma_jerseys_without(js.drop_last(), id);
        let r = jerseys_without(js.drop_last(), id);
        assert(r.push(js.last()).drop_last() =~= r);
    }
}

/// The jersey just chosen is the one worn; other players' jerseys stay.
pub proof fn lemma_jersey_read_after_write(js: Seq<(u128, Seq<char>)>, id: u128, preset: Seq<char>, other: u128)
    ensures
        jersey_worn(js.push((id, preset)), id) == preset,
        other != id ==> jersey_worn(js.push((id, preset)), other) == jersey_worn(js, other),
{
    assert(js.push((id, preset)).drop_last() =~= js);
}

/// The administrators' list holds exactly the league's players, sorted by
/// name.
pub proof fn lemma_admin_list_sorted(us: Seq<UserView>, league: u128)
    ensures
        sorted_by(sort_by(in_league(us, league), name_le()), name_le()),
        sort_by(in_league(us, league), name_le()).to_multiset() == in_league(us, league).to_multiset(),
        forall|i: int| 0 <= i < in_league(us, league).len() ==> (#[trigger] in_league(us, league)[i]).league_id == league,
{
    lemma_name_le_total_preorder();
    lemma_sort_by(in_league(us, league), name_le());
    lemma_in_league(us, league);
}

proof fn lemma_in_league(us: Seq<UserView>, league: u128)
    ensures
        forall|i: int| 0 <= i < in_league(us, league).len() ==> (#[trigger] in_league(us, league)[i]).league_id == league,
    decreases us.len(),
{
    if us.len() > 0 {
        lemma_in_league(us.drop_last(), league);
    }
}

/// The first index with an id is in range, holds the id, and no earlier
/// record has it.
pub proof fn lemma_find_id_facts(us: Seq<UserView>, id: u128)
    ensures
        find_id(us, id) matches Some(k) ==> 0 <= k < us.len() && us[k].id == id
            && forall|j: int| 0 <= j < k ==> (#[trigger] us[j]).id != id,
        find_id(us, id) is None ==> forall|j: int| 0 <= j < us.len() ==> (#[trigger] us[j]).id != id,
    decreases us.len(),
{
    if us.len() > 0 {
        let init = us.drop_last();
        lemma_find_id_facts(init, id);
        assert forall|j: int| 0 <= j < init.len() implies init[j] == us[j] by {}
        if find_id(us, id) is None {
            assert forall|j: int| 0 <= j < us.len() implies (#[trigger] us[j]).id != id by {
                if j < init.len() {
                    assert(init[j] == us[j]);
                }
            }
        }
        if find_id(us, id) is Some {
            let k = find_id(us, id).unwrap();
            assert forall|j: int| 0 <= j < k implies (#[trigger] us[j]).id != id by {
                assert(init[j] == us[j]);
            }
        }
    }
}

/// A record with the id and none before it is the first.
proof fn lemma_find_id_first(us: Seq<UserView>, id: u128, k: int)
    requires
        0 <= k < us.len(),
        us[k].id == id,
        forall|j: int| 0 <= j < k ==> (#[trigger] us[j]).id != id,
    ensures
        find_id(us, id) == Some(k),
    decreases us.len(),
{
    if k < us.len() - 1 {
        lemma_find_id_first(us.drop_last(), id, k);
    } else {
        lemma_find_id_facts(us.drop_last(), id);
    }
}

proof fn lemma_find_token_extend(us: Seq<UserView>, token: Seq<char>, i: int)
    requires
        0 <= i < us.len(),
        find_token(us.take(i), token) is None,
        us[i].token == token,
    ensures
        find_token(us, token) == Some(i),
    decreases us.len(),
{
    assert(us.take(i + 1).drop_last() =~= us.take(i));
    assert(find_token(us.take(i + 1), token) == Some(i));
    lemma_find_token_prefix(us, token, i + 1);
}

proof fn lemma_find_token_prefix(us: Seq<UserView>, token: Seq<char>, n: int)
    requires
        0 <= n <= us.len(),
        find_token(us.take(n), token) is Some,
    ensures
        find_token(us, token) == find_token(us.take(n), token),
    decreases us.len() - n,
{
    if n < us.len() {
        assert(us.take(n + 1).drop_last() =~= us.take(n));
        lemma_find_token_prefix(us, token, n + 1);
    } else {
        assert(us.take(n) =~= us);
    }
}

proof fn lemma_find_id_extend(us: Seq<UserView>, id: u128, i: int)
    requires
        0 <= i < us.len(),
        find_id(us.take(i), id) is None,
        us[i].id == id,
    ensures
        find_id(us, id) == Some(i),
{
    assert(us.take(i + 1).drop_last() =~= us.take(i));
    assert(find_id(us.take(i + 1), id) == Some(i));
    lemma_find_id_prefix(us, id, i + 1);
}

proof fn lemma_find_id_prefix(us: Seq<UserView>, id: u128, n: int)
    requires
        0 <= n <= us.len(),
        find_id(us.take(n), id) is Some,
    ensures
        find_id(us, id) == find_id(us.take(n), id),
    decreases us.len() - n,
{
    if n < us.len() {
        assert(us.take(n + 1).drop_last() =~= us.take(n));
        lemma_find_id_prefix(us, id, n + 1);
    } else {
        assert(us.take(n) =~= us);
    }
}

} // verus!
