//! The champion picks, held in memory: one pick per player, which a later
//! pick overwrites or clears, and the per-league listings.

use vstd::prelude::*;

use crate::leaderboard::ChampionPickRow;
use crate::order::{count_by, sort_by};
use crate::text::{lex_lt, owned, str_less};

verus! {

broadcast use vstd::seq_lib::group_seq_properties;

/// Name and flag of a picked champion.
#[derive(Debug, Clone)]
pub struct ChampionView {
    pub team_name: String,
    pub flag_code: Option<String>,
}

/// A player's pick entry `(user id, league id, picked team id)`.
pub type PickEntry = (u128, u128, Option<i32>);

/// Index of the player's entry.
pub open spec fn find_pick(ps: Seq<PickEntry>, user_id: u128) -> Option<int>
    decreases ps.len(),
{
    if ps.len() == 0 {
        None
    } else {
        match find_pick(ps.drop_last(), user_id) {
            Some(i) => Some(i),
            None => if ps.last().0 == user_id { Some(ps.len() - 1) } else { None },
        }
    }
}

/// The player's pick, if any.
pub open spec fn pick_of(ps: Seq<PickEntry>, user_id: u128) -> Option<i32> {
    match find_pick(ps, user_id) {
        Some(k) => ps[k].2,
        None => None,
    }
}

/// The entries after a pick: the player's entry changed, or a new entry
/// without a league.
pub open spec fn picked(ps: Seq<PickEntry>, user_id: u128, champion_id: Option<i32>) -> Seq<PickEntry> {
    match find_pick(ps, user_id) {
        Some(k) => ps.update(k, (ps[k].0, ps[k].1, champion_id)),
        None => ps.push((user_id, 0, champion_id)),
    }
}

/// The entries after registering a player of a league: a new entry without
/// a pick, unless the player has one.
pub open spec fn registered(ps: Seq<PickEntry>, user_id: u128, league_id: u128) -> Seq<PickEntry> {
    match find_pick(ps, user_id) {
        Some(k) => ps,
        None => ps.push((user_id, league_id, None)),
    }
}

/// The latest name given to a player.
pub open spec fn name_of(names: Seq<(u128, Seq<char>)>, user_id: u128) -> Option<Seq<char>>
    decreases names.len(),
{
    if names.len() == 0 {
        None
    } else if names.last().0 == user_id {
        Some(names.last().1)
    } else {
        name_of(names.drop_last(), user_id)
    }
}

/// The league's picks `(user id, team id)`, leaving out players without a
/// pick, in order of entry.
pub open spec fn picks_in(ps: Seq<PickEntry>, league: u128) -> Seq<(u128, i32)>
    decreases ps.len(),
{
    if ps.len() == 0 {
        Seq::empty()
    } else {
        let r = picks_in(ps.drop_last(), league);
        let e = ps.last();
        match e.2 {
            Some(c) => if e.1 == league { r.push((e.0, c)) } else { r },
            None => r,
        }
    }
}

/// A listed pick: a player's name and pick (teams are not kept here).
pub type PickLine = (Seq<char>, Option<i32>);

/// The league's named players with their picks, in order of entry.
pub open spec fn named_picks(ps: Seq<PickEntry>, names: Seq<(u128, Seq<char>)>, league: u128) -> Seq<PickLine>
    decreases ps.len(),
{
    if ps.len() == 0 {
        Seq::empty()
    } else {
        let r = named_picks(ps.drop_last(), names, league);
        let e = ps.last();
        match name_of(names, e.0) {
            Some(n) => if e.1 == league { r.push((n, e.2)) } else { r },
            None => r,
        }
    }
}

/// Pick list order: by player name, by code point.
pub open spec fn line_le() -> spec_fn(PickLine, PickLine) -> bool {
    |a: PickLine, b: PickLine| !lex_lt(b.0, a.0)
}

/// Value of a pick row.
pub open spec fn line_of(r: ChampionPickRow) -> PickLine {
    (r.user_name@, r.champion_id)
}

/// The champion picks, held in memory.
pub struct MemorySpecialPredictionRepo {
    picks: Vec<PickEntry>,
    user_names: Vec<(u128, String)>,
}

impl MemorySpecialPredictionRepo {
    /// The pick entries, in order of entry.
    pub closed spec fn entries(&self) -> Seq<PickEntry> {
        self.picks@
    }

    /// The names given to players, oldest first.
    pub closed spec fn names(&self) -> Seq<(u128, Seq<char>)> {
        self.user_names@.map_values(|p: (u128, String)| (p.0, p.1@))
    }

    /// No picks, no names.
    pub fn new() -> (r: Self)
        ensures
            r.entries() == Seq::<PickEntry>::empty(),
            r.names() == Seq::<(u128, Seq<char>)>::empty(),
    {
        let r = MemorySpecialPredictionRepo { picks: Vec::new(), user_names: Vec::new() };
        assert(r.names() =~= Seq::<(u128, Seq<char>)>::empty());
        r
    }

    /// Index of the player's entry.
    fn index_of(&self, user_id: u128) -> (r: Option<usize>)
        ensures
            match r {
                Some(i) => i < self.picks@.len() && find_pick(self.entries(), user_id) == Some(i as int),
                None => find_pick(self.entries(), user_id) is None,
            },
    {
        let ghost ps = self.picks@;
        let mut i: usize = 0;
        while i < self.picks.len()
            invariant
                i <= self.picks@.len(),
                ps == self.picks@,
                find_pick(ps.take(i as int), user_id) is None,
            decreases self.picks@.len() - i,
        {
            assert(ps.take(i as int + 1).drop_last() =~= ps.take(i as int));
            if self.picks[i].0 == user_id {
                proof { lemma_find_pick_prefix(ps, user_id, i as int + 1); }
                return Some(i);
            }
            i = i + 1;
        }
        assert(ps.take(i as int) =~= ps);
        None
    }

    /// Records a player's league and name so the league listings find them.
    pub fn seed_user(&mut self, user_id: u128, league_id: u128, name: &str)
        ensures
            final(self).entries() == registered(old(self).entries(), user_id, league_id),
            final(self).names() == old(self).names().push((user_id, name@)),
    {
        if self.index_of(user_id).is_none() {
            self.picks.push((user_id, league_id, None));
        }
        self.user_names.push((user_id, owned(name)));
        assert(self.names() =~= old(self).names().push((user_id, name@)));
    }

    /// The player's pick, if any.
    pub fn get_user_champion(&self, user_id: u128) -> (c: Option<i32>)
        ensures
            c == pick_of(self.entries(), user_id),
    {
        match self.index_of(user_id) {
            Some(i) => self.picks[i].2,
            None => None,
        }
    }

    /// Stores the player's pick (`None` clears it).
    pub fn upsert(&mut self, user_id: u128, champion_id: Option<i32>)
        ensures
            final(self).entries() == picked(old(self).entries(), user_id, champion_id),
            final(self).names() == old(self).names(),
    {
        match self.index_of(user_id) {
            Some(i) => {
                let e = self.picks[i];
                self.picks.set(i, (e.0, e.1, champion_id));
            },
            None => {
                self.picks.push((user_id, 0, champion_id));
            },
        }
    }

    /// The latest name given to a player.
    fn name_for(&self, user_id: u128) -> (n: Option<String>)
        ensures
            match n {
                Some(s) => name_of(self.names(), user_id) == Some(s@),
                None => name_of(self.names(), user_id) is None,
            },
    {
        let ghost ns = self.names();
        let mut i: usize = self.user_names.len();
        while i > 0
            invariant
                i <= self.user_names@.len(),
                ns == self.names(),
                ns.len() == self.user_names@.len(),
                name_of(ns, user_id) == name_of(ns.take(i as int), user_id),
            decreases i,
        {
            let ghost t = ns.take(i as int);
            assert(t.drop_last() =~= ns.take(i as int - 1));
            assert(t.last() == (self.user_names@[i - 1].0, self.user_names@[i - 1].1@));
            if self.user_names[i - 1].0 == user_id {
                return Some(self.user_names[i - 1].1.clone());
            }
            i = i - 1;
        }
        None
    }

    /// The league's named players with their picks, sorted by name.
    pub fn list_with_user_names(&self, league_id: u128) -> (rows: Vec<ChampionPickRow>)
        ensures
            rows@.map_values(|r: ChampionPickRow| line_of(r)) == sort_by(named_picks(self.entries(), self.names(), league_id), line_le()),
            forall|i: int| 0 <= i < rows@.len() ==> (#[trigger] rows@[i]).team_name is None && rows@[i].flag_code is None,
    {
        let ghost ps = self.picks@;
        let mut rows: Vec<ChampionPickRow> = Vec::new();
        let mut i: usize = 0;
        while i < self.picks.len()
            invariant
                i <= self.picks@.len(),
                ps == self.picks@,
                rows@.map_values(|r: ChampionPickRow| line_of(r)) == sort_by(named_picks(ps.take(i as int), self.names(), league_id), line_le()),
                forall|q: int| 0 <= q < rows@.len() ==> (#[trigger] rows@[q]).team_name is None && rows@[q].flag_code is None,
            decreases self.picks@.len() - i,
        {
            assert(ps.take(i as int + 1).drop_last() =~= ps.take(i as int));
            let e = self.picks[i];
            if e.1 == league_id {
                match self.name_for(e.0) {
                    Some(name) => {
                        let row = ChampionPickRow { user_name: name, champion_id: e.2, team_name: None, flag_code: None };
                        let ghost lines = rows@.map_values(|r: ChampionPickRow| line_of(r));
                        let ghost base = named_picks(ps.take(i as int), self.names(), league_id);
                        assert(base.push(line_of(row)).drop_last() =~= base);
                        let mut cnt: usize = 0;
                        let mut k: usize = 0;
                        while k < rows.len()
                            invariant
                                k <= rows@.len(),
                                lines == rows@.map_values(|r: ChampionPickRow| line_of(r)),
                                cnt <= k,
                                cnt == count_by(lines.take(k as int), line_of(row), line_le()),
                            decreases rows@.len() - k,
                        {
                            assert(lines.take(k as int + 1).drop_last() =~= lines.take(k as int));
                            if !str_less(row.user_name.as_str(), rows[k].user_name.as_str()) {
                                cnt = cnt + 1;
                            }
                            k = k + 1;
                        }
                        assert(lines.take(k as int) =~= lines);
                        rows.insert(cnt, row);
                        assert(rows@.map_values(|r: ChampionPickRow| line_of(r)) =~= lines.insert(cnt as int, line_of(row)));
                    },
                    None => {},
                }
            }
            i = i + 1;
        }
        assert(ps.take(i as int) =~= ps);
        rows
    }

    /// The league's picks, leaving out players without one.
    pub fn list_all_picks(&self, league_id: u128) -> (out: Vec<(u128, i32)>)
        ensures
            out@ == picks_in(self.entries(), league_id),
    {
        let mut out: Vec<(u128, i32)> = Vec::new();
        let mut i: usize = 0;
        while i < self.picks.len()
            invariant
                i <= self.picks@.len(),
                out@ == picks_in(self.picks@.take(i as int), league_id),
            decreases self.picks@.len() - i,
        {
            assert(self.picks@.take(i as int + 1).drop_last() =~= self.picks@.take(i as int));
            let e = self.picks[i];
            match e.2 {
                Some(c) => {
                    if e.1 == league_id {
                        out.push((e.0, c));
                    }
                },
                None => {},
            }
            i = i + 1;
        }
        assert(self.picks@.take(i as int) =~= self.picks@);
        out
    }

    /// Name and flag of the player's champion: teams are not kept here, so
    /// there is none.
    pub fn user_champion_view(&self, user_id: u128) -> (v: Option<ChampionView>)
        ensures
            v is None,
    {
        None
    }
}

proof fn lemma_find_pick_prefix(ps: Seq<PickEntry>, user_id: u128, n: int)
    requires
        0 <= n <= ps.len(),
        find_pick(ps.take(n), user_id) is Some,
    ensures
        find_pick(ps, user_id) == find_pick(ps.take(n), user_id),
    decreases ps.len() - n,
{
    if n < ps.len() {
        assert(ps.take(n + 1).drop_last() =~= ps.take(n));
        lemma_find_pick_prefix(ps, user_id, n + 1);
    } else {
        assert(ps.take(n) =~= ps);
    }
}

proof fn lemma_find_pick_facts(ps: Seq<PickEntry>, user_id: u128)
    ensures
        find_pick(ps, user_id) matches Some(k) ==> 0 <= k < ps.len() && ps[k].0 == user_id
            && forall|j: int| 0 <= j < k ==> (#[trigger] ps[j]).0 != user_id,
        find_pick(ps, user_id) is None ==> forall|j: int| 0 <= j < ps.len() ==> (#[trigger] ps[j]).0 != user_id,
    decreases ps.len(),
{
    if ps.len() > 0 {
        let init = ps.drop_last();
        lemma_find_pick_facts(init, user_id);
        assert forall|j: int| 0 <= j < init.len() implies init[j] == ps[j] by {}
    }
}

proof fn lemma_find_pick_first(ps: Seq<PickEntry>, user_id: u128, k: int)
    requires
        0 <= k < ps.len(),
        ps[k].0 == user_id,
        forall|j: int| 0 <= j < k ==> (#[trigger] ps[j]).0 != user_id,
    ensures
        find_pick(ps, user_id) == Some(k),
    decreases ps.len(),
{
    if k < ps.len() - 1 {
        lemma_find_pick_first(ps.drop_last(), user_id, k);
    } else {
        lemma_find_pick_facts(ps.drop_last(), user_id);
        if find_pick(ps.drop_last(), user_id) is Some {
            let q = find_pick(ps.drop_last(), user_id).unwrap();
            assert(ps.drop_last()[q] == ps[q]);
        }
    }
}

/// A pick reads back what was last stored, a clear reads back nothing, and
/// other players' picks stay.
pub proof fn lemma_pick_read_back(ps: Seq<PickEntry>, user_id: u128, champion_id: Option<i32>, other: u128)
    ensures
        pick_of(picked(ps, user_id, champion_id), user_id) == champion_id,
        other != user_id ==> pick_of(picked(ps, user_id, champion_id), other) == pick_of(ps, other),
{
    let r = picked(ps, user_id, champion_id);
    lemma_find_pick_facts(ps, user_id);
    lemma_find_pick_facts(ps, other);
    match find_pick(ps, user_id) {
        Some(k) => {
            lemma_find_pick_first(r, user_id, k);
            if other != user_id {
                match find_pick(ps, other) {
                    Some(q) => {
                        lemma_find_pick_first(r, other, q);
                    },
                    None => {
                        lemma_find_pick_facts(r, other);
                        if find_pick(r, other) is Some {
                            let q = find_pick(r, other).unwrap();
                            assert(r[q].0 == ps[q].0);
                        }
                    },
                }
            }
        },
        None => {
            lemma_find_pick_first(r, user_id, ps.len() as int);
            if other != user_id {
                assert(r.drop_last() =~= ps);
            }
        },
    }
}

/// The league's picks belong to players of that league and are all set.
pub proof fn lemma_picks_scoped(ps: Seq<PickEntry>, league: u128)
    ensures
        forall|i: int| 0 <= i < picks_in(ps, league).len()
            ==> exists|j: int| 0 <= j < ps.len() && (#[trigger] ps[j]).0 == (#[trigger] picks_in(ps, league)[i]).0
                && ps[j].1 == league && ps[j].2 == Some(picks_in(ps, league)[i].1),
    decreases ps.len(),
{
    if ps.len() > 0 {
        let init = ps.drop_last();
        lemma_picks_scoped(init, league);
        let r = picks_in(init, league);
        assert forall|i: int| 0 <= i < picks_in(ps, league).len()
            implies exists|j: int| 0 <= j < ps.len() && (#[trigger] ps[j]).0 == (#[trigger] picks_in(ps, league)[i]).0
                && ps[j].1 == league && ps[j].2 == Some(picks_in(ps, league)[i].1) by {
            if i < r.len() {
                assert(picks_in(ps, league)[i] == r[i]);
                let j = choose|j: int| 0 <= j < init.len() && (#[trigger] init[j]).0 == r[i].0 && init[j].1 == league && init[j].2 == Some(r[i].1);
                assert(ps[j] == init[j]);
            } else {
                assert(ps[ps.len() - 1] == ps.last());
            }
        }
    }
}

} // verus!
