//! Which reminders have gone out, per league, held in memory: each reminder
//! occupies a slot `(league, kind, ref_id, user)` and is sent at most once.
//! A send claims its slot first and gives it back when the notifier fails,
//! so the next worker tick retries.

use vstd::prelude::*;

use crate::notifier::{NotificationEvent, Notifier};
use crate::order::sort_by;
use crate::stage::Stage;
use crate::text::{lex_le, owned, sorted_strings, str_eq, views_of};

verus! {

broadcast use vstd::seq_lib::group_seq_properties;

/// One match that is about to lock and may still miss tips. Instants are
/// seconds since the Unix epoch.
#[derive(Debug, Clone)]
pub struct ClosingSoonMatch {
    pub match_id: i32,
    pub stage: Stage,
    pub group_letter: Option<String>,
    pub kickoff_time: i64,
    pub home: String,
    pub away: String,
}

/// The slot of the reminder that a match is about to lock.
pub open spec fn closing_kind() -> Seq<char> {
    "match_closing_soon"@
}

/// A reminder's slot: the league, the kind, the id it refers to, and the
/// user it went to (`None` for a group message).
pub type Slot = (u128, Seq<char>, i32, Option<u128>);

/// A recorded send, as stored.
pub type SentRow = (u128, String, i32, Option<u128>);

/// The slots of a list of recorded sends.
pub open spec fn slots_of(s: Seq<SentRow>) -> Seq<Slot> {
    s.map_values(|p: SentRow| (p.0, p.1@, p.2, p.3))
}

/// Names, with their league, as stored.
pub open spec fn members_of(s: Seq<(u128, String)>) -> Seq<(u128, Seq<char>)> {
    s.map_values(|p: (u128, String)| (p.0, p.1@))
}

/// Tips `(league, user name, match id)`, as stored.
pub open spec fn tips_of(s: Seq<(u128, String, i32)>) -> Seq<(u128, Seq<char>, i32)> {
    s.map_values(|p: (u128, String, i32)| (p.0, p.1@, p.2))
}

/// The sent slots after marking, for one league, every known match as
/// reminded in the group.
pub open spec fn silenced(sent: Set<Slot>, league: u128, ids: Seq<i32>) -> Set<Slot> {
    sent.union(Set::new(|p: Slot| p.0 == league && p.1 == closing_kind() && ids.contains(p.2) && p.3 is None))
}

/// The closing matches whose group reminder has not gone out in the league,
/// in their order.
pub open spec fn unnotified(ms: Seq<ClosingSoonMatch>, sent: Set<Slot>, league: u128) -> Seq<ClosingSoonMatch>
    decreases ms.len(),
{
    if ms.len() == 0 {
        Seq::empty()
    } else {
        let r = unnotified(ms.drop_last(), sent, league);
        if sent.contains((league, closing_kind(), ms.last().match_id, None)) {
            r
        } else {
            r.push(ms.last())
        }
    }
}

/// The league's users, in their order, without a tip on the match.
pub open spec fn missing_tip(users: Seq<(u128, Seq<char>)>, tips: Seq<(u128, Seq<char>, i32)>, league: u128, match_id: i32) -> Seq<Seq<char>>
    decreases users.len(),
{
    if users.len() == 0 {
        Seq::empty()
    } else {
        let r = missing_tip(users.drop_last(), tips, league, match_id);
        let (l, name) = users.last();
        if l != league || tips.contains((l, name, match_id)) {
            r
        } else {
            r.push(name)
        }
    }
}

/// The league's users, in their order, without a champion pick.
pub open spec fn missing_pick(users: Seq<(u128, Seq<char>)>, pickers: Seq<(u128, Seq<char>)>, league: u128) -> Seq<Seq<char>>
    decreases users.len(),
{
    if users.len() == 0 {
        Seq::empty()
    } else {
        let r = missing_pick(users.drop_last(), pickers, league);
        let (l, name) = users.last();
        if l != league || pickers.contains((l, name)) {
            r
        } else {
            r.push(name)
        }
    }
}

/// What a send does to the sent slots: a slot already taken is not sent
/// again and nothing changes; otherwise the slot is taken exactly when the
/// send went out.
pub open spec fn send_outcome(before: Set<Slot>, slot: Slot, sent: bool, after: Set<Slot>) -> bool {
    if before.contains(slot) {
        !sent && after == before
    } else if sent {
        after == before.insert(slot)
    } else {
        after == before
    }
}

fn copy_match(m: &ClosingSoonMatch) -> (c: ClosingSoonMatch)
    ensures
        c == *m,
{
    ClosingSoonMatch {
        match_id: m.match_id,
        stage: m.stage,
        group_letter: match &m.group_letter {
            Some(g) => Some(g.clone()),
            None => None,
        },
        kickoff_time: m.kickoff_time,
        home: m.home.clone(),
        away: m.away.clone(),
    }
}

fn same_user(a: Option<u128>, b: Option<u128>) -> (eq: bool)
    ensures
        eq == (a == b),
{
    match (a, b) {
        (Some(x), Some(y)) => x == y,
        (None, None) => true,
        _ => false,
    }
}

/// The reminder bookkeeping of every league, held in memory, with the
/// users, tips, champion picks and matches it is asked about.
pub struct MemoryNotificationRepo {
    sent: Vec<SentRow>,
    closing_soon: Vec<ClosingSoonMatch>,
    predictions: Vec<(u128, String, i32)>,
    user_names: Vec<(u128, String)>,
    champion_picked: Vec<(u128, String)>,
    matches_with_both_teams: Vec<i32>,
}

impl MemoryNotificationRepo {
    /// The slots of the reminders that went out.
    pub closed spec fn sent_slots(&self) -> Set<Slot> {
        slots_of(self.sent@).to_set()
    }

    /// The registered users with their league, in order of registration.
    pub closed spec fn users(&self) -> Seq<(u128, Seq<char>)> {
        members_of(self.user_names@)
    }

    /// The `(league, user name, match id)` triples with a tip.
    pub closed spec fn tips(&self) -> Seq<(u128, Seq<char>, i32)> {
        tips_of(self.predictions@)
    }

    /// The users, with their league, who picked a champion.
    pub closed spec fn pickers(&self) -> Seq<(u128, Seq<char>)> {
        members_of(self.champion_picked@)
    }

    /// The matches about to lock.
    pub closed spec fn closing(&self) -> Seq<ClosingSoonMatch> {
        self.closing_soon@
    }

    /// The ids of the matches whose two teams are known.
    pub closed spec fn known_matches(&self) -> Seq<i32> {
        self.matches_with_both_teams@
    }

    /// Each slot is recorded once.
    pub closed spec fn wf(&self) -> bool {
        slots_of(self.sent@).no_duplicates()
    }

    /// Everything but the sent slots is as in `other`.
    pub open spec fn same_seeds(&self, other: &Self) -> bool {
        &&& self.users() == other.users()
        &&& self.tips() == other.tips()
        &&& self.pickers() == other.pickers()
        &&& self.closing() == other.closing()
        &&& self.known_matches() == other.known_matches()
    }

    /// Nothing sent, nothing seeded.
    pub fn new() -> (r: Self)
        ensures
            r.wf(),
            r.sent_slots() == Set::<Slot>::empty(),
            r.users() == Seq::<(u128, Seq<char>)>::empty(),
            r.tips() == Seq::<(u128, Seq<char>, i32)>::empty(),
            r.pickers() == Seq::<(u128, Seq<char>)>::empty(),
            r.closing() == Seq::<ClosingSoonMatch>::empty(),
            r.known_matches() == Seq::<i32>::empty(),
    {
        let r = MemoryNotificationRepo {
            sent: Vec::new(),
            closing_soon: Vec::new(),
            predictions: Vec::new(),
            user_names: Vec::new(),
            champion_picked: Vec::new(),
            matches_with_both_teams: Vec::new(),
        };
        assert(slots_of(r.sent@).to_set() =~= Set::<Slot>::empty());
        assert(members_of(r.user_names@) =~= Seq::<(u128, Seq<char>)>::empty());
        assert(members_of(r.champion_picked@) =~= Seq::<(u128, Seq<char>)>::empty());
        assert(tips_of(r.predictions@) =~= Seq::<(u128, Seq<char>, i32)>::empty());
        r
    }

    /// Registers a user of a league without a champion pick.
    pub fn seed_user(&mut self, league_id: u128, name: &str)
        ensures
            final(self).users() == old(self).users().push((league_id, name@)),
            final(self).wf() == old(self).wf(),
            final(self).sent_slots() == old(self).sent_slots(),
            final(self).tips() == old(self).tips(),
            final(self).pickers() == old(self).pickers(),
            final(self).closing() == old(self).closing(),
            final(self).known_matches() == old(self).known_matches(),
    {
        self.user_names.push((league_id, owned(name)));
        assert(members_of(self.user_names@) =~= members_of(old(self).user_names@).push((league_id, name@)));
    }

    /// Registers a user of a league who picked a champion.
    pub fn seed_user_with_champion(&mut self, league_id: u128, name: &str)
        ensures
            final(self).users() == old(self).users().push((league_id, name@)),
            final(self).pickers() == old(self).pickers().push((league_id, name@)),
            final(self).wf() == old(self).wf(),
            final(self).sent_slots() == old(self).sent_slots(),
            final(self).tips() == old(self).tips(),
            final(self).closing() == old(self).closing(),
            final(self).known_matches() == old(self).known_matches(),
    {
        self.user_names.push((league_id, owned(name)));
        self.champion_picked.push((league_id, owned(name)));
        assert(members_of(self.user_names@) =~= members_of(old(self).user_names@).push((league_id, name@)));
        assert(members_of(self.champion_picked@) =~= members_of(old(self).champion_picked@).push((league_id, name@)));
    }

    /// Records that a user of a league tipped a match.
    pub fn seed_prediction(&mut self, league_id: u128, user_name: &str, match_id: i32)
        ensures
            final(self).tips() == old(self).tips().push((league_id, user_name@, match_id)),
            final(self).wf() == old(self).wf(),
            final(self).sent_slots() == old(self).sent_slots(),
            final(self).users() == old(self).users(),
            final(self).pickers() == old(self).pickers(),
            final(self).closing() == old(self).closing(),
            final(self).known_matches() == old(self).known_matches(),
    {
        self.predictions.push((league_id, owned(user_name), match_id));
        assert(tips_of(self.predictions@) =~= tips_of(old(self).predictions@).push((league_id, user_name@, match_id)));
    }

    /// Adds a match about to lock; its two teams are known.
    pub fn seed_closing_soon(&mut self, m: ClosingSoonMatch)
        ensures
            final(self).closing() == old(self).closing().push(m),
            final(self).known_matches() == old(self).known_matches().push(m.match_id),
            final(self).wf() == old(self).wf(),
            final(self).sent_slots() == old(self).sent_slots(),
            final(self).users() == old(self).users(),
            final(self).tips() == old(self).tips(),
            final(self).pickers() == old(self).pickers(),
    {
        self.matches_with_both_teams.push(m.match_id);
        self.closing_soon.push(m);
    }

    /// Adds a match whose two teams are known.
    pub fn seed_match_with_both_teams(&mut self, match_id: i32)
        ensures
            final(self).known_matches() == old(self).known_matches().push(match_id),
            final(self).wf() == old(self).wf(),
            final(self).sent_slots() == old(self).sent_slots(),
            final(self).users() == old(self).users(),
            final(self).tips() == old(self).tips(),
            final(self).pickers() == old(self).pickers(),
            final(self).closing() == old(self).closing(),
    {
        self.matches_with_both_teams.push(match_id);
    }

    /// Whether the slot has been recorded as sent.
    pub fn already_sent(&self, league_id: u128, kind: &str, ref_id: i32, user_id: Option<u128>) -> (b: bool)
        ensures
            b == self.sent_slots().contains((league_id, kind@, ref_id, user_id)),
    {
        let ghost key: Slot = (league_id, kind@, ref_id, user_id);
        let mut i: usize = 0;
        while i < self.sent.len()
            invariant
                i <= self.sent@.len(),
                key == (league_id, kind@, ref_id, user_id),
                forall|j: int| 0 <= j < i ==> slots_of(self.sent@)[j] != key,
            decreases self.sent@.len() - i,
        {
            let row = &self.sent[i];
            assert(slots_of(self.sent@)[i as int] == (row.0, row.1@, row.2, row.3));
            if row.0 == league_id && row.2 == ref_id && same_user(row.3, user_id) && str_eq(row.1.as_str(), kind) {
                return true;
            }
            i = i + 1;
        }
        false
    }

    /// Number of reminders recorded as sent.
    pub fn sent_count(&self) -> (n: usize)
        requires
            self.wf(),
        ensures
            n == self.sent_slots().len(),
    {
        proof {
            slots_of(self.sent@).unique_seq_to_set();
        }
        self.sent.len()
    }

    /// Takes the slot if it is free; `true` when it was.
    pub fn claim(&mut self, league_id: u128, kind: &str, ref_id: i32, user_id: Option<u128>) -> (claimed: bool)
        requires
            old(self).wf(),
        ensures
            final(self).wf(),
            claimed == !old(self).sent_slots().contains((league_id, kind@, ref_id, user_id)),
            final(self).sent_slots() == old(self).sent_slots().insert((league_id, kind@, ref_id, user_id)),
            final(self).same_seeds(old(self)),
    {
        let ghost key: Slot = (league_id, kind@, ref_id, user_id);
        if self.already_sent(league_id, kind, ref_id, user_id) {
            assert(old(self).sent_slots().insert(key) =~= old(self).sent_slots());
            return false;
        }
        self.sent.push((league_id, owned(kind), ref_id, user_id));
        assert(slots_of(self.sent@) =~= slots_of(old(self).sent@).push(key));
        assert(slots_of(self.sent@).to_set() =~= slots_of(old(self).sent@).to_set().insert(key));
        true
    }

    /// Settles a claimed slot by the notifier's answer: kept when the send
    /// went out (`true`), given back when it failed (`false`).
    pub fn settle(&mut self, league_id: u128, kind: &str, ref_id: i32, user_id: Option<u128>, outcome: &Result<(), String>) -> (sent: bool)
        requires
            old(self).wf(),
            old(self).sent_slots().contains((league_id, kind@, ref_id, user_id)),
        ensures
            final(self).wf(),
            sent == outcome is Ok,
            final(self).sent_slots() == if sent {
                old(self).sent_slots()
            } else {
                old(self).sent_slots().remove((league_id, kind@, ref_id, user_id))
            },
            final(self).same_seeds(old(self)),
    {
        match outcome {
            Ok(()) => true,
            Err(_) => {
                let ghost key: Slot = (league_id, kind@, ref_id, user_id);
                let ghost before = slots_of(self.sent@);
                let mut i: usize = 0;
                while i < self.sent.len()
                    invariant
                        i <= self.sent@.len(),
                        key == (league_id, kind@, ref_id, user_id),
                        before == slots_of(self.sent@),
                        before.contains(key),
                        forall|j: int| 0 <= j < i ==> before[j] != key,
                    ensures
                        i < self.sent@.len(),
                        before[i as int] == key,
                    decreases self.sent@.len() - i,
                {
                    let row = &self.sent[i];
                    assert(before[i as int] == (row.0, row.1@, row.2, row.3));
                    if row.0 == league_id && row.2 == ref_id && same_user(row.3, user_id) && str_eq(row.1.as_str(), kind) {
                        break;
                    }
                    i = i + 1;
                }
                self.sent.remove(i);
                let ghost after = slots_of(self.sent@);
                assert(after =~= before.remove(i as int));
                assert(after.no_duplicates()) by {
                    assert forall|a: int, b: int| 0 <= a < after.len() && 0 <= b < after.len() && a != b implies after[a] != after[b] by {
                        let a2 = if a < i { a } else { a + 1 };
                        let b2 = if b < i { b } else { b + 1 };
                        assert(after[a] == before[a2] && after[b] == before[b2]);
                    }
                }
                assert(after.to_set() =~= before.to_set().remove(key)) by {
                    assert forall|x: Slot| after.to_set().contains(x) <==> before.to_set().remove(key).contains(x) by {
                        if after.contains(x) {
                            let a = choose|a: int| 0 <= a < after.len() && after[a] == x;
                            let a2 = if a < i { a } else { a + 1 };
                            assert(before[a2] == x);
                        }
                        if before.contains(x) && x != key {
                            let b = choose|b: int| 0 <= b < before.len() && before[b] == x;
                            assert(b != i);
                            let b2 = if b < i { b } else { b - 1 };
                            assert(after[b2] == x);
                        }
                    }
                }
                false
            },
        }
    }

    /// Sends an event once per slot: a slot already taken is skipped
    /// (`false`); otherwise the slot is claimed, the notifier is called with
    /// the event, and the slot is kept when the send went out (`true`) or
    /// given back when it failed (`false`), so the next tick retries. The
    /// result is `true` exactly when the notifier's answer to the event was
    /// a success.
    pub fn try_send<N: Notifier>(
        &mut self,
        notifier: &N,
        league_id: u128,
        kind: &str,
        ref_id: i32,
        user_id: Option<u128>,
        event: NotificationEvent,
    ) -> (sent: bool)
        requires
            old(self).wf(),
        ensures
            final(self).wf(),
            send_outcome(old(self).sent_slots(), (league_id, kind@, ref_id, user_id), sent, final(self).sent_slots()),
            !old(self).sent_slots().contains((league_id, kind@, ref_id, user_id)) ==> exists|r: Result<(), String>|
                #[trigger] notifier.delivers(event, r) && sent == (r is Ok),
            final(self).same_seeds(old(self)),
    {
        let ghost key: Slot = (league_id, kind@, ref_id, user_id);
        let ghost ev = event;
        if !self.claim(league_id, kind, ref_id, user_id) {
            assert(old(self).sent_slots().insert(key) =~= old(self).sent_slots());
            return false;
        }
        let outcome = notifier.notify(event);
        let sent = self.settle(league_id, kind, ref_id, user_id, &outcome);
        assert(notifier.delivers(ev, outcome) && sent == (outcome is Ok));
        proof {
            if !sent {
                assert(final(self).sent_slots() =~= old(self).sent_slots());
            }
        }
        sent
    }

    /// Marks, for one league, every match whose teams are known as reminded
    /// in the group, so a fresh start does not send reminders for the past.
    pub fn silence_existing_matches(&mut self, league_id: u128)
        requires
            old(self).wf(),
        ensures
            final(self).wf(),
            final(self).sent_slots() == silenced(old(self).sent_slots(), league_id, old(self).known_matches()),
            final(self).same_seeds(old(self)),
    {
        let ids = self.matches_with_both_teams.clone();
        let kind = owned("match_closing_soon");
        let mut i: usize = 0;
        while i < ids.len()
            invariant
                i <= ids@.len(),
                ids@ == old(self).known_matches(),
                kind@ == closing_kind(),
                self.wf(),
                self.sent_slots() == silenced(old(self).sent_slots(), league_id, ids@.take(i as int)),
                self.same_seeds(old(self)),
            decreases ids@.len() - i,
        {
            let ghost prev = self.sent_slots();
            let _ = self.claim(league_id, kind.as_str(), ids[i], None);
            assert(silenced(old(self).sent_slots(), league_id, ids@.take(i as int + 1))
                =~= prev.insert((league_id, closing_kind(), ids@[i as int], None))) by {
                assert(ids@.take(i as int + 1) =~= ids@.take(i as int).push(ids@[i as int]));
            }
            i = i + 1;
        }
        assert(ids@.take(i as int) =~= ids@);
    }

    /// The matches about to lock whose group reminder has not gone out in
    /// the league.
    pub fn list_closing_soon_unnotified(&self, league_id: u128) -> (out: Vec<ClosingSoonMatch>)
        ensures
            out@ == unnotified(self.closing(), self.sent_slots(), league_id),
    {
        let mut out: Vec<ClosingSoonMatch> = Vec::new();
        let kind = owned("match_closing_soon");
        let mut i: usize = 0;
        while i < self.closing_soon.len()
            invariant
                i <= self.closing_soon@.len(),
                kind@ == closing_kind(),
                out@ == unnotified(self.closing_soon@.take(i as int), self.sent_slots(), league_id),
            decreases self.closing_soon@.len() - i,
        {
            assert(self.closing_soon@.take(i as int + 1).drop_last() =~= self.closing_soon@.take(i as int));
            let m = &self.closing_soon[i];
            if !self.already_sent(league_id, kind.as_str(), m.match_id, None) {
                out.push(copy_match(m));
            }
            i = i + 1;
        }
        assert(self.closing_soon@.take(i as int) =~= self.closing_soon@);
        out
    }

    /// Whether the user of the league tipped the match.
    fn has_tip(&self, league_id: u128, name: &str, match_id: i32) -> (b: bool)
        ensures
            b == self.tips().contains((league_id, name@, match_id)),
    {
        let mut i: usize = 0;
        while i < self.predictions.len()
            invariant
                i <= self.predictions@.len(),
                forall|j: int| 0 <= j < i ==> tips_of(self.predictions@)[j] != (league_id, name@, match_id),
            decreases self.predictions@.len() - i,
        {
            let row = &self.predictions[i];
            assert(tips_of(self.predictions@)[i as int] == (row.0, row.1@, row.2));
            if row.0 == league_id && row.2 == match_id && str_eq(row.1.as_str(), name) {
                return true;
            }
            i = i + 1;
        }
        false
    }

    /// Whether the user of the league picked a champion.
    fn has_pick(&self, league_id: u128, name: &str) -> (b: bool)
        ensures
            b == self.pickers().contains((league_id, name@)),
    {
        let mut i: usize = 0;
        while i < self.champion_picked.len()
            invariant
                i <= self.champion_picked@.len(),
                forall|j: int| 0 <= j < i ==> members_of(self.champion_picked@)[j] != (league_id, name@),
            decreases self.champion_picked@.len() - i,
        {
            let row = &self.champion_picked[i];
            assert(members_of(self.champion_picked@)[i as int] == (row.0, row.1@));
            if row.0 == league_id && str_eq(row.1.as_str(), name) {
                return true;
            }
            i = i + 1;
        }
        false
    }

    /// Names of the league's users without a tip on the match, sorted.
    pub fn users_missing_prediction_for(&self, league_id: u128, match_id: i32) -> (names: Vec<String>)
        ensures
            views_of(names@) == sort_by(missing_tip(self.users(), self.tips(), league_id, match_id), lex_le()),
    {
        let ghost us = members_of(self.user_names@);
        let mut missing: Vec<String> = Vec::new();
        let mut i: usize = 0;
        while i < self.user_names.len()
            invariant
                i <= self.user_names@.len(),
                us == members_of(self.user_names@),
                views_of(missing@) == missing_tip(us.take(i as int), self.tips(), league_id, match_id),
            decreases self.user_names@.len() - i,
        {
            assert(us.take(i as int + 1).drop_last() =~= us.take(i as int));
            let row = &self.user_names[i];
            assert(us.take(i as int + 1).last() == (row.0, row.1@));
            if row.0 == league_id && !self.has_tip(league_id, row.1.as_str(), match_id) {
                let ghost before = missing@;
                missing.push(row.1.clone());
                assert(views_of(missing@) =~= views_of(before).push(row.1@));
            }
            i = i + 1;
        }
        assert(us.take(i as int) =~= us);
        sorted_strings(&missing)
    }

    /// Names of the league's users without a champion pick, sorted.
    pub fn users_missing_champion(&self, league_id: u128) -> (names: Vec<String>)
        ensures
            views_of(names@) == sort_by(missing_pick(self.users(), self.pickers(), league_id), lex_le()),
    {
        let ghost us = members_of(self.user_names@);
        let mut missing: Vec<String> = Vec::new();
        let mut i: usize = 0;
        while i < self.user_names.len()
            invariant
                i <= self.user_names@.len(),
                us == members_of(self.user_names@),
                views_of(missing@) == missing_pick(us.take(i as int), self.pickers(), league_id),
            decreases self.user_names@.len() - i,
        {
            assert(us.take(i as int + 1).drop_last() =~= us.take(i as int));
            let row = &self.user_names[i];
            assert(us.take(i as int + 1).last() == (row.0, row.1@));
            if row.0 == league_id && !self.has_pick(league_id, row.1.as_str()) {
                let ghost before = missing@;
                missing.push(row.1.clone());
                assert(views_of(missing@) =~= views_of(before).push(row.1@));
            }
            i = i + 1;
        }
        assert(us.take(i as int) =~= us);
        sorted_strings(&missing)
    }
}

/// A reminder goes out at most once: after a send went out, sending on the
/// same slot again sends nothing and changes nothing.
pub proof fn lemma_send_at_most_once(s0: Set<Slot>, slot: Slot, s1: Set<Slot>, sent_again: bool, s2: Set<Slot>)
    requires
        send_outcome(s0, slot, true, s1),
        send_outcome(s1, slot, sent_again, s2),
    ensures
        !sent_again,
        s2 == s1,
        s1.contains(slot),
{
}

/// A send that did not go out changes nothing; a free slot stays free, so
/// the next tick retries.
pub proof fn lemma_failed_send_releases(s0: Set<Slot>, slot: Slot, s1: Set<Slot>)
    requires
        send_outcome(s0, slot, false, s1),
    ensures
        s1 == s0,
        !s0.contains(slot) ==> !s1.contains(slot),
{
}

/// A send touches only its own slot: every other slot, of any league, is
/// as before.
pub proof fn lemma_send_touches_own_slot(s0: Set<Slot>, slot: Slot, sent: bool, s1: Set<Slot>, other: Slot)
    requires
        send_outcome(s0, slot, sent, s1),
        other != slot,
    ensures
        s1.contains(other) == s0.contains(other),
{
}

/// Silencing twice is silencing once; afterwards every known match counts as
/// reminded in that league, and no other league's slots change.
pub proof fn lemma_silence_idempotent(sent: Set<Slot>, league: u128, ids: Seq<i32>, other: Slot)
    ensures
        silenced(silenced(sent, league, ids), league, ids) == silenced(sent, league, ids),
        forall|k: int| 0 <= k < ids.len() ==> silenced(sent, league, ids).contains((league, closing_kind(), #[trigger] ids[k], None)),
        other.0 != league ==> (silenced(sent, league, ids).contains(other) == sent.contains(other)),
{
    assert(silenced(silenced(sent, league, ids), league, ids) =~= silenced(sent, league, ids));
}


/// A closing-soon reminder names exactly the players of the league who have
/// no tip on the match.
pub proof fn lemma_missing_tip_names(users: Seq<(u128, Seq<char>)>, tips: Seq<(u128, Seq<char>, i32)>, league: u128, match_id: i32, name: Seq<char>)
    ensures
        missing_tip(users, tips, league, match_id).contains(name)
            <==> (users.contains((league, name)) && !tips.contains((league, name, match_id))),
    decreases users.len(),
{
    if users.len() > 0 {
        let init = users.drop_last();
        lemma_missing_tip_names(init, tips, league, match_id, name);
        let r = missing_tip(init, tips, league, match_id);
        assert(users =~= init.push(users.last()));
        if users.contains((league, name)) {
            let j = choose|j: int| 0 <= j < users.len() && users[j] == (league, name);
            if j < init.len() {
                assert(init[j] == users[j]);
            }
        }
        if init.contains((league, name)) {
            let j = choose|j: int| 0 <= j < init.len() && init[j] == (league, name);
            assert(users[j] == init[j]);
        }
        if r.push(users.last().1).contains(name) && !r.contains(name) {
            assert(r.push(users.last().1)[r.len() as int] == users.last().1);
        }
        if r.contains(name) {
            let j = choose|j: int| 0 <= j < r.len() && r[j] == name;
            assert(r.push(users.last().1)[j] == name);
        }
        if users.last() == (league, name) {
            assert(users[users.len() - 1] == (league, name));
        }
    }
}

} // verus!
