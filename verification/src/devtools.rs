//! Decisions of the development tools that play a tournament forward: which
//! fixtures get random tips or results, which matchday is simulated next,
//! and where the simulated clock moves to.

use vstd::prelude::*;

use crate::clock::{valid_instant, zone_day_of, berlin_day};
use crate::dashboard::IndexMatchRow;

verus! {

broadcast use vstd::seq_lib::group_seq_properties;

/// Both teams of the fixture are known.
pub open spec fn teams_known(m: IndexMatchRow) -> bool {
    m.team_home_id is Some && m.team_away_id is Some
}

/// A fixture still to be played: teams known and kickoff after `now`.
pub open spec fn upcoming(m: IndexMatchRow, now: i64) -> bool {
    teams_known(m) && (m.kickoff_time matches Some(k) && k > now)
}

/// Random tips go to fixtures whose teams are known and that have not kicked
/// off.
pub fn open_for_random_tip(m: &IndexMatchRow, now: i64) -> (b: bool)
    ensures
        b == (teams_known(*m) && !(m.kickoff_time matches Some(k) && k <= now)),
{
    let started = match m.kickoff_time {
        Some(k) => k <= now,
        None => false,
    };
    !started && m.team_home_id.is_some() && m.team_away_id.is_some()
}

/// Random results go to fixtures whose teams are known and that have kicked
/// off.
pub fn due_for_random_result(m: &IndexMatchRow, now: i64) -> (b: bool)
    ensures
        b == (teams_known(*m) && (m.kickoff_time matches Some(k) && k <= now)),
{
    let started = match m.kickoff_time {
        Some(k) => k <= now,
        None => false,
    };
    started && m.team_home_id.is_some() && m.team_away_id.is_some()
}

/// A simulated matchday gives every player a random tip, except that the
/// acting player's own existing tips are kept.
pub fn fills_tip(m: &IndexMatchRow, player: u128, acting_player: u128) -> (b: bool)
    ensures
        b == !(player == acting_player && m.predicted_home is Some),
{
    !(player == acting_player && m.predicted_home.is_some())
}

/// Every known kickoff is in the handled range of instants.
pub open spec fn kickoffs_in_range(s: Seq<IndexMatchRow>) -> bool {
    forall|i: int| 0 <= i < s.len() ==> ((#[trigger] s[i]).kickoff_time matches Some(k) ==> valid_instant(k))
}

/// Earliest kickoff of an upcoming fixture among `s`.
pub open spec fn next_kickoff(s: Seq<IndexMatchRow>, now: i64) -> Option<i64>
    decreases s.len(),
{
    if s.len() == 0 {
        None
    } else {
        let r = next_kickoff(s.drop_last(), now);
        let m = s.last();
        if upcoming(m, now) {
            let k = m.kickoff_time->0;
            match r {
                Some(e) => Some(if k < e { k } else { e }),
                None => Some(k),
            }
        } else {
            r
        }
    }
}

/// Ids of the upcoming fixtures of Berlin day `day`, in fixture order.
pub open spec fn matchday_ids(s: Seq<IndexMatchRow>, now: i64, day: i32) -> Seq<i32>
    decreases s.len(),
{
    if s.len() == 0 {
        Seq::empty()
    } else {
        let t = matchday_ids(s.drop_last(), now, day);
        let m = s.last();
        if upcoming(m, now) && zone_day_of(m.kickoff_time->0, "Europe/Berlin"@) == day {
            t.push(m.id)
        } else {
            t
        }
    }
}

/// The next matchday to simulate: the upcoming fixtures on the Berlin day of
/// the earliest upcoming kickoff; `None` when nothing is upcoming.
pub open spec fn next_matchday_of(s: Seq<IndexMatchRow>, now: i64) -> Option<Seq<i32>> {
    match next_kickoff(s, now) {
        Some(k) => Some(matchday_ids(s, now, zone_day_of(k, "Europe/Berlin"@))),
        None => None,
    }
}

proof fn lemma_next_kickoff_in_range(s: Seq<IndexMatchRow>, now: i64)
    requires
        kickoffs_in_range(s),
    ensures
        next_kickoff(s, now) matches Some(k) ==> valid_instant(k),
    decreases s.len(),
{
    if s.len() > 0 {
        assert(kickoffs_in_range(s.drop_last())) by {
            assert forall|i: int| 0 <= i < s.drop_last().len() implies
                ((#[trigger] s.drop_last()[i]).kickoff_time matches Some(k) ==> valid_instant(k)) by {
                assert(s.drop_last()[i] == s[i]);
            }
        }
        lemma_next_kickoff_in_range(s.drop_last(), now);
        assert(s.last() == s[s.len() - 1]);
    }
}

/// The ids of the fixtures of the next matchday to simulate.
pub fn find_next_unstarted_matchday(matches: &Vec<IndexMatchRow>, now: i64) -> (r: Option<Vec<i32>>)
    requires
        kickoffs_in_range(matches@),
    ensures
        match r {
            Some(v) => next_matchday_of(matches@, now) == Some(v@),
            None => next_matchday_of(matches@, now) is None,
        },
{
    let mut next: Option<i64> = None;
    let mut i: usize = 0;
    while i < matches.len()
        invariant
            i <= matches@.len(),
            next == next_kickoff(matches@.take(i as int), now),
        decreases matches@.len() - i,
    {
        assert(matches@.take(i as int + 1).drop_last() =~= matches@.take(i as int));
        let m = &matches[i];
        if m.team_home_id.is_some() && m.team_away_id.is_some() {
            if let Some(k) = m.kickoff_time {
                if k > now {
                    next = match next {
                        Some(e) => Some(if k < e { k } else { e }),
                        None => Some(k),
                    };
                }
            }
        }
        i = i + 1;
    }
    assert(matches@.take(i as int) =~= matches@);
    let first = match next {
        Some(k) => k,
        None => {
            return None;
        },
    };
    proof {
        lemma_next_kickoff_in_range(matches@, now);
    }
    let day = berlin_day(first);
    let mut ids: Vec<i32> = Vec::new();
    let mut j: usize = 0;
    while j < matches.len()
        invariant
            j <= matches@.len(),
            kickoffs_in_range(matches@),
            ids@ == matchday_ids(matches@.take(j as int), now, day),
        decreases matches@.len() - j,
    {
        assert(matches@.take(j as int + 1).drop_last() =~= matches@.take(j as int));
        let m = &matches[j];
        assert(matches@.take(j as int + 1).last() == matches@[j as int]);
        if m.team_home_id.is_some() && m.team_away_id.is_some() {
            if let Some(k) = m.kickoff_time {
                if k > now && berlin_day(k) == day {
                    ids.push(m.id);
                }
            }
        }
        j = j + 1;
    }
    assert(matches@.take(j as int) =~= matches@);
    Some(ids)
}

/// Two hours after the latest kickoff among `s`, where the simulated clock
/// moves once a matchday has been played.
pub open spec fn clock_after(s: Seq<Option<i64>>) -> Option<int>
    decreases s.len(),
{
    if s.len() == 0 {
        None
    } else {
        let r = clock_after(s.drop_last());
        match s.last() {
            Some(k) => match r {
                Some(e) => Some(if k + 7200 > e { k + 7200 } else { e }),
                None => Some(k + 7200),
            },
            None => r,
        }
    }
}

/// Where the simulated clock moves after a matchday with these kickoffs.
pub fn simulated_clock_after(kickoffs: &Vec<Option<i64>>) -> (t: Option<i64>)
    requires
        forall|i: int| 0 <= i < kickoffs@.len() ==> ((#[trigger] kickoffs@[i]) matches Some(k) ==> valid_instant(k)),
    ensures
        match t {
            Some(x) => clock_after(kickoffs@) == Some(x as int),
            None => clock_after(kickoffs@) is None,
        },
{
    let mut best: Option<i64> = None;
    let mut i: usize = 0;
    while i < kickoffs.len()
        invariant
            i <= kickoffs@.len(),
            forall|q: int| 0 <= q < kickoffs@.len() ==> ((#[trigger] kickoffs@[q]) matches Some(k) ==> valid_instant(k)),
            match best {
                Some(x) => clock_after(kickoffs@.take(i as int)) == Some(x as int) && x <= crate::clock::INSTANT_MAX + 7200,
                None => clock_after(kickoffs@.take(i as int)) is None,
            },
        decreases kickoffs@.len() - i,
    {
        assert(kickoffs@.take(i as int + 1).drop_last() =~= kickoffs@.take(i as int));
        if let Some(k) = kickoffs[i] {
            let c = k + 7200;
            best = match best {
                Some(e) => Some(if c > e { c } else { e }),
                None => Some(c),
            };
        }
        i = i + 1;
    }
    assert(kickoffs@.take(i as int) =~= kickoffs@);
    best
}


/// The simulated clock moves to two hours after the latest kickoff: it is two
/// hours after one of the kickoffs and no earlier than two hours after any;
/// without kickoffs it does not move.
pub proof fn lemma_clock_after_latest_kickoff(s: Seq<Option<i64>>)
    ensures
        match clock_after(s) {
            Some(t) => (exists|i: int| 0 <= i < s.len() && (#[trigger] s[i]) is Some && t == s[i]->0 + 7200)
                && forall|i: int| 0 <= i < s.len() && (#[trigger] s[i]) is Some ==> s[i]->0 + 7200 <= t,
            None => forall|i: int| 0 <= i < s.len() ==> (#[trigger] s[i]) is None,
        },
    decreases s.len(),
{
    if s.len() > 0 {
        let init = s.drop_last();
        lemma_clock_after_latest_kickoff(init);
        assert(s.last() == s[s.len() - 1]);
        assert forall|i: int| 0 <= i < init.len() implies #[trigger] init[i] == s[i] by {}
        match clock_after(s) {
            Some(t) => {
                if s.last() matches Some(k) && (clock_after(init) is None || k + 7200 > clock_after(init)->0) {
                    assert(s[s.len() - 1] is Some && t == s[s.len() - 1]->0 + 7200);
                } else {
                    let w = choose|i: int| 0 <= i < init.len() && (#[trigger] init[i]) is Some && clock_after(init)->0 == init[i]->0 + 7200;
                    assert(s[w] == init[w]);
                }
                assert forall|i: int| 0 <= i < s.len() && (#[trigger] s[i]) is Some implies s[i]->0 + 7200 <= t by {
                    if i < init.len() {
                        assert(init[i] == s[i]);
                    }
                }
            },
            None => {
                assert forall|i: int| 0 <= i < s.len() implies (#[trigger] s[i]) is None by {
                    if i < init.len() {
                        assert(init[i] == s[i]);
                    }
                }
            },
        }
    }
}

} // verus!
