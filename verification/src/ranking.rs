//! Standings ranking shared by the leaderboard and the matchday recaps.
//!
//! Standard competition ranking ("1224"): players with equal points share a
//! rank, and the next lower score is pushed down by the number of players tied
//! above it. For scores `[10, 10, 8, 5]` the ranks are `1, 1, 3, 4`.

use vstd::prelude::*;
use vstd::multiset::Multiset;

verus! {

broadcast use vstd::seq_lib::group_seq_properties;

/// Number of scores in `s` strictly above `x`.
pub open spec fn count_above(s: Seq<i32>, x: int) -> nat
    decreases s.len(),
{
    if s.len() == 0 {
        0
    } else {
        count_above(s.drop_last(), x) + if s.last() > x { 1nat } else { 0nat }
    }
}

/// Standard competition rank of a score among all scores.
pub open spec fn competition_rank_of(points: int, all_points: Seq<i32>) -> int {
    1 + count_above(all_points, points) as int
}

/// 1-based standard competition rank of a player holding `points`, given every
/// score in the standings (`all_points`, the player's own score included).
/// Returns `1` when no one scores higher.
pub fn competition_rank(points: i32, all_points: &[i32]) -> (rank: i32)
    requires
        all_points@.len() < i32::MAX,
    ensures
        rank as int == competition_rank_of(points as int, all_points@),
{
    let mut higher: i32 = 0;
    let mut i: usize = 0;
    while i < all_points.len()
        invariant
            i <= all_points@.len(),
            all_points@.len() < i32::MAX,
            higher as int == count_above(all_points@.take(i as int), points as int),
            higher <= i,
        decreases all_points@.len() - i,
    {
        assert(all_points@.take(i as int + 1).drop_last() =~= all_points@.take(i as int));
        if all_points[i] > points {
            higher = higher + 1;
        }
        i = i + 1;
    }
    assert(all_points@.take(i as int) =~= all_points@);
    1 + higher
}

// ─── Laws ─────────────────────────────────────────────────────────────────────

/// The count of higher scores only depends on the multiset of scores.
pub proof fn lemma_count_above_is_multiset_count(s: Seq<i32>, x: int)
    ensures
        count_above(s, x) == s.to_multiset().filter(|p: i32| p > x).len(),
    decreases s.len(),
{
    broadcast use vstd::multiset::group_multiset_axioms;
    let f = |p: i32| p > x;
    if s.len() == 0 {
        assert(s.to_multiset() =~= Multiset::empty());
        assert(Multiset::<i32>::empty().filter(f) =~= Multiset::empty());
    } else {
        let init = s.drop_last();
        let l = s.last();
        lemma_count_above_is_multiset_count(init, x);
        assert(s =~= init.push(l));
        init.to_multiset_ensures();
        assert(s.to_multiset() =~= init.to_multiset().insert(l));
        if f(l) {
            assert(init.to_multiset().insert(l).filter(f) =~= init.to_multiset().filter(f).insert(l));
        } else {
            assert(init.to_multiset().insert(l).filter(f) =~= init.to_multiset().filter(f));
        }
    }
}

/// The rank does not depend on the order in which the scores are listed.
pub proof fn lemma_rank_order_independent(points: int, a: Seq<i32>, b: Seq<i32>)
    requires
        a.to_multiset() == b.to_multiset(),
    ensures
        competition_rank_of(points, a) == competition_rank_of(points, b),
{
    lemma_count_above_is_multiset_count(a, points);
    lemma_count_above_is_multiset_count(b, points);
}

/// More points never give a worse rank.
pub proof fn lemma_rank_monotone(p: int, q: int, all: Seq<i32>)
    requires
        p <= q,
    ensures
        competition_rank_of(q, all) <= competition_rank_of(p, all),
    decreases all.len(),
{
    if all.len() > 0 {
        lemma_rank_monotone(p, q, all.drop_last());
    }
}

/// Ranks run from 1 up to the number of players: no one ranks below the
/// number of listed scores when their own score is among them.
pub proof fn lemma_rank_bounds(points: int, all: Seq<i32>)
    requires
        all.contains(points as i32),
        i32::MIN <= points <= i32::MAX,
    ensures
        1 <= competition_rank_of(points, all) <= all.len(),
    decreases all.len(),
{
    let init = all.drop_last();
    if all.last() == points as i32 {
        lemma_count_above_le_len(init, points);
    } else {
        let k = choose|k: int| 0 <= k < all.len() && all[k] == points as i32;
        assert(init[k] == points as i32);
        lemma_rank_bounds(points, init);
    }
}

/// At most every score is above a given value.
pub proof fn lemma_count_above_le_len(s: Seq<i32>, x: int)
    ensures
        count_above(s, x) <= s.len(),
    decreases s.len(),
{
    if s.len() > 0 {
        lemma_count_above_le_len(s.drop_last(), x);
    }
}

/// A strictly higher score ranks strictly better: the player above is never
/// counted against themself.
pub proof fn lemma_higher_score_strictly_better(p: int, q: int, all: Seq<i32>)
    requires
        p < q,
        all.contains(q as i32),
        i32::MIN <= q <= i32::MAX,
    ensures
        competition_rank_of(q, all) < competition_rank_of(p, all),
    decreases all.len(),
{
    let init = all.drop_last();
    lemma_rank_monotone(p, q, init);
    if all.last() != q as i32 {
        let k = choose|k: int| 0 <= k < all.len() && all[k] == q as i32;
        assert(init[k] == q as i32);
        lemma_higher_score_strictly_better(p, q, init);
    }
}

} // verus!
