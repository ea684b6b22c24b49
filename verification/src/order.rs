//! Stable sorting by insertion, as the tables, lists and recaps order their
//! lines.
//!
//! `le(a, b)` says that `a` may stand before `b`. Each element is inserted
//! after every element already placed that may stand before it, so equal
//! elements keep their order.

use vstd::prelude::*;

verus! {

broadcast use vstd::seq_lib::group_seq_properties;

/// Number of elements of `t` that may stand before `x`.
pub open spec fn count_by<A>(t: Seq<A>, x: A, le: spec_fn(A, A) -> bool) -> nat
    decreases t.len(),
{
    if t.len() == 0 {
        0
    } else {
        count_by(t.drop_last(), x, le) + if le(t.last(), x) { 1nat } else { 0nat }
    }
}

/// `s` sorted by insertion: each element after every earlier-placed element
/// that may stand before it.
pub open spec fn sort_by<A>(s: Seq<A>, le: spec_fn(A, A) -> bool) -> Seq<A>
    decreases s.len(),
{
    if s.len() == 0 {
        s
    } else {
        let t = sort_by(s.drop_last(), le);
        t.insert(count_by(t, s.last(), le) as int, s.last())
    }
}

/// `le` is total and transitive.
pub open spec fn total_preorder<A>(le: spec_fn(A, A) -> bool) -> bool {
    &&& forall|a: A, b: A| #[trigger] le(a, b) || le(b, a)
    &&& forall|a: A, b: A, c: A| #[trigger] le(a, b) && #[trigger] le(b, c) ==> le(a, c)
}

/// Every element may stand before every later one.
pub open spec fn sorted_by<A>(s: Seq<A>, le: spec_fn(A, A) -> bool) -> bool {
    forall|i: int, j: int| 0 <= i < j < s.len() ==> le(#[trigger] s[i], #[trigger] s[j])
}

proof fn lemma_count_by_bound<A>(t: Seq<A>, x: A, le: spec_fn(A, A) -> bool)
    ensures
        count_by(t, x, le) <= t.len(),
    decreases t.len(),
{
    if t.len() > 0 {
        lemma_count_by_bound(t.drop_last(), x, le);
    }
}

/// In a sorted sequence the elements that may stand before `x` come first.
proof fn lemma_count_by_prefix<A>(t: Seq<A>, x: A, le: spec_fn(A, A) -> bool)
    requires
        total_preorder(le),
        sorted_by(t, le),
    ensures
        count_by(t, x, le) <= t.len(),
        forall|k: int| 0 <= k < count_by(t, x, le) ==> le(#[trigger] t[k], x),
        forall|k: int| count_by(t, x, le) <= k < t.len() ==> !le(#[trigger] t[k], x),
    decreases t.len(),
{
    lemma_count_by_bound(t, x, le);
    if t.len() > 0 {
        let init = t.drop_last();
        assert(sorted_by(init, le)) by {
            assert forall|i: int, j: int| 0 <= i < j < init.len() implies le(#[trigger] init[i], #[trigger] init[j]) by {
                assert(init[i] == t[i] && init[j] == t[j]);
            }
        }
        lemma_count_by_prefix(init, x, le);
        let c = count_by(init, x, le);
        if le(t.last(), x) {
            assert forall|k: int| 0 <= k < init.len() implies le(#[trigger] init[k], x) by {
                assert(init[k] == t[k]);
                assert(le(t[k], t[t.len() - 1]));
            }
            if c < init.len() {
                assert(le(init[c as int], x));
            }
            assert forall|k: int| 0 <= k < count_by(t, x, le) implies le(#[trigger] t[k], x) by {
                if k < init.len() {
                    assert(init[k] == t[k]);
                }
            }
        } else {
            assert forall|k: int| 0 <= k < count_by(t, x, le) implies le(#[trigger] t[k], x) by {
                assert(init[k] == t[k]);
            }
            assert forall|k: int| count_by(t, x, le) <= k < t.len() implies !le(#[trigger] t[k], x) by {
                if k < init.len() {
                    assert(init[k] == t[k]);
                }
            }
        }
    }
}

/// Sorting by insertion sorts, and keeps every element exactly once.
pub proof fn lemma_sort_by<A>(s: Seq<A>, le: spec_fn(A, A) -> bool)
    requires
        total_preorder(le),
    ensures
        sorted_by(sort_by(s, le), le),
        sort_by(s, le).to_multiset() == s.to_multiset(),
        sort_by(s, le).len() == s.len(),
    decreases s.len(),
{
    broadcast use vstd::seq_lib::to_multiset_insert, vstd::seq_lib::to_multiset_build;
    if s.len() > 0 {
        let t = sort_by(s.drop_last(), le);
        let x = s.last();
        lemma_sort_by(s.drop_last(), le);
        lemma_count_by_prefix(t, x, le);
        let c = count_by(t, x, le) as int;
        let r = t.insert(c, x);
        assert forall|i: int, j: int| 0 <= i < j < r.len() implies le(#[trigger] r[i], #[trigger] r[j]) by {
            if j < c {
                assert(r[i] == t[i] && r[j] == t[j]);
            } else if j == c {
                assert(r[i] == t[i]);
            } else if i < c {
                assert(r[i] == t[i] && r[j] == t[j - 1]);
            } else if i == c {
                assert(r[j] == t[j - 1]);
                assert(!le(t[j - 1], x));
            } else {
                assert(r[i] == t[i - 1] && r[j] == t[j - 1]);
            }
        }
        assert(s =~= s.drop_last().push(x));
    }
}

} // verus!
