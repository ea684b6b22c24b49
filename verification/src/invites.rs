//! Invite links, held in memory: each carries a secret token that lets new
//! players join one league, until it is revoked.

use vstd::prelude::*;

use crate::order::{count_by, lemma_sort_by, sort_by, sorted_by, total_preorder};
use crate::store::{str_opt, string_opt};
use crate::text::{owned, str_eq};

verus! {

broadcast use vstd::seq_lib::group_seq_properties;

/// An invite link. Instants are seconds since the Unix epoch.
#[derive(Debug, Clone)]
pub struct InviteLink {
    pub id: u128,
    /// Players who join through this link land in this league.
    pub league_id: u128,
    /// Secret carried in the public join URL.
    pub token: String,
    /// Optional note telling several links apart.
    pub label: Option<String>,
    pub created_at: i64,
}

/// Value of an invite link.
pub struct LinkView {
    pub id: u128,
    pub league_id: u128,
    pub token: Seq<char>,
    pub label: Option<Seq<char>>,
    pub created_at: i64,
}

impl View for InviteLink {
    type V = LinkView;

    open spec fn view(&self) -> LinkView {
        LinkView {
            id: self.id,
            league_id: self.league_id,
            token: self.token@,
            label: string_opt(self.label),
            created_at: self.created_at,
        }
    }
}

/// Values of invite links.
pub open spec fn link_views(s: Seq<InviteLink>) -> Seq<LinkView> {
    s.map_values(|l: InviteLink| l@)
}

/// The links of a league, in order of creation.
pub open spec fn links_of(ls: Seq<LinkView>, league: u128) -> Seq<LinkView>
    decreases ls.len(),
{
    if ls.len() == 0 {
        Seq::empty()
    } else {
        let r = links_of(ls.drop_last(), league);
        if ls.last().league_id == league { r.push(ls.last()) } else { r }
    }
}

/// Newest first; links created at the same instant keep their order.
pub open spec fn newest_le() -> spec_fn(LinkView, LinkView) -> bool {
    |a: LinkView, b: LinkView| a.created_at >= b.created_at
}

/// Index of the first link with that token.
pub open spec fn find_token(ls: Seq<LinkView>, token: Seq<char>) -> Option<int>
    decreases ls.len(),
{
    if ls.len() == 0 {
        None
    } else {
        match find_token(ls.drop_last(), token) {
            Some(i) => Some(i),
            None => if ls.last().token == token { Some(ls.len() - 1) } else { None },
        }
    }
}

/// Index of the first link with that id.
pub open spec fn find_link(ls: Seq<LinkView>, id: u128) -> Option<int>
    decreases ls.len(),
{
    if ls.len() == 0 {
        None
    } else {
        match find_link(ls.drop_last(), id) {
            Some(i) => Some(i),
            None => if ls.last().id == id { Some(ls.len() - 1) } else { None },
        }
    }
}

/// The links without that id.
pub open spec fn without_link(ls: Seq<LinkView>, id: u128) -> Seq<LinkView>
    decreases ls.len(),
{
    if ls.len() == 0 {
        Seq::empty()
    } else {
        let r = without_link(ls.drop_last(), id);
        if ls.last().id != id { r.push(ls.last()) } else { r }
    }
}

fn copy_link(l: &InviteLink) -> (c: InviteLink)
    ensures
        c == *l,
{
    InviteLink {
        id: l.id,
        league_id: l.league_id,
        token: l.token.clone(),
        label: match &l.label {
            Some(x) => Some(x.clone()),
            None => None,
        },
        created_at: l.created_at,
    }
}

/// The invite links, held in memory.
pub struct MemoryInviteRepo {
    links: Vec<InviteLink>,
}

impl MemoryInviteRepo {
    /// The links, in order of creation.
    pub closed spec fn links(&self) -> Seq<LinkView> {
        link_views(self.links@)
    }

    /// No links.
    pub fn new() -> (r: Self)
        ensures
            r.links() == Seq::<LinkView>::empty(),
    {
        let r = MemoryInviteRepo { links: Vec::new() };
        assert(link_views(r.links@) =~= Seq::<LinkView>::empty());
        r
    }

    /// Creates a link for a league under a fresh random id, stamped with the
    /// current time, and returns the id.
    pub fn create(&mut self, league_id: u128, token: &str, label: Option<&str>) -> (id: u128)
        ensures
            final(self).links().len() == old(self).links().len() + 1,
            final(self).links().drop_last() == old(self).links(),
            final(self).links().last().id == id,
            final(self).links().last().league_id == league_id,
            final(self).links().last().token == token@,
            final(self).links().last().label == str_opt(label),
    {
        let id = crate::util::fresh_id();
        let created_at = crate::clock::now_timestamp();
        let link = InviteLink {
            id,
            league_id,
            token: owned(token),
            label: match label {
                Some(x) => Some(owned(x)),
                None => None,
            },
            created_at,
        };
        self.links.push(link);
        assert(link_views(self.links@) =~= link_views(old(self).links@).push(link@));
        id
    }

    /// The league's links, newest first.
    pub fn list_for_league(&self, league_id: u128) -> (out: Vec<InviteLink>)
        ensures
            link_views(out@) == sort_by(links_of(self.links(), league_id), newest_le()),
    {
        let ghost ls = self.links();
        let mut out: Vec<InviteLink> = Vec::new();
        let mut j: usize = 0;
        while j < self.links.len()
            invariant
                j <= self.links@.len(),
                ls == self.links(),
                ls.len() == self.links@.len(),
                link_views(out@) == sort_by(links_of(ls.take(j as int), league_id), newest_le()),
            decreases self.links@.len() - j,
        {
            assert(ls.take(j as int + 1).drop_last() =~= ls.take(j as int));
            let l = &self.links[j];
            if l.league_id == league_id {
                let ghost base = links_of(ls.take(j as int), league_id);
                assert(base.push(l@).drop_last() =~= base);
                let ghost vs = link_views(out@);
                let mut cnt: usize = 0;
                let mut k: usize = 0;
                while k < out.len()
                    invariant
                        k <= out@.len(),
                        vs == link_views(out@),
                        vs.len() == out@.len(),
                        cnt <= k,
                        cnt == count_by(vs.take(k as int), l@, newest_le()),
                    decreases out@.len() - k,
                {
                    assert(vs.take(k as int + 1).drop_last() =~= vs.take(k as int));
                    if out[k].created_at >= l.created_at {
                        cnt = cnt + 1;
                    }
                    k = k + 1;
                }
                assert(vs.take(k as int) =~= vs);
                out.insert(cnt, copy_link(l));
                assert(link_views(out@) =~= vs.insert(cnt as int, l@));
            }
            j = j + 1;
        }
        assert(ls.take(j as int) =~= ls);
        out
    }

    /// The first link with that token; `None` for an unknown or revoked one.
    pub fn find_by_token(&self, token: &str) -> (r: Option<InviteLink>)
        ensures
            r is Some <==> find_token(self.links(), token@) is Some,
            r matches Some(l) ==> l@ == self.links()[find_token(self.links(), token@).unwrap()],
    {
        let ghost ls = self.links();
        let mut i: usize = 0;
        while i < self.links.len()
            invariant
                i <= self.links@.len(),
                ls == self.links(),
                ls.len() == self.links@.len(),
                find_token(ls.take(i as int), token@) is None,
            decreases self.links@.len() - i,
        {
            assert(ls.take(i as int + 1).drop_last() =~= ls.take(i as int));
            if str_eq(self.links[i].token.as_str(), token) {
                proof { lemma_find_token_prefix(ls, token@, i as int + 1); }
                return Some(copy_link(&self.links[i]));
            }
            i = i + 1;
        }
        assert(ls.take(i as int) =~= ls);
        None
    }

    /// The first link with that id.
    pub fn find_by_id(&self, id: u128) -> (r: Option<InviteLink>)
        ensures
            r is Some <==> find_link(self.links(), id) is Some,
            r matches Some(l) ==> l@ == self.links()[find_link(self.links(), id).unwrap()],
    {
        let ghost ls = self.links();
        let mut i: usize = 0;
        while i < self.links.len()
            invariant
                i <= self.links@.len(),
                ls == self.links(),
                ls.len() == self.links@.len(),
                find_link(ls.take(i as int), id) is None,
            decreases self.links@.len() - i,
        {
            assert(ls.take(i as int + 1).drop_last() =~= ls.take(i as int));
            if self.links[i].id == id {
                proof { lemma_find_link_prefix(ls, id, i as int + 1); }
                return Some(copy_link(&self.links[i]));
            }
            i = i + 1;
        }
        assert(ls.take(i as int) =~= ls);
        None
    }

    /// Revokes every link with that id.
    pub fn delete(&mut self, id: u128)
        ensures
            final(self).links() == without_link(old(self).links(), id),
    {
        let ghost ls = self.links();
        let mut kept: Vec<InviteLink> = Vec::new();
        let mut i: usize = 0;
        while i < self.links.len()
            invariant
                i <= self.links@.len(),
                ls == self.links(),
                ls == old(self).links(),
                ls.len() == self.links@.len(),
                link_views(kept@) == without_link(ls.take(i as int), id),
            decreases self.links@.len() - i,
        {
            assert(ls.take(i as int + 1).drop_last() =~= ls.take(i as int));
            if self.links[i].id != id {
                let ghost before = kept@;
                kept.push(copy_link(&self.links[i]));
                assert(link_views(kept@) =~= link_views(before).push(ls[i as int]));
            }
            i = i + 1;
        }
        assert(ls.take(i as int) =~= ls);
        self.links = kept;
    }
}

proof fn lemma_find_token_prefix(ls: Seq<LinkView>, token: Seq<char>, n: int)
    requires
        0 <= n <= ls.len(),
        find_token(ls.take(n), token) is Some,
    ensures
        find_token(ls, token) == find_token(ls.take(n), token),
    decreases ls.len() - n,
{
    if n < ls.len() {
        assert(ls.take(n + 1).drop_last() =~= ls.take(n));
        lemma_find_token_prefix(ls, token, n + 1);
    } else {
        assert(ls.take(n) =~= ls);
    }
}

proof fn lemma_find_link_prefix(ls: Seq<LinkView>, id: u128, n: int)
    requires
        0 <= n <= ls.len(),
        find_link(ls.take(n), id) is Some,
    ensures
        find_link(ls, id) == find_link(ls.take(n), id),
    decreases ls.len() - n,
{
    if n < ls.len() {
        assert(ls.take(n + 1).drop_last() =~= ls.take(n));
        lemma_find_link_prefix(ls, id, n + 1);
    } else {
        assert(ls.take(n) =~= ls);
    }
}

/// A revoked link is gone: no link with its id remains, and a token only
/// the revoked link carried stops working.
pub proof fn lemma_revoked_link_gone(ls: Seq<LinkView>, id: u128, token: Seq<char>)
    requires
        forall|i: int| 0 <= i < ls.len() && (#[trigger] ls[i]).token == token ==> ls[i].id == id,
    ensures
        find_link(without_link(ls, id), id) is None,
        find_token(without_link(ls, id), token) is None,
    decreases ls.len(),
{
    if ls.len() > 0 {
        assert forall|i: int| 0 <= i < ls.drop_last().len() && (#[trigger] ls.drop_last()[i]).token == token implies ls.drop_last()[i].id == id by {
            assert(ls.drop_last()[i] == ls[i]);
        }
        lemma_revoked_link_gone(ls.drop_last(), id, token);
        assert(ls[ls.len() - 1] == ls.last());
        let r = without_link(ls.drop_last(), id);
        assert(r.push(ls.last()).drop_last() =~= r);
    }
}

/// The league's list holds exactly its links, newest first.
pub proof fn lemma_league_links_newest_first(ls: Seq<LinkView>, league: u128)
    ensures
        sorted_by(sort_by(links_of(ls, league), newest_le()), newest_le()),
        sort_by(links_of(ls, league), newest_le()).to_multiset() == links_of(ls, league).to_multiset(),
        forall|i: int| 0 <= i < links_of(ls, league).len() ==> (#[trigger] links_of(ls, league)[i]).league_id == league,
{
    assert(total_preorder(newest_le()));
    lemma_sort_by(links_of(ls, league), newest_le());
    lemma_links_of(ls, league);
}

proof fn lemma_links_of(ls: Seq<LinkView>, league: u128)
    ensures
        forall|i: int| 0 <= i < links_of(ls, league).len() ==> (#[trigger] links_of(ls, league)[i]).league_id == league,
    decreases ls.len(),
{
    if ls.len() > 0 {
        lemma_links_of(ls.drop_last(), league);
    }
}

} // verus!
