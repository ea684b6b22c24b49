//! The news box: recent entries of the league's RSS or Atom feed.
//!
//! Entries older than 72 hours, without a title or without a link are left
//! out; the rest are listed newest first with their age in words.

use vstd::prelude::*;

use crate::clock::valid_instant;
use crate::order::{count_by, lemma_sort_by, sort_by, sorted_by, total_preorder};
use crate::text::{
    append_chars, chars_of, i64_decimal, lemma_lex_lt_total, lemma_lex_lt_transitive, lex_lt, owned, signed_decimal_of,
    str_less, string_of, trim, trim_of,
};

verus! {

broadcast use vstd::seq_lib::group_seq_properties;

/// How long fetched items are reused, in seconds.
pub const CACHE_TTL_SECS: u64 = 300;

/// Oldest entry shown, in hours before now.
pub const MAX_AGE_HOURS: i64 = 72;

/// One entry of the news box.
#[derive(Debug, Clone)]
pub struct NewsItem {
    pub title: String,
    pub link: String,
    pub published_iso: String,
    pub published_relative: String,
}

/// What the feed says of one entry: title text, link targets, and when it
/// was published and last updated (seconds since the epoch).
#[derive(Debug, Clone)]
pub struct FeedEntry {
    pub title: Option<String>,
    pub links: Vec<String>,
    pub published: Option<i64>,
    pub updated: Option<i64>,
}

/// Value of a feed entry.
pub struct EntryView {
    pub title: Option<Seq<char>>,
    pub links: Seq<Seq<char>>,
    pub published: Option<i64>,
    pub updated: Option<i64>,
}

impl View for FeedEntry {
    type V = EntryView;

    open spec fn view(&self) -> EntryView {
        EntryView {
            title: match self.title {
                Some(t) => Some(t@),
                None => None,
            },
            links: self.links@.map_values(|l: String| l@),
            published: self.published,
            updated: self.updated,
        }
    }
}

/// The entries `feed-rs` reads from a document, if it is a feed.
pub uninterp spec fn feed_entries_of(bytes: Seq<u8>) -> Option<Seq<EntryView>>;

/// RFC 3339 rendering (`+00:00` offset) of an instant, if it is one.
pub uninterp spec fn rfc3339_of(ts: i64) -> Option<Seq<char>>;

/// Values of feed entries.
pub open spec fn entry_views(v: Seq<FeedEntry>) -> Seq<EntryView> {
    v.map_values(|e: FeedEntry| e@)
}

/// The entries of a feed document.
///
/// Trusted: wraps `feed_rs::parser::parse`, keeping of every entry the
/// title's text content, the links' targets, and the `published` and
/// `updated` times as timestamps; claims only that this is the named
/// `feed_entries_of` of the bytes, `None` where the parser fails.
#[verifier::external_body]
fn parse_feed(bytes: &[u8]) -> (r: Option<Vec<FeedEntry>>)
    ensures
        match r {
            Some(v) => feed_entries_of(bytes@) == Some(entry_views(v@)),
            None => feed_entries_of(bytes@) is None,
        },
{
    let feed = feed_rs::parser::parse(bytes).ok()?;
    Some(feed.entries.into_iter().map(|e| FeedEntry {
        title: e.title.map(|t| t.content),
        links: e.links.into_iter().map(|l| l.href).collect(),
        published: e.published.map(|d| d.timestamp()),
        updated: e.updated.map(|d| d.timestamp()),
    }).collect())
}

/// RFC 3339 rendering of an instant.
///
/// Trusted: wraps `DateTime::from_timestamp` and `to_rfc3339`; claims only
/// that the result is the named `rfc3339_of`, `None` where `from_timestamp`
/// fails.
#[verifier::external_body]
fn rfc3339(ts: i64) -> (r: Option<String>)
    ensures
        match r {
            Some(s) => rfc3339_of(ts) == Some(s@),
            None => rfc3339_of(ts) is None,
        },
{
    chrono::DateTime::from_timestamp(ts, 0).map(|d| d.to_rfc3339())
}

/// Whether items fetched that many seconds ago are still reused.
pub fn cache_is_fresh(age_secs: u64) -> (b: bool)
    ensures
        b == (age_secs < CACHE_TTL_SECS),
{
    age_secs < CACHE_TTL_SECS
}

/// How long ago an instant was, in words: `gerade` under a minute (and for
/// the future), else whole minutes, hours or days (`vor 5m`, `vor 3h`,
/// `vor 2d`).
pub open spec fn relative_of(t: i64, now: i64) -> Seq<char> {
    let secs = if now - t > 0 { now - t } else { 0 };
    if secs < 60 {
        "gerade"@
    } else if secs / 60 < 60 {
        "vor "@ + signed_decimal_of(secs / 60) + "m"@
    } else if secs / 3600 < 24 {
        "vor "@ + signed_decimal_of(secs / 3600) + "h"@
    } else {
        "vor "@ + signed_decimal_of(secs / 86400) + "d"@
    }
}

fn age_label(amount: i64, unit: &str) -> (s: String)
    requires
        amount >= 0,
    ensures
        s@ == "vor "@ + signed_decimal_of(amount as int) + unit@,
{
    let mut v = chars_of("vor ");
    let d = i64_decimal(amount);
    append_chars(&mut v, &d);
    crate::text::append_str(&mut v, unit);
    string_of(&v)
}

/// How long ago `t` was at `now`, in words.
pub fn relative_time(t: i64, now: i64) -> (s: String)
    ensures
        s@ == relative_of(t, now),
{
    let diff: i128 = now as i128 - t as i128;
    let secs: i128 = if diff > 0 { diff } else { 0 };
    if secs < 60 {
        return owned("gerade");
    }
    let mins = secs / 60;
    if mins < 60 {
        return age_label(mins as i64, "m");
    }
    let hours = mins / 60;
    assert(hours == secs / 3600) by (nonlinear_arith)
        requires
            mins == secs / 60,
            hours == mins / 60,
            secs >= 0,
    ;
    if hours < 24 {
        return age_label(hours as i64, "h");
    }
    let days = hours / 24;
    assert(days == secs / 86400) by (nonlinear_arith)
        requires
            hours == secs / 3600,
            days == hours / 24,
            secs >= 0,
    ;
    assert(days <= 0x7fff_ffff_ffff_ffff);
    age_label(days as i64, "d")
}

/// Value of a news item.
pub struct ItemView {
    pub title: Seq<char>,
    pub link: Seq<char>,
    pub published_iso: Seq<char>,
    pub published_relative: Seq<char>,
}

impl View for NewsItem {
    type V = ItemView;

    open spec fn view(&self) -> ItemView {
        ItemView {
            title: self.title@,
            link: self.link@,
            published_iso: self.published_iso@,
            published_relative: self.published_relative@,
        }
    }
}

/// The first non-empty link target.
pub open spec fn first_link(links: Seq<Seq<char>>) -> Option<Seq<char>>
    decreases links.len(),
{
    if links.len() == 0 {
        None
    } else if links[0].len() > 0 {
        Some(links[0])
    } else {
        first_link(links.drop_first())
    }
}

/// The item an entry gives at `now`, if it is shown: published (or, without
/// a publication time, updated) within the last 72 hours, with a non-empty
/// title and a non-empty link.
pub open spec fn item_of(e: EntryView, now: i64) -> Option<ItemView> {
    let when = match e.published {
        Some(p) => Some(p),
        None => e.updated,
    };
    match when {
        None => None,
        Some(t) => {
            let title = trim_of(match e.title {
                Some(x) => x,
                None => Seq::empty(),
            });
            if t < now - MAX_AGE_HOURS * 3600 || title.len() == 0 {
                None
            } else {
                match first_link(e.links) {
                    None => None,
                    Some(link) => Some(ItemView {
                        title,
                        link,
                        published_iso: match rfc3339_of(t) {
                            Some(s) => s,
                            None => Seq::empty(),
                        },
                        published_relative: relative_of(t, now),
                    }),
                }
            }
        },
    }
}

/// The shown items of the entries, in entry order.
pub open spec fn items_of(es: Seq<EntryView>, now: i64) -> Seq<ItemView>
    decreases es.len(),
{
    if es.len() == 0 {
        Seq::empty()
    } else {
        let t = items_of(es.drop_last(), now);
        match item_of(es.last(), now) {
            Some(i) => t.push(i),
            None => t,
        }
    }
}

/// Newest first: an item may stand before another unless its timestamp
/// text sorts before the other's.
pub open spec fn newest_first() -> spec_fn(ItemView, ItemView) -> bool {
    |a: ItemView, b: ItemView| !lex_lt(a.published_iso, b.published_iso)
}

/// The news box of a feed's entries at `now`.
pub open spec fn news_of(es: Seq<EntryView>, now: i64) -> Seq<ItemView> {
    sort_by(items_of(es, now), newest_first())
}

/// Values of news items.
pub open spec fn item_views(v: Seq<NewsItem>) -> Seq<ItemView> {
    v.map_values(|i: NewsItem| i@)
}

fn first_link_of(links: &Vec<String>) -> (r: Option<String>)
    ensures
        match r {
            Some(l) => first_link(links@.map_values(|l: String| l@)) == Some(l@),
            None => first_link(links@.map_values(|l: String| l@)) is None,
        },
{
    let ghost ls = links@.map_values(|l: String| l@);
    let mut i: usize = 0;
    while i < links.len()
        invariant
            i <= links@.len(),
            ls == links@.map_values(|l: String| l@),
            first_link(ls) == first_link(ls.subrange(i as int, ls.len() as int)),
        decreases links@.len() - i,
    {
        let ghost rest = ls.subrange(i as int, ls.len() as int);
        assert(rest[0] == links@[i as int]@);
        if !links[i].as_str().is_empty() {
            return Some(links[i].clone());
        }
        assert(rest.drop_first() =~= ls.subrange(i as int + 1, ls.len() as int));
        i = i + 1;
    }
    assert(ls.subrange(i as int, ls.len() as int) =~= Seq::<Seq<char>>::empty());
    None
}

/// The item an entry gives at `now`, if it is shown.
fn news_item(e: &FeedEntry, now: i64) -> (r: Option<NewsItem>)
    requires
        valid_instant(now),
    ensures
        match r {
            Some(i) => item_of(e@, now) == Some(i@),
            None => item_of(e@, now) is None,
        },
{
    let when = match e.published {
        Some(p) => p,
        None => match e.updated {
            Some(u) => u,
            None => {
                return None;
            },
        },
    };
    let title_chars = match &e.title {
        Some(t) => chars_of(t.as_str()),
        None => Vec::new(),
    };
    let title_trimmed = trim(&title_chars);
    if when < now - MAX_AGE_HOURS * 3600 || title_trimmed.len() == 0 {
        return None;
    }
    let link = match first_link_of(&e.links) {
        Some(l) => l,
        None => {
            return None;
        },
    };
    let published_iso = match rfc3339(when) {
        Some(s) => s,
        None => String::new(),
    };
    Some(NewsItem {
        title: string_of(&title_trimmed),
        link,
        published_iso,
        published_relative: relative_time(when, now),
    })
}

/// The news box of a list of feed entries at `now`.
pub fn news_items(entries: &Vec<FeedEntry>, now: i64) -> (items: Vec<NewsItem>)
    requires
        valid_instant(now),
    ensures
        item_views(items@) == news_of(entry_views(entries@), now),
{
    let ghost es = entry_views(entries@);
    let mut items: Vec<NewsItem> = Vec::new();
    let mut i: usize = 0;
    while i < entries.len()
        invariant
            i <= entries@.len(),
            valid_instant(now),
            es == entry_views(entries@),
            item_views(items@) == sort_by(items_of(es.take(i as int), now), newest_first()),
        decreases entries@.len() - i,
    {
        assert(es.take(i as int + 1).drop_last() =~= es.take(i as int));
        assert(es.take(i as int + 1).last() == entries@[i as int]@);
        match news_item(&entries[i], now) {
            Some(item) => {
                let ghost base = items_of(es.take(i as int), now);
                assert(base.push(item@).drop_last() =~= base);
                let ghost lines = item_views(items@);
                let mut cnt: usize = 0;
                let mut k: usize = 0;
                while k < items.len()
                    invariant
                        k <= items@.len(),
                        lines == item_views(items@),
                        cnt <= k,
                        cnt == count_by(lines.take(k as int), item@, newest_first()),
                    decreases items@.len() - k,
                {
                    assert(lines.take(k as int + 1).drop_last() =~= lines.take(k as int));
                    if !str_less(items[k].published_iso.as_str(), item.published_iso.as_str()) {
                        cnt = cnt + 1;
                    }
                    k = k + 1;
                }
                assert(lines.take(k as int) =~= lines);
                let ghost iv = item@;
                items.insert(cnt, item);
                assert(item_views(items@) =~= lines.insert(cnt as int, iv));
            },
            None => {},
        }
        i = i + 1;
    }
    assert(es.take(i as int) =~= es);
    items
}

/// The news box of a fetched feed document at `now`; nothing when the
/// document is not a feed.
pub fn news_from_feed(bytes: &[u8], now: i64) -> (items: Vec<NewsItem>)
    requires
        valid_instant(now),
    ensures
        item_views(items@) == match feed_entries_of(bytes@) {
            Some(es) => news_of(es, now),
            None => Seq::empty(),
        },
{
    match parse_feed(bytes) {
        Some(entries) => news_items(&entries, now),
        None => {
            let v: Vec<NewsItem> = Vec::new();
            assert(item_views(v@) =~= Seq::<ItemView>::empty());
            v
        },
    }
}

// ─── Cache ────────────────────────────────────────────────────────────────────

fn copy_items(v: &Vec<NewsItem>) -> (c: Vec<NewsItem>)
    ensures
        c@ == v@,
{
    let mut c: Vec<NewsItem> = Vec::new();
    let mut i: usize = 0;
    while i < v.len()
        invariant
            i <= v@.len(),
            c@ == v@.take(i as int),
        decreases v@.len() - i,
    {
        let it = &v[i];
        c.push(NewsItem {
            title: it.title.clone(),
            link: it.link.clone(),
            published_iso: it.published_iso.clone(),
            published_relative: it.published_relative.clone(),
        });
        assert(c@ =~= v@.take(i as int + 1));
        i = i + 1;
    }
    assert(v@.take(i as int) =~= v@);
    c
}

/// Seconds since `fetched_at` at `now`; none when the clock went back.
pub open spec fn age_of(fetched_at: i64, now: i64) -> int {
    if now > fetched_at { now - fetched_at } else { 0 }
}

/// The news of the last fetch, with the feed it comes from. Instants are
/// seconds on a clock that only moves forward.
pub struct NewsCache {
    feed_url: Option<String>,
    fetched_at: Option<i64>,
    items: Vec<NewsItem>,
}

impl NewsCache {
    /// The feed, if one is configured.
    pub closed spec fn feed(&self) -> Option<Seq<char>> {
        match self.feed_url {
            Some(u) => Some(u@),
            None => None,
        }
    }

    /// When the kept items were fetched, if ever.
    pub closed spec fn last_fetch(&self) -> Option<i64> {
        self.fetched_at
    }

    /// The items of the last successful fetch.
    pub closed spec fn kept(&self) -> Seq<NewsItem> {
        self.items@
    }

    /// A cache for the configured feed (trimmed; a blank setting means no
    /// feed), holding nothing yet.
    pub fn from_setting(feed_url: Option<String>) -> (c: NewsCache)
        ensures
            c.feed() == match feed_url {
                Some(u) => if trim_of(u@).len() > 0 { Some(trim_of(u@)) } else { None },
                None => None,
            },
            c.last_fetch() is None,
            c.kept() == Seq::<NewsItem>::empty(),
    {
        let url = match feed_url {
            Some(u) => {
                let t = trim(&chars_of(u.as_str()));
                if t.len() > 0 { Some(string_of(&t)) } else { None }
            },
            None => None,
        };
        NewsCache { feed_url: url, fetched_at: None, items: Vec::new() }
    }

    /// The feed to fetch, if one is configured.
    pub fn feed_url(&self) -> (u: Option<String>)
        ensures
            match u {
                Some(x) => self.feed() == Some(x@),
                None => self.feed() is None,
            },
    {
        match &self.feed_url {
            Some(u) => Some(u.clone()),
            None => None,
        }
    }

    /// The kept items while they are fresh at `now`; `None` when they must
    /// be fetched again.
    pub fn fresh_items(&self, now: i64) -> (r: Option<Vec<NewsItem>>)
        ensures
            match self.last_fetch() {
                Some(t) => if age_of(t, now) < CACHE_TTL_SECS {
                    r matches Some(v) && v@ == self.kept()
                } else {
                    r is None
                },
                None => r is None,
            },
    {
        match self.fetched_at {
            Some(t) => {
                let age: u64 = if now > t { (now as i128 - t as i128) as u64 } else { 0 };
                if cache_is_fresh(age) {
                    Some(copy_items(&self.items))
                } else {
                    None
                }
            },
            None => None,
        }
    }

    /// The items to show after fetching at `now`: a successful fetch is
    /// kept and shown; after a failed one the items kept from before are
    /// shown (nothing if there are none) and kept as they were.
    pub fn after_fetch(&mut self, now: i64, fetched: Option<Vec<NewsItem>>) -> (shown: Vec<NewsItem>)
        ensures
            final(self).feed() == old(self).feed(),
            match fetched {
                Some(v) => {
                    &&& shown@ == v@
                    &&& final(self).kept() == v@
                    &&& final(self).last_fetch() == Some(now)
                },
                None => {
                    &&& shown@ == old(self).kept()
                    &&& final(self).kept() == old(self).kept()
                    &&& final(self).last_fetch() == old(self).last_fetch()
                },
            },
    {
        match fetched {
            Some(v) => {
                let shown = copy_items(&v);
                self.items = v;
                self.fetched_at = Some(now);
                shown
            },
            None => copy_items(&self.items),
        }
    }
}

/// Items fetched at `t` are reused for five minutes and no longer.
pub proof fn lemma_cache_window(t: i64, now: i64)
    ensures
        now >= t ==> (age_of(t, now) < CACHE_TTL_SECS <==> now < t + 300),
{
}

// ─── Laws ─────────────────────────────────────────────────────────────────────

/// Newest first is a total and transitive order.
pub proof fn lemma_newest_first_total_preorder()
    ensures
        total_preorder(newest_first()),
{
    assert forall|a: ItemView, b: ItemView| #[trigger] newest_first()(a, b) || newest_first()(b, a) by {
        lemma_lex_lt_total(a.published_iso, b.published_iso);
    }
    assert forall|a: ItemView, b: ItemView, c: ItemView| #[trigger] newest_first()(a, b) && #[trigger] newest_first()(b, c) implies newest_first()(a, c) by {
        lemma_lex_lt_total(a.published_iso, b.published_iso);
        lemma_lex_lt_total(b.published_iso, c.published_iso);
        lemma_lex_lt_total(a.published_iso, c.published_iso);
        if lex_lt(a.published_iso, c.published_iso) && lex_lt(c.published_iso, b.published_iso) {
            lemma_lex_lt_transitive(a.published_iso, c.published_iso, b.published_iso);
        }
    }
}

/// The news box is ordered newest first.
pub proof fn lemma_news_newest_first(es: Seq<EntryView>, now: i64)
    ensures
        sorted_by(news_of(es, now), newest_first()),
{
    lemma_newest_first_total_preorder();
    lemma_sort_by(items_of(es, now), newest_first());
}

} // verus!
