use pila::news::{cache_is_fresh, news_from_feed, news_items, relative_time, FeedEntry, CACHE_TTL_SECS};

// 2026-06-15 12:00:00 UTC
const NOW: i64 = 1_781_524_800;

fn entry(title: &str, link: &str, published: Option<i64>, updated: Option<i64>) -> FeedEntry {
    FeedEntry { title: Some(title.to_string()), links: vec![link.to_string()], published, updated }
}

#[test]
fn relative_time_in_words() {
    assert_eq!(relative_time(NOW - 30, NOW), "gerade");
    assert_eq!(relative_time(NOW + 500, NOW), "gerade");
    assert_eq!(relative_time(NOW - 60, NOW), "vor 1m");
    assert_eq!(relative_time(NOW - 5 * 60 - 59, NOW), "vor 5m");
    assert_eq!(relative_time(NOW - 3 * 3600, NOW), "vor 3h");
    assert_eq!(relative_time(NOW - 23 * 3600 - 3599, NOW), "vor 23h");
    assert_eq!(relative_time(NOW - 2 * 86400, NOW), "vor 2d");
}

#[test]
fn cache_fresh_for_five_minutes() {
    assert_eq!(CACHE_TTL_SECS, 300);
    assert!(cache_is_fresh(0));
    assert!(cache_is_fresh(299));
    assert!(!cache_is_fresh(300));
}

#[test]
fn news_items_filter_and_sort_newest_first() {
    let entries = vec![
        entry("Old", "https://a/old", Some(NOW - 73 * 3600), None),
        entry("  Middle  ", "https://a/mid", Some(NOW - 2 * 3600), None),
        entry("Newest", "https://a/new", None, Some(NOW - 120)),
        entry("   ", "https://a/blank", Some(NOW - 60), None),
        FeedEntry { title: Some("No link".into()), links: vec![String::new()], published: Some(NOW), updated: None },
        FeedEntry { title: Some("Second link".into()), links: vec![String::new(), "https://a/second".into()], published: Some(NOW - 86400), updated: None },
        FeedEntry { title: Some("Undated".into()), links: vec!["https://a/x".into()], published: None, updated: None },
    ];
    let items = news_items(&entries, NOW);
    let titles: Vec<&str> = items.iter().map(|i| i.title.as_str()).collect();
    assert_eq!(titles, vec!["Newest", "Middle", "Second link"]);
    assert_eq!(items[0].link, "https://a/new");
    assert_eq!(items[0].published_iso, "2026-06-15T11:58:00+00:00");
    assert_eq!(items[0].published_relative, "vor 2m");
    assert_eq!(items[1].published_relative, "vor 2h");
    assert_eq!(items[2].link, "https://a/second");
    assert_eq!(items[2].published_relative, "vor 1d");
}

#[test]
fn news_items_keep_entry_order_on_equal_times() {
    let entries = vec![
        entry("First", "https://a/1", Some(NOW - 600), None),
        entry("Second", "https://a/2", Some(NOW - 600), None),
    ];
    let items = news_items(&entries, NOW);
    let titles: Vec<&str> = items.iter().map(|i| i.title.as_str()).collect();
    assert_eq!(titles, vec!["First", "Second"]);
}

#[test]
fn news_from_feed_reads_rss() {
    let rss = r#"<?xml version="1.0" encoding="UTF-8"?>
<rss version="2.0"><channel><title>WM</title><link>https://example.com</link><description>d</description>
<item><title>Anpfiff in Mexiko-Stadt</title><link>https://example.com/a</link><pubDate>Mon, 15 Jun 2026 10:00:00 GMT</pubDate></item>
<item><title>Kader bekanntgegeben</title><link>https://example.com/b</link><pubDate>Mon, 15 Jun 2026 11:30:00 GMT</pubDate></item>
<item><title>Alte Meldung</title><link>https://example.com/c</link><pubDate>Mon, 01 Jun 2026 11:30:00 GMT</pubDate></item>
</channel></rss>"#;
    let items = news_from_feed(rss.as_bytes(), NOW);
    let titles: Vec<&str> = items.iter().map(|i| i.title.as_str()).collect();
    assert_eq!(titles, vec!["Kader bekanntgegeben", "Anpfiff in Mexiko-Stadt"]);
    assert_eq!(items[0].link, "https://example.com/b");
    assert_eq!(items[0].published_iso, "2026-06-15T11:30:00+00:00");
    assert_eq!(items[0].published_relative, "vor 30m");
    assert_eq!(items[1].published_relative, "vor 2h");
}

#[test]
fn news_from_feed_empty_for_garbage() {
    assert!(news_from_feed(b"not a feed at all", NOW).is_empty());
}

use pila::news::{NewsCache, NewsItem};

fn item(title: &str) -> NewsItem {
    NewsItem {
        title: title.into(),
        link: format!("https://n/{title}"),
        published_iso: "2026-06-15T11:00:00+00:00".into(),
        published_relative: "vor 1h".into(),
    }
}

#[test]
fn news_cache_reuses_fresh_items_and_keeps_stale_on_failure() {
    assert!(NewsCache::from_setting(Some("   ".into())).feed_url().is_none());
    assert!(NewsCache::from_setting(None).feed_url().is_none());
    let mut cache = NewsCache::from_setting(Some(" https://feed/rss ".into()));
    assert_eq!(cache.feed_url().as_deref(), Some("https://feed/rss"));
    assert!(cache.fresh_items(100).is_none());
    // A failed first fetch shows nothing.
    assert!(cache.after_fetch(100, None).is_empty());
    let shown = cache.after_fetch(100, Some(vec![item("a")]));
    assert_eq!(shown.len(), 1);
    assert_eq!(cache.fresh_items(399).unwrap()[0].title, "a");
    assert!(cache.fresh_items(400).is_none());
    // A failed refresh falls back to the stale items.
    let stale = cache.after_fetch(500, None);
    assert_eq!(stale[0].title, "a");
    assert!(cache.fresh_items(500).is_none());
}
