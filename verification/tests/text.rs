use pila::prompt::markdown_to_safe_html;
use pila::scoreboard::parse_espn_datetime;
use pila::util::{html_escape, preferred_lang};

#[test]
fn markdown_renders_headings_and_paragraphs() {
    let html = markdown_to_safe_html("## Title\n\nHello **world**.");
    assert!(html.contains("<h2>"));
    assert!(html.contains("<strong>world</strong>"));
}

#[test]
fn markdown_strips_raw_html() {
    let html = markdown_to_safe_html("ok <script>alert(1)</script> done");
    assert!(!html.contains("<script>"));
    assert!(html.contains("ok"));
    assert!(html.contains("done"));
}

#[test]
fn markdown_unwraps_outer_code_fence() {
    let html = markdown_to_safe_html("```markdown\n## Title\n\nHi **there**.\n```");
    assert!(html.contains("<h2>"));
    assert!(html.contains("<strong>there</strong>"));
    assert!(!html.contains("<pre>"));
}

#[test]
fn markdown_keeps_inner_code_blocks() {
    let html = markdown_to_safe_html("Text\n\n```\ncode\n```\n");
    assert!(html.contains("<pre>"));
    assert!(html.contains("code"));
}

#[test]
fn parse_espn_datetime_rfc3339() {
    let dt = parse_espn_datetime("2026-06-11T20:00:00Z").unwrap();
    let d = chrono::DateTime::from_timestamp(dt, 0).unwrap();
    assert_eq!(d.to_rfc3339(), "2026-06-11T20:00:00+00:00");
}

#[test]
fn parse_espn_datetime_no_seconds() {
    let dt = parse_espn_datetime("2026-06-11T20:00Z").unwrap();
    let d = chrono::DateTime::from_timestamp(dt, 0).unwrap();
    assert_eq!(d.to_rfc3339(), "2026-06-11T20:00:00+00:00");
}

#[test]
fn parse_espn_datetime_date_only_rejected() {
    assert!(parse_espn_datetime("2026-06-11").is_none());
}

#[test]
fn accept_language_first_supported() {
    assert_eq!(preferred_lang(None), "de");
    assert_eq!(preferred_lang(Some("fr-CH, fr;q=0.9, en;q=0.8")), "fr");
    assert_eq!(preferred_lang(Some("it, EN-us;q=0.5")), "en");
    assert_eq!(preferred_lang(Some("it,nl")), "de");
    assert_eq!(preferred_lang(Some("")), "de");
}

#[test]
fn html_is_escaped() {
    assert_eq!(html_escape("<a href=\"x\">Tom & 'Jerry'</a>"), "&lt;a href=&quot;x&quot;&gt;Tom &amp; &#39;Jerry&#39;&lt;/a&gt;");
}

use pila::text::{parse_i32, parse_i64};

#[test]
fn integers_read_like_from_str() {
    for s in ["0", "+7", "-7", "2147483647", "-2147483648", "2147483648", "", "+", "-", " 1", "1 ", "12a", "00012", "-0"] {
        assert_eq!(parse_i32(s), s.parse::<i32>().ok(), "{s:?}");
    }
    for s in ["9223372036854775807", "-9223372036854775808", "9223372036854775808", "-9223372036854775809", "123456789012", "99999999999999999999999"] {
        assert_eq!(parse_i64(s), s.parse::<i64>().ok(), "{s:?}");
    }
}

#[test]
fn html_escape_decodes_back_to_its_input() {
    let s = "<a href=\"x\">Tom & 'Jerry' &lt;</a>";
    let e = html_escape(s);
    assert!(!e.contains('<') && !e.contains('>') && !e.contains('"') && !e.contains('\''));
    let back = e
        .replace("&lt;", "<")
        .replace("&gt;", ">")
        .replace("&quot;", "\"")
        .replace("&#39;", "'")
        .replace("&amp;", "&");
    assert_eq!(back, s);
}

#[test]
fn html_escape_of_entity_text_decodes_back() {
    let s = "&amp; &lt;b&gt; \"&#39;\"";
    let back = html_escape(s)
        .replace("&lt;", "<")
        .replace("&gt;", ">")
        .replace("&quot;", "\"")
        .replace("&#39;", "'")
        .replace("&amp;", "&");
    assert_eq!(back, s);
}
