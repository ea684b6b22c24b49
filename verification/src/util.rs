//! Small helpers of the web layer: flag URLs, HTML escaping, magic links,
//! locale codes and prediction labels.

use vstd::prelude::*;

use crate::scoring::{self, outcome_of, MatchScoringSystem, OutcomeBet};
use crate::stage::Stage;
use crate::forms::{is_supported_locale, locale_supported};
use crate::text::{
    append_chars, append_str, ascii_lower_all, ascii_lowercase, before_char, chars_of, i64_decimal, lemma_before_char, owned,
    occurs_at, prefix_before, replace_all, replace_from, replace_of, signed_decimal_of, slice_chars, string_of, trim, trim_of,
};

verus! {

/// A fresh random id (a version 4 UUID as a number).
///
/// Trusted: wraps `uuid::Uuid::new_v4` and `as_u128`; the id is random, so
/// nothing is claimed of it.
#[verifier::external_body]
pub(crate) fn fresh_id() -> (id: u128) {
    uuid::Uuid::new_v4().as_u128()
}

/// flagcdn URL of a flag code; empty for a missing or empty code.
pub open spec fn flag_url_of(code: Option<Seq<char>>) -> Seq<char> {
    match code {
        Some(c) => if c.len() > 0 { "https://flagcdn.com/w40/"@ + c + ".png"@ } else { Seq::empty() },
        None => Seq::empty(),
    }
}

/// Map an ISO-3166 alpha-2 code to a flagcdn URL. Empty/`None` codes return
/// an empty string.
pub fn flag_url(code: &Option<String>) -> (url: String)
    ensures
        url@ == flag_url_of(match *code {
            Some(c) => Some(c@),
            None => None,
        }),
{
    match code {
        Some(c) => {
            if c.as_str().is_empty() {
                return String::new();
            }
            let mut v = chars_of("https://flagcdn.com/w40/");
            append_str(&mut v, c.as_str());
            append_str(&mut v, ".png");
            string_of(&v)
        },
        None => String::new(),
    }
}

/// `s` with the five HTML-special characters escaped (`&` first, so the
/// entities introduced later are not escaped again).
pub open spec fn html_escape_of(s: Seq<char>) -> Seq<char> {
    replace_of(
        replace_of(replace_of(replace_of(replace_of(s, "&"@, "&amp;"@), "<"@, "&lt;"@), ">"@, "&gt;"@), "\""@, "&quot;"@),
        "'"@,
        "&#39;"@,
    )
}

/// Minimal HTML escaper for inline error fragments.
pub fn html_escape(s: &str) -> (escaped: String)
    ensures
        escaped@ == html_escape_of(s@),
{
    proof {
        reveal_strlit("&");
        reveal_strlit("<");
        reveal_strlit(">");
        reveal_strlit("\"");
        reveal_strlit("'");
    }
    let v = chars_of(s);
    let a = replace_all(&v, "&", "&amp;");
    let b = replace_all(&a, "<", "&lt;");
    let c = replace_all(&b, ">", "&gt;");
    let d = replace_all(&c, "\"", "&quot;");
    let e = replace_all(&d, "'", "&#39;");
    string_of(&e)
}

/// `s` without its trailing `c` characters.
pub open spec fn trim_end_char_of(s: Seq<char>, c: char) -> Seq<char>
    decreases s.len(),
{
    if s.len() > 0 && s.last() == c {
        trim_end_char_of(s.drop_last(), c)
    } else {
        s
    }
}

/// Magic login link below a base URL.
pub open spec fn magic_link_of(token: Seq<char>, base: Seq<char>) -> Seq<char> {
    trim_end_char_of(base, '/') + "/play/me/"@ + token
}

/// The login link for a token: the base URL without trailing slashes,
/// then `/play/me/` and the token.
pub fn build_magic_link(token: &str, base: &str) -> (link: String)
    ensures
        link@ == magic_link_of(token@, base@),
{
    let b = chars_of(base);
    let mut hi: usize = b.len();
    assert(b@.subrange(0, hi as int) =~= b@);
    while hi > 0 && b[hi - 1] == '/'
        invariant
            hi <= b@.len(),
            trim_end_char_of(b@, '/') == trim_end_char_of(b@.subrange(0, hi as int), '/'),
        decreases hi,
    {
        assert(b@.subrange(0, hi as int).drop_last() =~= b@.subrange(0, hi as int - 1));
        hi = hi - 1;
    }
    let mut v = crate::text::slice_chars(&b, 0, hi);
    append_str(&mut v, "/play/me/");
    append_str(&mut v, token);
    string_of(&v)
}

/// Supported locale of a language code; German otherwise.
pub open spec fn lang_static_of(lang: Seq<char>) -> Seq<char> {
    if lang == "en"@ {
        "en"@
    } else if lang == "es"@ {
        "es"@
    } else if lang == "fr"@ {
        "fr"@
    } else {
        "de"@
    }
}

/// The supported locale code for a language, falling back to `de`.
pub fn lang_static(lang: &str) -> (code: &'static str)
    ensures
        code@ == lang_static_of(lang@),
{
    if crate::text::str_eq(lang, "en") {
        "en"
    } else if crate::text::str_eq(lang, "es") {
        "es"
    } else if crate::text::str_eq(lang, "fr") {
        "fr"
    } else {
        "de"
    }
}

/// Label of a stored tip: the score line in the exact-score mode; in the
/// winner-only mode the picked team, `=` for a draw, or `–` where the stored
/// line is not a valid pick for the stage.
pub open spec fn prediction_label_of(system: MatchScoringSystem, stage: Stage, home_name: Seq<char>, away_name: Seq<char>, predicted_home: i32, predicted_away: i32) -> Seq<char> {
    if system == MatchScoringSystem::WinnerOnly {
        match outcome_of(predicted_home as int, predicted_away as int, stage == Stage::Group) {
            Some(OutcomeBet::HomeWin) => home_name,
            Some(OutcomeBet::Draw) => "="@,
            Some(OutcomeBet::AwayWin) => away_name,
            None => "–"@,
        }
    } else {
        signed_decimal_of(predicted_home as int) + ":"@ + signed_decimal_of(predicted_away as int)
    }
}

/// `home:away` rendering of a score line.
pub fn score_line(home: i32, away: i32) -> (line: Vec<char>)
    ensures
        line@ == signed_decimal_of(home as int) + ":"@ + signed_decimal_of(away as int),
{
    let mut v = i64_decimal(home as i64);
    append_str(&mut v, ":");
    let a = i64_decimal(away as i64);
    append_chars(&mut v, &a);
    v
}

pub fn format_prediction_label(scoring_system: MatchScoringSystem, stage: Stage, home_name: &str, away_name: &str, predicted_home: i32, predicted_away: i32) -> (label: String)
    ensures
        label@ == prediction_label_of(scoring_system, stage, home_name@, away_name@, predicted_home, predicted_away),
{
    if scoring_system.is_winner_only() {
        let allow_draw = stage == Stage::Group;
        return match scoring::outcome_bet_from_stored_scores(predicted_home, predicted_away, allow_draw) {
            Some(outcome) => scoring::winner_only_prediction_label(outcome, home_name, away_name),
            None => crate::text::owned("–"),
        };
    }
    let v = score_line(predicted_home, predicted_away);
    string_of(&v)
}

/// The primary language subtag of one `Accept-Language` entry: the tag
/// before any `;` parameters, trimmed, up to the first `-`, lower-cased.
pub open spec fn primary_tag_of(entry: Seq<char>) -> Seq<char> {
    ascii_lower_all(before_char(trim_of(before_char(entry, ';')), '-'))
}

/// The first supported language among the entries of an `Accept-Language`
/// value from position `start` on, read left to right (quality values are
/// ignored); German when none is supported.
pub open spec fn lang_from(h: Seq<char>, start: int) -> Seq<char>
    decreases h.len() - start,
{
    if start < 0 || start > h.len() {
        "de"@
    } else {
        let rest = h.subrange(start, h.len() as int);
        let entry = before_char(rest, ',');
        if locale_supported(primary_tag_of(entry)) {
            primary_tag_of(entry)
        } else if entry.len() < rest.len() {
            lang_from(h, start + entry.len() + 1)
        } else {
            "de"@
        }
    }
}

/// The interface language a request asks for: the first supported locale of
/// its `Accept-Language` header, `de` without one.
pub fn preferred_lang(accept_language: Option<&str>) -> (lang: String)
    ensures
        lang@ == match accept_language {
            Some(h) => lang_from(h@, 0),
            None => "de"@,
        },
{
    let h = match accept_language {
        Some(h) => h,
        None => {
            return owned("de");
        },
    };
    let v = chars_of(h);
    let mut start: usize = 0;
    while start <= v.len()
        invariant
            v@ == h@,
            accept_language == Some(h),
            start <= v@.len() + 1,
            lang_from(v@, 0) == lang_from(v@, start as int),
        decreases v@.len() + 1 - start,
    {
        let rest = slice_chars(&v, start, v.len());
        let entry = prefix_before(&rest, ',');
        proof {
            lemma_before_char(rest@, ',');
        }
        let head = prefix_before(&entry, ';');
        let tag = trim(&head);
        let primary = prefix_before(&tag, '-');
        let lower = ascii_lowercase(&primary);
        let code = string_of(&lower);
        if is_supported_locale(code.as_str()) {
            return code;
        }
        if entry.len() < rest.len() {
            start = start + entry.len() + 1;
        } else {
            return owned("de");
        }
    }
    owned("de")
}

// ─── Escaping laws ────────────────────────────────────────────────────────────

/// The escape of one character.
pub open spec fn escape_char(c: char) -> Seq<char> {
    if c == '&' {
        seq!['&', 'a', 'm', 'p', ';']
    } else if c == '<' {
        seq!['&', 'l', 't', ';']
    } else if c == '>' {
        seq!['&', 'g', 't', ';']
    } else if c == '"' {
        seq!['&', 'q', 'u', 'o', 't', ';']
    } else if c == '\'' {
        seq!['&', '#', '3', '9', ';']
    } else {
        seq![c]
    }
}

/// Every character escaped on its own, in order.
pub open spec fn escape_all(s: Seq<char>) -> Seq<char>
    decreases s.len(),
{
    if s.len() == 0 {
        Seq::empty()
    } else {
        escape_char(s[0]) + escape_all(s.skip(1))
    }
}

/// Decoding of the five entities the escaper writes, read left to right;
/// any other character stands for itself.
pub open spec fn html_unescape_of(t: Seq<char>) -> Seq<char>
    decreases t.len(),
{
    if t.len() == 0 {
        Seq::empty()
    } else if t.len() >= 4 && t.take(4) == seq!['&', 'l', 't', ';'] {
        seq!['<'] + html_unescape_of(t.skip(4))
    } else if t.len() >= 4 && t.take(4) == seq!['&', 'g', 't', ';'] {
        seq!['>'] + html_unescape_of(t.skip(4))
    } else if t.len() >= 6 && t.take(6) == seq!['&', 'q', 'u', 'o', 't', ';'] {
        seq!['"'] + html_unescape_of(t.skip(6))
    } else if t.len() >= 5 && t.take(5) == seq!['&', '#', '3', '9', ';'] {
        seq!['\''] + html_unescape_of(t.skip(5))
    } else if t.len() >= 5 && t.take(5) == seq!['&', 'a', 'm', 'p', ';'] {
        seq!['&'] + html_unescape_of(t.skip(5))
    } else {
        seq![t[0]] + html_unescape_of(t.skip(1))
    }
}

/// Each character `c` of `s` replaced by `to`, the others kept.
pub open spec fn subst(s: Seq<char>, c: char, to: Seq<char>) -> Seq<char>
    decreases s.len(),
{
    if s.len() == 0 {
        Seq::empty()
    } else {
        (if s[0] == c { to } else { seq![s[0]] }) + subst(s.skip(1), c, to)
    }
}

proof fn lemma_replace_single(s: Seq<char>, c: char, to: Seq<char>, i: int)
    requires
        0 <= i <= s.len(),
    ensures
        replace_from(s, seq![c], to, i) == subst(s.subrange(i, s.len() as int), c, to),
    decreases s.len() - i,
{
    let r = s.subrange(i, s.len() as int);
    if i < s.len() {
        lemma_replace_single(s, c, to, i + 1);
        assert(r.skip(1) =~= s.subrange(i + 1, s.len() as int));
        assert(r[0] == s[i]);
        if s[i] == c {
            assert(s.subrange(i, i + 1) =~= seq![c]);
        } else {
            assert(s.subrange(i, i + 1)[0] == s[i]);
        }
    } else {
        assert(r =~= Seq::<char>::empty());
    }
}

proof fn lemma_subst_concat(a: Seq<char>, b: Seq<char>, c: char, to: Seq<char>)
    ensures
        subst(a + b, c, to) == subst(a, c, to) + subst(b, c, to),
    decreases a.len(),
{
    if a.len() == 0 {
        assert(a + b =~= b);
    } else {
        lemma_subst_concat(a.skip(1), b, c, to);
        assert((a + b).skip(1) =~= a.skip(1) + b);
        assert((a + b)[0] == a[0]);
    }
}

proof fn lemma_subst_absent(s: Seq<char>, c: char, to: Seq<char>)
    requires
        !s.contains(c),
    ensures
        subst(s, c, to) == s,
    decreases s.len(),
{
    if s.len() > 0 {
        assert(s[0] != c);
        assert forall|x: char| s.skip(1).contains(x) implies s.contains(x) by {
            let j = choose|j: int| 0 <= j < s.skip(1).len() && s.skip(1)[j] == x;
            assert(s[j + 1] == x);
        }
        lemma_subst_absent(s.skip(1), c, to);
        assert(s =~= seq![s[0]] + s.skip(1));
    }
}

proof fn lemma_subst_single(x: char, c: char, to: Seq<char>)
    ensures
        subst(seq![x], c, to) == if x == c { to } else { seq![x] },
{
    assert(seq![x].skip(1) =~= Seq::<char>::empty());
    assert(subst(Seq::<char>::empty(), c, to) == Seq::<char>::empty());
    if x == c {
        assert(to + Seq::<char>::empty() =~= to);
    } else {
        assert(seq![x] + Seq::<char>::empty() =~= seq![x]);
    }
}

/// The five replacements in a row, as the escaper applies them.
pub open spec fn escape_chain(s: Seq<char>) -> Seq<char> {
    subst(subst(subst(subst(subst(s, '&', seq!['&', 'a', 'm', 'p', ';']), '<', seq!['&', 'l', 't', ';']), '>',
        seq!['&', 'g', 't', ';']), '"', seq!['&', 'q', 'u', 'o', 't', ';']), '\'', seq!['&', '#', '3', '9', ';'])
}

proof fn lemma_chain_concat(a: Seq<char>, b: Seq<char>)
    ensures
        escape_chain(a + b) == escape_chain(a) + escape_chain(b),
{
    let t1 = seq!['&', 'a', 'm', 'p', ';'];
    let t2 = seq!['&', 'l', 't', ';'];
    let t3 = seq!['&', 'g', 't', ';'];
    let t4 = seq!['&', 'q', 'u', 'o', 't', ';'];
    let t5 = seq!['&', '#', '3', '9', ';'];
    lemma_subst_concat(a, b, '&', t1);
    let a1 = subst(a, '&', t1);
    let b1 = subst(b, '&', t1);
    lemma_subst_concat(a1, b1, '<', t2);
    let a2 = subst(a1, '<', t2);
    let b2 = subst(b1, '<', t2);
    lemma_subst_concat(a2, b2, '>', t3);
    let a3 = subst(a2, '>', t3);
    let b3 = subst(b2, '>', t3);
    lemma_subst_concat(a3, b3, '"', t4);
    let a4 = subst(a3, '"', t4);
    let b4 = subst(b3, '"', t4);
    lemma_subst_concat(a4, b4, '\'', t5);
}

/// A text made only of `&`, letters, digits, `#` and `;` is left alone by the
/// later replacements.
proof fn lemma_chain_tail(t: Seq<char>)
    requires
        !t.contains('<'),
        !t.contains('>'),
        !t.contains('"'),
        !t.contains('\''),
    ensures
        subst(subst(subst(subst(t, '<', seq!['&', 'l', 't', ';']), '>', seq!['&', 'g', 't', ';']), '"',
            seq!['&', 'q', 'u', 'o', 't', ';']), '\'', seq!['&', '#', '3', '9', ';']) == t,
{
    lemma_subst_absent(t, '<', seq!['&', 'l', 't', ';']);
    lemma_subst_absent(t, '>', seq!['&', 'g', 't', ';']);
    lemma_subst_absent(t, '"', seq!['&', 'q', 'u', 'o', 't', ';']);
    lemma_subst_absent(t, '\'', seq!['&', '#', '3', '9', ';']);
}

proof fn lemma_chain_char(c: char)
    ensures
        escape_chain(seq![c]) == escape_char(c),
{
    let t1 = seq!['&', 'a', 'm', 'p', ';'];
    let t2 = seq!['&', 'l', 't', ';'];
    let t3 = seq!['&', 'g', 't', ';'];
    let t4 = seq!['&', 'q', 'u', 'o', 't', ';'];
    let t5 = seq!['&', '#', '3', '9', ';'];
    lemma_subst_single(c, '&', t1);
    if c == '&' {
        assert(!t1.contains('<') && !t1.contains('>') && !t1.contains('"') && !t1.contains('\'')) by {
            assert forall|x: char| t1.contains(x) implies x != '<' && x != '>' && x != '"' && x != '\'' by {
                let j = choose|j: int| 0 <= j < t1.len() && t1[j] == x;
            }
        }
        lemma_chain_tail(t1);
    } else {
        lemma_subst_single(c, '<', t2);
        if c == '<' {
            lemma_subst_absent(t2, '>', t3);
            lemma_subst_absent(t2, '"', t4);
            lemma_subst_absent(t2, '\'', t5);
        } else {
            lemma_subst_single(c, '>', t3);
            if c == '>' {
                lemma_subst_absent(t3, '"', t4);
                lemma_subst_absent(t3, '\'', t5);
            } else {
                lemma_subst_single(c, '"', t4);
                if c == '"' {
                    lemma_subst_absent(t4, '\'', t5);
                } else {
                    lemma_subst_single(c, '\'', t5);
                }
            }
        }
    }
}

proof fn lemma_chain_is_escape_all(s: Seq<char>)
    ensures
        escape_chain(s) == escape_all(s),
    decreases s.len(),
{
    if s.len() == 0 {
        assert(escape_chain(s) == Seq::<char>::empty());
    } else {
        lemma_chain_is_escape_all(s.skip(1));
        assert(s =~= seq![s[0]] + s.skip(1));
        lemma_chain_concat(seq![s[0]], s.skip(1));
        lemma_chain_char(s[0]);
    }
}

proof fn lemma_html_escape_is_escape_all(s: Seq<char>)
    ensures
        html_escape_of(s) == escape_all(s),
{
    reveal_strlit("&");
    reveal_strlit("<");
    reveal_strlit(">");
    reveal_strlit("\"");
    reveal_strlit("'");
    reveal_strlit("&amp;");
    reveal_strlit("&lt;");
    reveal_strlit("&gt;");
    reveal_strlit("&quot;");
    reveal_strlit("&#39;");
    assert("&"@ =~= seq!['&']);
    assert("<"@ =~= seq!['<']);
    assert(">"@ =~= seq!['>']);
    assert("\""@ =~= seq!['"']);
    assert("'"@ =~= seq!['\'']);
    assert("&amp;"@ =~= seq!['&', 'a', 'm', 'p', ';']);
    assert("&lt;"@ =~= seq!['&', 'l', 't', ';']);
    assert("&gt;"@ =~= seq!['&', 'g', 't', ';']);
    assert("&quot;"@ =~= seq!['&', 'q', 'u', 'o', 't', ';']);
    assert("&#39;"@ =~= seq!['&', '#', '3', '9', ';']);
    let t1 = seq!['&', 'a', 'm', 'p', ';'];
    let t2 = seq!['&', 'l', 't', ';'];
    let t3 = seq!['&', 'g', 't', ';'];
    let t4 = seq!['&', 'q', 'u', 'o', 't', ';'];
    let t5 = seq!['&', '#', '3', '9', ';'];
    lemma_replace_single(s, '&', t1, 0);
    assert(s.subrange(0, s.len() as int) =~= s);
    let s1 = subst(s, '&', t1);
    lemma_replace_single(s1, '<', t2, 0);
    assert(s1.subrange(0, s1.len() as int) =~= s1);
    let s2 = subst(s1, '<', t2);
    lemma_replace_single(s2, '>', t3, 0);
    assert(s2.subrange(0, s2.len() as int) =~= s2);
    let s3 = subst(s2, '>', t3);
    lemma_replace_single(s3, '"', t4, 0);
    assert(s3.subrange(0, s3.len() as int) =~= s3);
    let s4 = subst(s3, '"', t4);
    lemma_replace_single(s4, '\'', t5, 0);
    assert(s4.subrange(0, s4.len() as int) =~= s4);
    lemma_chain_is_escape_all(s);
}

proof fn lemma_unescape_step(c: char, rest: Seq<char>)
    ensures
        html_unescape_of(escape_char(c) + rest) == seq![c] + html_unescape_of(rest),
{
    let t = escape_char(c) + rest;
    let e = escape_char(c);
    assert(t.skip(e.len() as int) =~= rest);
    if c == '&' || c == '<' || c == '>' || c == '"' || c == '\'' {
        assert(t.take(e.len() as int) =~= e);
        assert(t[0] == '&');
        if c == '&' {
            assert(t.take(4)[1] == 'a');
            assert(t.len() >= 6 ==> t.take(6)[1] == 'a');
            assert(t.take(5)[1] == 'a');
        } else if c == '<' {
        } else if c == '>' {
            assert(t.take(4)[1] == 'g');
        } else if c == '"' {
            assert(t.take(4)[1] == 'q');
        } else {
            assert(t.take(4)[1] == '#');
            assert(t.len() >= 6 ==> t.take(6)[1] == '#');
        }
    } else {
        assert(t[0] == c);
        assert(t.len() >= 4 ==> t.take(4)[0] == c);
        assert(t.len() >= 5 ==> t.take(5)[0] == c);
        assert(t.len() >= 6 ==> t.take(6)[0] == c);
        assert(t.skip(1) =~= rest);
    }
}

proof fn lemma_unescape_escape_all(s: Seq<char>)
    ensures
        html_unescape_of(escape_all(s)) == s,
    decreases s.len(),
{
    if s.len() > 0 {
        lemma_unescape_escape_all(s.skip(1));
        lemma_unescape_step(s[0], escape_all(s.skip(1)));
        assert(s =~= seq![s[0]] + s.skip(1));
    }
}

proof fn lemma_escape_all_safe(s: Seq<char>)
    ensures
        !escape_all(s).contains('<'),
        !escape_all(s).contains('>'),
        !escape_all(s).contains('"'),
        !escape_all(s).contains('\''),
    decreases s.len(),
{
    if s.len() > 0 {
        lemma_escape_all_safe(s.skip(1));
        let e = escape_char(s[0]);
        let r = escape_all(s.skip(1));
        assert forall|x: char| (e + r).contains(x) implies x != '<' && x != '>' && x != '"' && x != '\'' by {
            let j = choose|j: int| 0 <= j < (e + r).len() && (e + r)[j] == x;
            if j < e.len() {
                assert(e[j] == x);
            } else {
                assert(r[j - e.len()] == x);
            }
        }
    }
}

/// The escaped text holds none of `<`, `>`, `"` and `'`, and decoding its
/// entities gives back the text exactly.
pub proof fn lemma_html_escape_round_trip(s: Seq<char>)
    ensures
        !html_escape_of(s).contains('<'),
        !html_escape_of(s).contains('>'),
        !html_escape_of(s).contains('"'),
        !html_escape_of(s).contains('\''),
        html_unescape_of(html_escape_of(s)) == s,
{
    lemma_html_escape_is_escape_all(s);
    lemma_escape_all_safe(s);
    lemma_unescape_escape_all(s);
}

// ─── Decoding by replacement ──────────────────────────────────────────────────

/// Decoding by five replacements in a row: `&lt;`, `&gt;`, `&quot;` and
/// `&#39;` first, `&amp;` last.
pub open spec fn html_decode_by_replacement(t: Seq<char>) -> Seq<char> {
    replace_of(
        replace_of(replace_of(replace_of(replace_of(t, "&lt;"@, "<"@), "&gt;"@, ">"@), "&quot;"@, "\""@), "&#39;"@, "'"@),
        "&amp;"@,
        "&"@,
    )
}

/// The entity the `k`-th replacement looks for, and the character it puts
/// back.
spec fn entity_at(k: int) -> Seq<char> {
    if k == 0 {
        seq!['&', 'l', 't', ';']
    } else if k == 1 {
        seq!['&', 'g', 't', ';']
    } else if k == 2 {
        seq!['&', 'q', 'u', 'o', 't', ';']
    } else if k == 3 {
        seq!['&', '#', '3', '9', ';']
    } else {
        seq!['&', 'a', 'm', 'p', ';']
    }
}

spec fn char_at(k: int) -> char {
    if k == 0 {
        '<'
    } else if k == 1 {
        '>'
    } else if k == 2 {
        '"'
    } else if k == 3 {
        '\''
    } else {
        '&'
    }
}

/// The step of the replacement chain at which a character is put back; other
/// characters are never escaped.
spec fn step_of(c: char) -> int {
    if c == '<' {
        0
    } else if c == '>' {
        1
    } else if c == '"' {
        2
    } else if c == '\'' {
        3
    } else if c == '&' {
        4
    } else {
        5
    }
}

/// A character as it stands after the first `k` replacements.
spec fn partly(c: char, k: int) -> Seq<char> {
    if step_of(c) < 5 && k <= step_of(c) { entity_at(step_of(c)) } else { seq![c] }
}

/// The escaped text after the first `k` replacements.
spec fn partly_all(s: Seq<char>, k: int) -> Seq<char>
    decreases s.len(),
{
    if s.len() == 0 {
        Seq::empty()
    } else {
        partly(s[0], k) + partly_all(s.skip(1), k)
    }
}

proof fn lemma_partly_ends(s: Seq<char>)
    ensures
        partly_all(s, 0) == escape_all(s),
        partly_all(s, 5) == s,
    decreases s.len(),
{
    if s.len() > 0 {
        lemma_partly_ends(s.skip(1));
        assert(s =~= seq![s[0]] + s.skip(1));
    }
}

proof fn lemma_replace_shift(x: Seq<char>, pat: Seq<char>, to: Seq<char>, i: int)
    requires
        0 <= i <= x.len(),
        pat.len() > 0,
    ensures
        replace_from(x, pat, to, i) == replace_of(x.skip(i), pat, to),
    decreases x.len() - i,
{
    let y = x.skip(i);
    if i < x.len() {
        lemma_replace_shift(x, pat, to, i + 1);
        if occurs_at(x, pat, i) {
            assert(occurs_at(y, pat, 0)) by {
                assert(y.subrange(0, pat.len() as int) =~= x.subrange(i, i + pat.len()));
            }
            if i + pat.len() <= x.len() {
                lemma_replace_shift(x, pat, to, i + pat.len());
                lemma_replace_shift(y, pat, to, pat.len() as int);
                assert(y.skip(pat.len() as int) =~= x.skip(i + pat.len()));
            }
        } else {
            assert(!occurs_at(y, pat, 0)) by {
                if 0 + pat.len() <= y.len() {
                    assert(y.subrange(0, pat.len() as int) =~= x.subrange(i, i + pat.len()));
                }
            }
            lemma_replace_shift(y, pat, to, 1);
            assert(y.skip(1) =~= x.skip(i + 1));
            assert(y[0] == x[i]);
        }
    } else {
        assert(y =~= Seq::<char>::empty());
        assert(x.subrange(x.len() as int, x.len() as int) =~= Seq::<char>::empty());
    }
}

proof fn lemma_replace_no_amp_prefix(q: Seq<char>, r: Seq<char>, pat: Seq<char>, to: Seq<char>)
    requires
        pat.len() > 0,
        pat[0] == '&',
        !q.contains('&'),
    ensures
        replace_of(q + r, pat, to) == q + replace_of(r, pat, to),
    decreases q.len(),
{
    if q.len() == 0 {
        assert(q + r =~= r);
    } else {
        let x = q + r;
        assert(x[0] == q[0]);
        assert(q[0] != '&') by { assert(q.contains(q[0])); }
        assert(!occurs_at(x, pat, 0)) by {
            if pat.len() <= x.len() {
                assert(x.subrange(0, pat.len() as int)[0] == x[0]);
            }
        }
        lemma_replace_shift(x, pat, to, 1);
        assert(x.skip(1) =~= q.skip(1) + r);
        assert(!q.skip(1).contains('&')) by {
            if q.skip(1).contains('&') {
                let j = choose|j: int| 0 <= j < q.skip(1).len() && q.skip(1)[j] == '&';
                assert(q[j + 1] == '&');
            }
        }
        lemma_replace_no_amp_prefix(q.skip(1), r, pat, to);
        assert(q =~= seq![q[0]] + q.skip(1));
    }
}

proof fn lemma_replace_step_piece(c: char, r: Seq<char>, k: int)
    requires
        0 <= k < 5,
    ensures
        replace_of(partly(c, k) + r, entity_at(k), seq![char_at(k)]) == partly(c, k + 1) + replace_of(r, entity_at(k), seq![char_at(k)]),
{
    let pat = entity_at(k);
    let to = seq![char_at(k)];
    let p = partly(c, k);
    let x = p + r;
    if step_of(c) == k {
        assert(p == pat);
        assert(occurs_at(x, pat, 0)) by {
            assert(x.subrange(0, pat.len() as int) =~= pat);
        }
        lemma_replace_shift(x, pat, to, pat.len() as int);
        assert(x.skip(pat.len() as int) =~= r);
        assert(partly(c, k + 1) == to);
    } else if step_of(c) < 5 && k <= step_of(c) {
        // Another entity: it differs from the pattern in its second character.
        let e = entity_at(step_of(c));
        assert(p == e);
        assert(e[1] != pat[1]);
        assert(!occurs_at(x, pat, 0)) by {
            if pat.len() <= x.len() {
                assert(x.subrange(0, pat.len() as int)[1] == x[1]);
                assert(x[1] == e[1]);
            }
        }
        lemma_replace_shift(x, pat, to, 1);
        assert(x.skip(1) =~= e.skip(1) + r);
        assert(!e.skip(1).contains('&')) by {
            if e.skip(1).contains('&') {
                let j = choose|j: int| 0 <= j < e.skip(1).len() && e.skip(1)[j] == '&';
                assert(e[j + 1] == '&');
            }
        }
        lemma_replace_no_amp_prefix(e.skip(1), r, pat, to);
        assert(x[0] == '&');
        assert(e =~= seq!['&'] + e.skip(1));
        assert(partly(c, k + 1) == e);
    } else {
        // A character standing for itself, never the entity's `&`.
        assert(p == seq![c]);
        assert(c != '&');
        assert(!occurs_at(x, pat, 0)) by {
            if pat.len() <= x.len() {
                assert(x.subrange(0, pat.len() as int)[0] == x[0]);
            }
        }
        lemma_replace_shift(x, pat, to, 1);
        assert(x.skip(1) =~= r);
        assert(partly(c, k + 1) == seq![c]);
    }
}

proof fn lemma_replace_step(s: Seq<char>, k: int)
    requires
        0 <= k < 5,
    ensures
        replace_of(partly_all(s, k), entity_at(k), seq![char_at(k)]) == partly_all(s, k + 1),
    decreases s.len(),
{
    if s.len() == 0 {
        assert(replace_from(Seq::<char>::empty(), entity_at(k), seq![char_at(k)], 0) =~= Seq::<char>::empty());
    } else {
        lemma_replace_step(s.skip(1), k);
        lemma_replace_step_piece(s[0], partly_all(s.skip(1), k), k);
    }
}

/// Decoding the escaped text by the five replacements in a row (`&amp;`
/// last) gives back the text exactly.
pub proof fn lemma_html_escape_decodes_by_replacement(s: Seq<char>)
    ensures
        html_decode_by_replacement(html_escape_of(s)) == s,
{
    reveal_strlit("&lt;");
    reveal_strlit("&gt;");
    reveal_strlit("&quot;");
    reveal_strlit("&#39;");
    reveal_strlit("&amp;");
    reveal_strlit("<");
    reveal_strlit(">");
    reveal_strlit("\"");
    reveal_strlit("'");
    reveal_strlit("&");
    assert("&lt;"@ =~= entity_at(0));
    assert("&gt;"@ =~= entity_at(1));
    assert("&quot;"@ =~= entity_at(2));
    assert("&#39;"@ =~= entity_at(3));
    assert("&amp;"@ =~= entity_at(4));
    assert("<"@ =~= seq![char_at(0)]);
    assert(">"@ =~= seq![char_at(1)]);
    assert("\""@ =~= seq![char_at(2)]);
    assert("'"@ =~= seq![char_at(3)]);
    assert("&"@ =~= seq![char_at(4)]);
    lemma_html_escape_is_escape_all(s);
    lemma_partly_ends(s);
    lemma_replace_step(s, 0);
    lemma_replace_step(s, 1);
    lemma_replace_step(s, 2);
    lemma_replace_step(s, 3);
    lemma_replace_step(s, 4);
}

} // verus!
