//! Character-level string helpers shared by the parsers and formatters.
//!
//! Strings are handled as sequences of `char`s: `chars_of` and `string_of`
//! move between `str`/`String` and `Vec<char>`, and everything in between is
//! verified code over `Vec<char>`.

use vstd::prelude::*;

use crate::order::{count_by, sort_by, total_preorder};

verus! {

/// The characters of `s`, in order.
pub(crate) fn chars_of(s: &str) -> (v: Vec<char>)
    ensures
        v@ == s@,
{
    broadcast use vstd::string::axiom_spec_iter;
    let mut v: Vec<char> = Vec::new();
    for c in it: s.chars()
        invariant
            it.seq() == s@,
            v@ == it.seq().take(it.index()),
    {
        v.push(c);
    }
    v
}

/// The string made of the characters of `v`, in order.
///
/// Trusted: wraps `String::from_iter` over the characters; its contract claims
/// the string holds exactly those characters.
#[verifier::external_body]
pub(crate) fn string_of(v: &Vec<char>) -> (s: String)
    ensures
        s@ == v@,
{
    String::from_iter(v.iter())
}

/// Character-wise equality of two character vectors.
pub fn chars_eq(a: &Vec<char>, b: &Vec<char>) -> (eq: bool)
    ensures
        eq == (a@ == b@),
{
    if a.len() != b.len() {
        return false;
    }
    let mut i: usize = 0;
    while i < a.len()
        invariant
            a@.len() == b@.len(),
            i <= a@.len(),
            forall|j: int| 0 <= j < i ==> a@[j] == b@[j],
        decreases a@.len() - i,
    {
        if a[i] != b[i] {
            return false;
        }
        i = i + 1;
    }
    assert(a@ =~= b@);
    true
}

/// Whether two strings hold the same characters.
pub fn str_eq(a: &str, b: &str) -> (eq: bool)
    ensures
        eq == (a@ == b@),
{
    let va = chars_of(a);
    let vb = chars_of(b);
    chars_eq(&va, &vb)
}

/// A fresh `String` with the characters of `s`.
pub fn owned(s: &str) -> (r: String)
    ensures
        r@ == s@,
{
    let v = chars_of(s);
    string_of(&v)
}

// ─── Searching ───────────────────────────────────────────────────────────────

/// Whether `needle` occurs in `hay` starting at index `i`.
pub open spec fn occurs_at(hay: Seq<char>, needle: Seq<char>, i: int) -> bool {
    0 <= i && i + needle.len() <= hay.len() && hay.subrange(i, i + needle.len()) == needle
}

/// First index at or after `i` where `needle` occurs in `hay`.
pub open spec fn find_from(hay: Seq<char>, needle: Seq<char>, i: int) -> Option<int>
    decreases hay.len() + 1 - i,
{
    if i < 0 || i + needle.len() > hay.len() {
        None
    } else if occurs_at(hay, needle, i) {
        Some(i)
    } else {
        find_from(hay, needle, i + 1)
    }
}

/// Whether `needle` occurs anywhere in `hay`.
pub open spec fn has_substring(hay: Seq<char>, needle: Seq<char>) -> bool {
    find_from(hay, needle, 0) is Some
}

/// Whether `needle` occurs in `hay` at `i`.
fn matches_at(hay: &Vec<char>, needle: &Vec<char>, i: usize) -> (b: bool)
    requires
        i + needle@.len() <= hay@.len(),
    ensures
        b == occurs_at(hay@, needle@, i as int),
{
    let hay_len = hay.len();
    let mut k: usize = 0;
    while k < needle.len()
        invariant
            k <= needle@.len(),
            i + needle@.len() <= hay@.len(),
            hay@.len() == hay_len,
            forall|j: int| 0 <= j < k ==> hay@[i + j] == needle@[j],
        decreases needle@.len() - k,
    {
        if hay[i + k] != needle[k] {
            assert(hay@.subrange(i as int, i + needle@.len())[k as int] != needle@[k as int]);
            return false;
        }
        k = k + 1;
    }
    assert(hay@.subrange(i as int, i + needle@.len()) =~= needle@);
    true
}

/// First index of `needle` in `hay`, if any.
pub fn find(hay: &Vec<char>, needle: &Vec<char>) -> (r: Option<usize>)
    ensures
        match r {
            Some(i) => find_from(hay@, needle@, 0) == Some(i as int),
            None => find_from(hay@, needle@, 0) is None,
        },
{
    if needle.len() > hay.len() {
        return None;
    }
    let last = hay.len() - needle.len();
    let mut i: usize = 0;
    while i <= last
        invariant
            needle@.len() <= hay@.len(),
            last == hay@.len() - needle@.len(),
            i <= last,
            find_from(hay@, needle@, 0) == find_from(hay@, needle@, i as int),
        decreases last - i,
    {
        if matches_at(hay, needle, i) {
            return Some(i);
        }
        if i == last {
            return None;
        }
        i = i + 1;
    }
    None
}

/// Whether `needle` occurs in `hay`.
pub fn contains(hay: &Vec<char>, needle: &str) -> (b: bool)
    ensures
        b == has_substring(hay@, needle@),
{
    let n = chars_of(needle);
    find(hay, &n).is_some()
}

/// Whether `s` starts with `prefix`.
pub fn starts_with(s: &str, prefix: &str) -> (b: bool)
    ensures
        b == (prefix@.len() <= s@.len() && s@.subrange(0, prefix@.len() as int) == prefix@),
{
    let v = chars_of(s);
    let p = chars_of(prefix);
    if p.len() > v.len() {
        return false;
    }
    matches_at(&v, &p, 0)
}

// ─── Case ────────────────────────────────────────────────────────────────────

/// Lower-case rendering of a text by the Unicode rules.
pub uninterp spec fn lowercase_of(s: Seq<char>) -> Seq<char>;

/// Lower-case rendering of `s`.
///
/// Trusted: wraps `str::to_lowercase`; claims only that the result is the named
/// `lowercase_of` of the characters.
#[verifier::external_body]
pub(crate) fn to_lowercase(s: &str) -> (r: Vec<char>)
    ensures
        r@ == lowercase_of(s@),
{
    s.to_lowercase().chars().collect()
}

/// ASCII letters.
pub open spec fn is_ascii_alpha(c: char) -> bool {
    ('a' <= c && c <= 'z') || ('A' <= c && c <= 'Z')
}

/// ASCII upper-casing of one character; other characters are unchanged.
pub open spec fn ascii_upper(c: char) -> char {
    if 'a' <= c && c <= 'z' {
        ((c as u32) - 32) as char
    } else {
        c
    }
}

pub fn is_ascii_alphabetic(c: char) -> (b: bool)
    ensures
        b == is_ascii_alpha(c),
{
    ('a' <= c && c <= 'z') || ('A' <= c && c <= 'Z')
}

pub fn to_ascii_uppercase(c: char) -> (u: char)
    ensures
        u == ascii_upper(c),
{
    if 'a' <= c && c <= 'z' {
        let code: u32 = c as u32 - 32;
        assert(0x41 <= code <= 0x5a);
        char_from_ascii(code)
    } else {
        c
    }
}

/// The character of an ASCII code point.
fn char_from_ascii(code: u32) -> (c: char)
    requires
        code < 128,
    ensures
        c == code as char,
{
    let b: u8 = code as u8;
    b as char
}

/// ASCII lower-casing of a character; other characters stay.
pub open spec fn ascii_lower(c: char) -> char {
    if 'A' <= c && c <= 'Z' {
        ((c as u32) + 32) as char
    } else {
        c
    }
}

pub fn to_ascii_lowercase(c: char) -> (l: char)
    ensures
        l == ascii_lower(c),
{
    if 'A' <= c && c <= 'Z' {
        let code: u32 = c as u32 + 32;
        assert(0x61 <= code <= 0x7a);
        char_from_ascii(code)
    } else {
        c
    }
}

/// ASCII lower-casing of every character.
pub open spec fn ascii_lower_all(s: Seq<char>) -> Seq<char> {
    s.map_values(|c: char| ascii_lower(c))
}

/// ASCII lower-casing of every character of `s`.
pub fn ascii_lowercase(s: &Vec<char>) -> (r: Vec<char>)
    ensures
        r@ == ascii_lower_all(s@),
{
    let mut out: Vec<char> = Vec::new();
    let mut i: usize = 0;
    while i < s.len()
        invariant
            i <= s@.len(),
            out@ == ascii_lower_all(s@.take(i as int)),
        decreases s@.len() - i,
    {
        out.push(to_ascii_lowercase(s[i]));
        assert(out@ =~= ascii_lower_all(s@.take(i as int + 1)));
        i = i + 1;
    }
    assert(s@.take(i as int) =~= s@);
    out
}

/// The characters of `s` before the first `c` (all of them without a `c`).
pub open spec fn before_char(s: Seq<char>, c: char) -> Seq<char>
    decreases s.len(),
{
    if s.len() == 0 {
        s
    } else if s[0] == c {
        Seq::empty()
    } else {
        seq![s[0]] + before_char(s.drop_first(), c)
    }
}

/// The text before the first `c` is a prefix of `s` free of `c`, followed by
/// `c` when it is shorter than `s`.
pub proof fn lemma_before_char(s: Seq<char>, c: char)
    ensures
        before_char(s, c).len() <= s.len(),
        before_char(s, c) == s.subrange(0, before_char(s, c).len() as int),
        before_char(s, c).len() < s.len() ==> s[before_char(s, c).len() as int] == c,
        forall|i: int| 0 <= i < before_char(s, c).len() ==> s[i] != c,
    decreases s.len(),
{
    if s.len() > 0 && s[0] != c {
        lemma_before_char(s.drop_first(), c);
        let t = before_char(s.drop_first(), c);
        assert(before_char(s, c) =~= s.subrange(0, t.len() as int + 1));
        assert forall|i: int| 0 <= i < before_char(s, c).len() implies s[i] != c by {
            if i > 0 {
                assert(s[i] == s.drop_first()[i - 1]);
            }
        }
    } else if s.len() > 0 {
        assert(before_char(s, c) =~= s.subrange(0, 0));
    }
}

/// The characters of `s` before the first `c`.
pub fn prefix_before(s: &Vec<char>, c: char) -> (r: Vec<char>)
    ensures
        r@ == before_char(s@, c),
{
    proof {
        lemma_before_char(s@, c);
    }
    let mut i: usize = 0;
    while i < s.len() && s[i] != c
        invariant
            i <= s@.len(),
            forall|q: int| 0 <= q < i ==> s@[q] != c,
        decreases s@.len() - i,
    {
        i = i + 1;
    }
    proof {
        let b = before_char(s@, c);
        if (b.len() as int) < (i as int) {
            assert(s@[b.len() as int] == c);
        }
        if (i as int) < (b.len() as int) {
            assert(s@[i as int] != c);
        }
    }
    slice_chars(s, 0, i)
}

/// ASCII upper-casing of every character.
pub open spec fn ascii_upper_all(s: Seq<char>) -> Seq<char> {
    s.map_values(|c: char| ascii_upper(c))
}

/// ASCII upper-casing of every character of `s`.
pub fn ascii_uppercase(s: &str) -> (r: Vec<char>)
    ensures
        r@ == ascii_upper_all(s@),
{
    let v = chars_of(s);
    let mut out: Vec<char> = Vec::new();
    let mut i: usize = 0;
    while i < v.len()
        invariant
            i <= v@.len(),
            out@ == v@.take(i as int).map_values(|c: char| ascii_upper(c)),
        decreases v@.len() - i,
    {
        out.push(to_ascii_uppercase(v[i]));
        assert(v@.take(i as int + 1).map_values(|c: char| ascii_upper(c)) =~= v@.take(i as int).map_values(|c: char| ascii_upper(c)).push(ascii_upper(v@[i as int])));
        i = i + 1;
    }
    assert(v@.take(i as int) =~= v@);
    out
}

// ─── Numbers and joining ─────────────────────────────────────────────────────

/// The decimal digit character of `d` (`0 <= d < 10`).
pub open spec fn digit_char(d: nat) -> char {
    ((48 + d) as u32) as char
}

/// Decimal rendering of a natural number, without leading zeros.
pub open spec fn decimal_of(n: nat) -> Seq<char>
    decreases n,
{
    if n < 10 {
        seq![digit_char(n)]
    } else {
        decimal_of(n / 10).push(digit_char(n % 10))
    }
}

/// Decimal rendering of an integer, with a leading `-` when negative.
pub open spec fn signed_decimal_of(n: int) -> Seq<char> {
    if n < 0 {
        seq!['-'] + decimal_of((-n) as nat)
    } else {
        decimal_of(n as nat)
    }
}

/// Decimal digits of `n`.
pub fn u64_decimal(n: u64) -> (r: Vec<char>)
    ensures
        r@ == decimal_of(n as nat),
    decreases n,
{
    let d: u32 = (n % 10) as u32;
    let c = char_from_ascii(48 + d);
    if n < 10 {
        let r = vec![c];
        assert(r@ =~= seq![c]);
        r
    } else {
        let mut r = u64_decimal(n / 10);
        r.push(c);
        r
    }
}

/// Decimal rendering of `n`, with a leading `-` when negative.
pub fn i64_decimal(n: i64) -> (r: Vec<char>)
    ensures
        r@ == signed_decimal_of(n as int),
{
    if n < 0 {
        let m: u64 = if n == i64::MIN { 9_223_372_036_854_775_808u64 } else { (-n) as u64 };
        let digits = u64_decimal(m);
        let mut r = vec!['-'];
        let mut i: usize = 0;
        while i < digits.len()
            invariant
                i <= digits@.len(),
                r@ == seq!['-'] + digits@.take(i as int),
            decreases digits@.len() - i,
        {
            r.push(digits[i]);
            assert(digits@.take(i as int + 1) =~= digits@.take(i as int).push(digits@[i as int]));
            assert(seq!['-'] + digits@.take(i as int + 1) =~= (seq!['-'] + digits@.take(i as int)).push(digits@[i as int]));
            i = i + 1;
        }
        assert(digits@.take(i as int) =~= digits@);
        r
    } else {
        u64_decimal(n as u64)
    }
}

/// Appends the characters of `b` to `a`.
pub fn append_chars(a: &mut Vec<char>, b: &Vec<char>)
    ensures
        final(a)@ == old(a)@ + b@,
{
    let ghost a0 = a@;
    let mut i: usize = 0;
    while i < b.len()
        invariant
            i <= b@.len(),
            a@ == a0 + b@.take(i as int),
        decreases b@.len() - i,
    {
        a.push(b[i]);
        assert(b@.take(i as int + 1) =~= b@.take(i as int).push(b@[i as int]));
        assert(a0 + b@.take(i as int + 1) =~= (a0 + b@.take(i as int)).push(b@[i as int]));
        i = i + 1;
    }
    assert(b@.take(i as int) =~= b@);
}

/// Appends the characters of `b` to `a`.
pub fn append_str(a: &mut Vec<char>, b: &str)
    ensures
        final(a)@ == old(a)@ + b@,
{
    let v = chars_of(b);
    append_chars(a, &v);
}

/// The texts joined with `sep` between consecutive ones.
pub open spec fn join_of(items: Seq<Seq<char>>, sep: Seq<char>) -> Seq<char>
    decreases items.len(),
{
    if items.len() == 0 {
        Seq::empty()
    } else if items.len() == 1 {
        items[0]
    } else {
        join_of(items.drop_last(), sep) + sep + items.last()
    }
}

/// Views of a list of strings.
pub open spec fn views_of(items: Seq<String>) -> Seq<Seq<char>> {
    items.map_values(|s: String| s@)
}

/// The strings joined with `sep` between consecutive ones.
pub fn join(items: &Vec<String>, sep: &str) -> (r: Vec<char>)
    ensures
        r@ == join_of(views_of(items@), sep@),
{
    let mut r: Vec<char> = Vec::new();
    let mut i: usize = 0;
    while i < items.len()
        invariant
            i <= items@.len(),
            r@ == join_of(views_of(items@.take(i as int)), sep@),
        decreases items@.len() - i,
    {
        let ghost prev = views_of(items@.take(i as int));
        assert(views_of(items@.take(i as int + 1)).drop_last() =~= prev);
        assert(views_of(items@.take(i as int + 1)).last() == items@[i as int]@);
        if i > 0 {
            append_str(&mut r, sep);
        } else {
            assert(views_of(items@.take(1)) =~= seq![items@[0]@]);
        }
        append_str(&mut r, items[i].as_str());
        i = i + 1;
    }
    assert(items@.take(i as int) =~= items@);
    r
}

// ─── Integers ────────────────────────────────────────────────────────────────

/// Value of a string of ASCII digits.
pub open spec fn digits_value(s: Seq<char>) -> int
    decreases s.len(),
{
    if s.len() == 0 {
        0
    } else {
        digits_value(s.drop_last()) * 10 + (s.last() as int - '0' as int)
    }
}

/// All characters are ASCII digits.
pub open spec fn all_digits(s: Seq<char>) -> bool {
    forall|i: int| 0 <= i < s.len() ==> '0' <= #[trigger] s[i] && s[i] <= '9'
}

/// The value of digits never decreases when a digit is added.
pub proof fn lemma_digits_value_monotone(s: Seq<char>)
    requires
        all_digits(s),
    ensures
        digits_value(s) >= 0,
        s.len() > 0 ==> digits_value(s) >= digits_value(s.drop_last()),
    decreases s.len(),
{
    if s.len() > 0 {
        assert(all_digits(s.drop_last()));
        lemma_digits_value_monotone(s.drop_last());
        assert('0' <= s.last() && s.last() <= '9');
    }
}

/// Once a prefix of a digit string exceeds a bound, the whole does.
pub proof fn lemma_prefix_exceeds(d: Seq<char>, k: int, bound: int)
    requires
        0 < k <= d.len(),
        all_digits(d.subrange(0, k)),
        digits_value(d.subrange(0, k)) > bound,
    ensures
        all_digits(d) ==> digits_value(d) > bound,
    decreases d.len() - k,
{
    if k < d.len() && all_digits(d) {
        let p = d.subrange(0, k + 1);
        assert(p.drop_last() =~= d.subrange(0, k));
        assert(all_digits(p));
        lemma_digits_value_monotone(p);
        lemma_prefix_exceeds(d, k + 1, bound);
    } else if k == d.len() {
        assert(d.subrange(0, k) =~= d);
    }
}

/// The integer a text names as `i64::from_str` reads it: an optional `+`
/// or `-`, then at least one ASCII digit.
pub open spec fn int_of(s: Seq<char>) -> Option<int> {
    let signed = s.len() > 0 && (s[0] == '+' || s[0] == '-');
    let d = if signed { s.drop_first() } else { s };
    if d.len() > 0 && all_digits(d) {
        Some(if s.len() > 0 && s[0] == '-' { -digits_value(d) } else { digits_value(d) })
    } else {
        None
    }
}

/// The integer a text names, if it fits the range `lo..=hi`.
pub open spec fn int_in(s: Seq<char>, lo: int, hi: int) -> Option<int> {
    match int_of(s) {
        Some(v) => if lo <= v <= hi { Some(v) } else { None },
        None => None,
    }
}

/// Reads an `i64` as `i64::from_str` does.
pub fn parse_i64(s: &str) -> (r: Option<i64>)
    ensures
        match r {
            Some(v) => int_in(s@, i64::MIN as int, i64::MAX as int) == Some(v as int),
            None => int_in(s@, i64::MIN as int, i64::MAX as int) is None,
        },
{
    let c = chars_of(s);
    let signed = c.len() > 0 && (c[0] == '+' || c[0] == '-');
    let neg = c.len() > 0 && c[0] == '-';
    let start: usize = if signed { 1 } else { 0 };
    let ghost d = if signed { c@.drop_first() } else { c@ };
    assert(d =~= c@.subrange(start as int, c@.len() as int));
    if start == c.len() {
        return None;
    }
    // The magnitude never exceeds 2^63, the magnitude of i64::MIN.
    let limit: u64 = 9_223_372_036_854_775_808;
    let mut value: u64 = 0;
    let mut i: usize = start;
    while i < c.len()
        invariant
            start <= i <= c@.len(),
            c@ == s@,
            signed == (s@.len() > 0 && (s@[0] == '+' || s@[0] == '-')),
            neg == (s@.len() > 0 && s@[0] == '-'),
            d == if signed { s@.drop_first() } else { s@ },
            d == c@.subrange(start as int, c@.len() as int),
            limit == 9_223_372_036_854_775_808u64,
            all_digits(c@.subrange(start as int, i as int)),
            value == digits_value(c@.subrange(start as int, i as int)),
            value <= limit,
        decreases c@.len() - i,
    {
        let ch = c[i];
        let ghost pre = c@.subrange(start as int, i as int);
        let ghost next = c@.subrange(start as int, i as int + 1);
        assert(next.drop_last() =~= pre);
        if !('0' <= ch && ch <= '9') {
            assert(!all_digits(d)) by {
                assert(d[i - start] == ch);
            }
            return None;
        }
        assert(all_digits(next)) by {
            assert forall|q: int| 0 <= q < next.len() implies '0' <= #[trigger] next[q] && next[q] <= '9' by {
                if q < pre.len() {
                    assert(next[q] == pre[q]);
                }
            }
        }
        let digit: u64 = (ch as u64) - ('0' as u64);
        if value > 922_337_203_685_477_580 || (value == 922_337_203_685_477_580 && digit > 8) {
            proof {
                assert(next =~= d.subrange(0, i - start + 1));
                lemma_prefix_exceeds(d, (i - start + 1) as int, limit as int);
            }
            return None;
        }
        value = value * 10 + digit;
        i = i + 1;
    }
    assert(c@.subrange(start as int, i as int) =~= d);
    if neg {
        if value == limit {
            Some(i64::MIN)
        } else {
            Some(-(value as i64))
        }
    } else {
        if value == limit {
            None
        } else {
            Some(value as i64)
        }
    }
}

/// Reads an `i32` as `i32::from_str` does.
pub fn parse_i32(s: &str) -> (r: Option<i32>)
    ensures
        match r {
            Some(v) => int_in(s@, i32::MIN as int, i32::MAX as int) == Some(v as int),
            None => int_in(s@, i32::MIN as int, i32::MAX as int) is None,
        },
{
    match parse_i64(s) {
        Some(v) => if i32::MIN as i64 <= v && v <= i32::MAX as i64 { Some(v as i32) } else { None },
        None => None,
    }
}

// ─── Ordering ────────────────────────────────────────────────────────────────

/// Lexicographic order of texts by code point (for UTF-8 strings this is the
/// byte order `String`'s `Ord` uses): `a` sorts strictly before `b`.
pub open spec fn lex_lt(a: Seq<char>, b: Seq<char>) -> bool
    decreases a.len(),
{
    if b.len() == 0 {
        false
    } else if a.len() == 0 {
        true
    } else if a[0] < b[0] {
        true
    } else if a[0] == b[0] {
        lex_lt(a.drop_first(), b.drop_first())
    } else {
        false
    }
}

/// Whether `a` sorts strictly before `b`.
pub fn chars_less(a: &Vec<char>, b: &Vec<char>) -> (lt: bool)
    ensures
        lt == lex_lt(a@, b@),
{
    let mut i: usize = 0;
    assert(a@.skip(0) =~= a@);
    assert(b@.skip(0) =~= b@);
    while i < a.len() && i < b.len() && a[i] == b[i]
        invariant
            i <= a@.len(),
            i <= b@.len(),
            lex_lt(a@, b@) == lex_lt(a@.skip(i as int), b@.skip(i as int)),
        decreases a@.len() - i,
    {
        assert(a@.skip(i as int).drop_first() =~= a@.skip(i as int + 1));
        assert(b@.skip(i as int).drop_first() =~= b@.skip(i as int + 1));
        i = i + 1;
    }
    if i == b.len() {
        return false;
    }
    if i == a.len() {
        return true;
    }
    assert(a@.skip(i as int)[0] == a@[i as int]);
    assert(b@.skip(i as int)[0] == b@[i as int]);
    a[i] < b[i]
}

/// Whether `a` sorts strictly before `b`.
pub fn str_less(a: &str, b: &str) -> (lt: bool)
    ensures
        lt == lex_lt(a@, b@),
{
    let va = chars_of(a);
    let vb = chars_of(b);
    chars_less(&va, &vb)
}

// ─── Replacing and trimming ──────────────────────────────────────────────────

/// `s` from index `i` on, with every non-overlapping occurrence of `from`
/// (scanning left to right) replaced by `to`.
pub open spec fn replace_from(s: Seq<char>, from: Seq<char>, to: Seq<char>, i: int) -> Seq<char>
    decreases s.len() - i,
{
    if i < 0 || i >= s.len() || from.len() == 0 {
        s.subrange(if 0 <= i <= s.len() { i } else { s.len() as int }, s.len() as int)
    } else if occurs_at(s, from, i) {
        to + replace_from(s, from, to, i + from.len())
    } else {
        seq![s[i]] + replace_from(s, from, to, i + 1)
    }
}

/// `s` with every non-overlapping occurrence of `from` replaced by `to`.
pub open spec fn replace_of(s: Seq<char>, from: Seq<char>, to: Seq<char>) -> Seq<char> {
    replace_from(s, from, to, 0)
}

/// Replaces every non-overlapping occurrence of `from` (not empty) by `to`.
pub fn replace_all(s: &Vec<char>, from: &str, to: &str) -> (r: Vec<char>)
    requires
        from@.len() > 0,
    ensures
        r@ == replace_of(s@, from@, to@),
{
    let f = chars_of(from);
    let t = chars_of(to);
    let mut out: Vec<char> = Vec::new();
    let mut i: usize = 0;
    while i < s.len()
        invariant
            i <= s@.len(),
            f@ == from@,
            t@ == to@,
            f@.len() > 0,
            out@ + replace_from(s@, f@, t@, i as int) == replace_from(s@, f@, t@, 0),
        decreases s@.len() - i,
    {
        if f.len() <= s.len() - i && matches_at(s, &f, i) {
            let ghost before = out@;
            append_chars(&mut out, &t);
            assert(before + replace_from(s@, f@, t@, i as int) == before + (t@ + replace_from(s@, f@, t@, i + f@.len())));
            assert(before + (t@ + replace_from(s@, f@, t@, i + f@.len())) =~= out@ + replace_from(s@, f@, t@, i + f@.len()));
            i = i + f.len();
        } else {
            let ghost before = out@;
            out.push(s[i]);
            assert(!occurs_at(s@, f@, i as int));
            assert(before + replace_from(s@, f@, t@, i as int) == before + (seq![s@[i as int]] + replace_from(s@, f@, t@, i + 1)));
            assert(before + (seq![s@[i as int]] + replace_from(s@, f@, t@, i + 1)) =~= out@ + replace_from(s@, f@, t@, i + 1));
            i = i + 1;
        }
    }
    assert(replace_from(s@, f@, t@, i as int) =~= Seq::<char>::empty());
    assert(out@ + Seq::<char>::empty() =~= out@);
    out
}

/// Unicode white space, as `char::is_whitespace` documents it (the
/// `White_Space` property).
pub open spec fn is_ws(c: char) -> bool {
    ||| c == '\t' || c == '\n' || c == '\u{0B}' || c == '\u{0C}' || c == '\r' || c == ' '
    ||| c == '\u{85}' || c == '\u{A0}' || c == '\u{1680}'
    ||| ('\u{2000}' <= c && c <= '\u{200A}')
    ||| c == '\u{2028}' || c == '\u{2029}' || c == '\u{202F}' || c == '\u{205F}' || c == '\u{3000}'
}

pub fn is_whitespace(c: char) -> (b: bool)
    ensures
        b == is_ws(c),
{
    c == '\t' || c == '\n' || c == '\u{0B}' || c == '\u{0C}' || c == '\r' || c == ' '
        || c == '\u{85}' || c == '\u{A0}' || c == '\u{1680}'
        || ('\u{2000}' <= c && c <= '\u{200A}')
        || c == '\u{2028}' || c == '\u{2029}' || c == '\u{202F}' || c == '\u{205F}' || c == '\u{3000}'
}

/// `s` without leading white space.
pub open spec fn trim_start_of(s: Seq<char>) -> Seq<char>
    decreases s.len(),
{
    if s.len() > 0 && is_ws(s[0]) {
        trim_start_of(s.drop_first())
    } else {
        s
    }
}

/// `s` without trailing white space.
pub open spec fn trim_end_of(s: Seq<char>) -> Seq<char>
    decreases s.len(),
{
    if s.len() > 0 && is_ws(s.last()) {
        trim_end_of(s.drop_last())
    } else {
        s
    }
}

/// `s` without leading and trailing white space.
pub open spec fn trim_of(s: Seq<char>) -> Seq<char> {
    trim_end_of(trim_start_of(s))
}

/// The characters of `s` from index `lo` up to `hi`.
pub fn slice_chars(s: &Vec<char>, lo: usize, hi: usize) -> (r: Vec<char>)
    requires
        lo <= hi <= s@.len(),
    ensures
        r@ == s@.subrange(lo as int, hi as int),
{
    let mut r: Vec<char> = Vec::new();
    let mut i: usize = lo;
    while i < hi
        invariant
            lo <= i <= hi,
            hi <= s@.len(),
            r@ == s@.subrange(lo as int, i as int),
        decreases hi - i,
    {
        r.push(s[i]);
        assert(s@.subrange(lo as int, i as int + 1) =~= s@.subrange(lo as int, i as int).push(s@[i as int]));
        i = i + 1;
    }
    r
}

/// `s` without trailing white space.
pub fn trim_end(s: &Vec<char>) -> (r: Vec<char>)
    ensures
        r@ == trim_end_of(s@),
{
    let mut hi: usize = s.len();
    assert(s@.subrange(0, hi as int) =~= s@);
    while hi > 0 && is_whitespace(s[hi - 1])
        invariant
            hi <= s@.len(),
            trim_end_of(s@) == trim_end_of(s@.subrange(0, hi as int)),
        decreases hi,
    {
        assert(s@.subrange(0, hi as int).drop_last() =~= s@.subrange(0, hi as int - 1));
        hi = hi - 1;
    }
    slice_chars(s, 0, hi)
}

/// `s` without leading white space.
pub fn trim_start(s: &Vec<char>) -> (r: Vec<char>)
    ensures
        r@ == trim_start_of(s@),
{
    let mut lo: usize = 0;
    assert(s@.subrange(0, s@.len() as int) =~= s@);
    while lo < s.len() && is_whitespace(s[lo])
        invariant
            lo <= s@.len(),
            trim_start_of(s@) == trim_start_of(s@.subrange(lo as int, s@.len() as int)),
        decreases s@.len() - lo,
    {
        assert(s@.subrange(lo as int, s@.len() as int).drop_first() =~= s@.subrange(lo as int + 1, s@.len() as int));
        lo = lo + 1;
    }
    slice_chars(s, lo, s.len())
}

/// `s` without leading and trailing white space.
pub fn trim(s: &Vec<char>) -> (r: Vec<char>)
    ensures
        r@ == trim_of(s@),
{
    let a = trim_start(s);
    trim_end(&a)
}

/// A match found at or after `i` lies inside the text.
/// The strings in ascending order, by insertion (equal ones keep their order).
pub fn sorted_strings(ls: &Vec<String>) -> (sorted: Vec<String>)
    ensures
        views_of(sorted@) == sort_by(views_of(ls@), lex_le()),
{
    let ghost vl = views_of(ls@);
    let mut sorted: Vec<String> = Vec::new();
    let mut j: usize = 0;
    while j < ls.len()
        invariant
            j <= ls@.len(),
            vl == views_of(ls@),
            views_of(sorted@) == sort_by(vl.take(j as int), lex_le()),
        decreases ls@.len() - j,
    {
        assert(vl.take(j as int + 1).drop_last() =~= vl.take(j as int));
        assert(vl.take(j as int + 1).last() == ls@[j as int]@);
        let ghost vs = views_of(sorted@);
        let mut cnt: usize = 0;
        let mut k: usize = 0;
        while k < sorted.len()
            invariant
                k <= sorted@.len(),
                j < ls@.len(),
                vs == views_of(sorted@),
                cnt <= k,
                cnt == count_by(vs.take(k as int), ls@[j as int]@, lex_le()),
            decreases sorted@.len() - k,
        {
            assert(vs.take(k as int + 1).drop_last() =~= vs.take(k as int));
            if !str_less(ls[j].as_str(), sorted[k].as_str()) {
                cnt = cnt + 1;
            }
            k = k + 1;
        }
        assert(vs.take(k as int) =~= vs);
        sorted.insert(cnt, ls[j].clone());
        assert(views_of(sorted@) =~= vs.insert(cnt as int, ls@[j as int]@));
        j = j + 1;
    }
    assert(vl.take(j as int) =~= vl);
    sorted
}

/// A match found from position `i` on starts at `i` or later, fits in the
/// text, and is an occurrence of the needle.
pub proof fn lemma_find_in_bounds(hay: Seq<char>, needle: Seq<char>, i: int)
    ensures
        find_from(hay, needle, i) matches Some(k) ==> i <= k && k + needle.len() <= hay.len() && occurs_at(hay, needle, k),
    decreases hay.len() + 1 - i,
{
    if !(i < 0 || i + needle.len() > hay.len()) && !occurs_at(hay, needle, i) {
        lemma_find_in_bounds(hay, needle, i + 1);
    }
}

/// No text sorts before itself.
pub proof fn lemma_lex_lt_irreflexive(a: Seq<char>)
    ensures
        !lex_lt(a, a),
    decreases a.len(),
{
    if a.len() > 0 {
        lemma_lex_lt_irreflexive(a.drop_first());
    }
}

/// Of two different texts, exactly one sorts before the other.
pub proof fn lemma_lex_lt_total(a: Seq<char>, b: Seq<char>)
    ensures
        a != b ==> (lex_lt(a, b) || lex_lt(b, a)),
        !(lex_lt(a, b) && lex_lt(b, a)),
    decreases a.len(),
{
    if a.len() == 0 && b.len() == 0 {
        assert(a =~= b);
    }
    if a.len() > 0 && b.len() > 0 {
        lemma_lex_lt_total(a.drop_first(), b.drop_first());
        if a[0] == b[0] && a.drop_first() == b.drop_first() {
            assert(a =~= b) by {
                assert forall|i: int| 0 <= i < a.len() implies a[i] == b[i] by {
                    if i > 0 {
                        assert(a[i] == a.drop_first()[i - 1]);
                        assert(b[i] == b.drop_first()[i - 1]);
                    }
                }
            }
        }
    }
}

/// Sorting before is transitive.
pub proof fn lemma_lex_lt_transitive(a: Seq<char>, b: Seq<char>, c: Seq<char>)
    requires
        lex_lt(a, b),
        lex_lt(b, c),
    ensures
        lex_lt(a, c),
    decreases a.len(),
{
    if a.len() > 0 && b.len() > 0 && c.len() > 0 && a[0] == b[0] && b[0] == c[0] {
        lemma_lex_lt_transitive(a.drop_first(), b.drop_first(), c.drop_first());
    }
}

/// Alphabetical order as a preorder: `a` may stand before `b` unless `b`
/// sorts before `a`.
pub open spec fn lex_le() -> spec_fn(Seq<char>, Seq<char>) -> bool {
    |a: Seq<char>, b: Seq<char>| !lex_lt(b, a)
}

/// Alphabetical order is total and transitive.
pub proof fn lemma_lex_le_total_preorder()
    ensures
        total_preorder(lex_le()),
{
    assert forall|a: Seq<char>, b: Seq<char>| #[trigger] lex_le()(a, b) || lex_le()(b, a) by {
        lemma_lex_lt_total(a, b);
    }
    assert forall|a: Seq<char>, b: Seq<char>, c: Seq<char>| #[trigger] lex_le()(a, b) && #[trigger] lex_le()(b, c) implies lex_le()(a, c) by {
        lemma_lex_lt_total(a, b);
        lemma_lex_lt_total(b, c);
        lemma_lex_lt_total(a, c);
        if lex_lt(c, a) {
            if a != b {
                lemma_lex_lt_transitive(c, a, b);
            }
        }
    }
}


/// Reading back the decimal digits of a number gives the number: the
/// rendering is a non-empty run of digits whose value is `n`.
pub proof fn lemma_decimal_round_trip(n: nat)
    ensures
        decimal_of(n).len() > 0,
        all_digits(decimal_of(n)),
        digits_value(decimal_of(n)) == n,
    decreases n,
{
    if n >= 10 {
        lemma_decimal_round_trip(n / 10);
        let p = decimal_of(n / 10);
        let d = digit_char((n % 10) as nat);
        assert(decimal_of(n) == p.push(d));
        assert(p.push(d).drop_last() =~= p);
        assert(d as int - '0' as int == n % 10);
        assert forall|i: int| 0 <= i < p.push(d).len() implies '0' <= #[trigger] p.push(d)[i] && p.push(d)[i] <= '9' by {
            if i < p.len() {
                assert(p.push(d)[i] == p[i]);
            }
        }
        assert((n / 10) * 10 + n % 10 == n) by (nonlinear_arith);
    } else {
        assert(seq![digit_char(n)].drop_last() =~= Seq::<char>::empty());
        assert(digits_value(Seq::<char>::empty()) == 0);
        assert(digit_char(n) as int - '0' as int == n);
        assert(digits_value(seq![digit_char(n)]) == digits_value(Seq::<char>::empty()) * 10 + (digit_char(n) as int - '0' as int));
    }
}

/// Reading back the decimal rendering of an integer, sign included, gives
/// the integer.
pub proof fn lemma_signed_decimal_round_trip(n: int)
    ensures
        int_of(signed_decimal_of(n)) == Some(n),
{
    if n < 0 {
        let m = (-n) as nat;
        lemma_decimal_round_trip(m);
        let s = signed_decimal_of(n);
        assert(s.drop_first() =~= decimal_of(m));
        assert(s[0] == '-');
    } else {
        lemma_decimal_round_trip(n as nat);
        let s = decimal_of(n as nat);
        assert('0' <= s[0] && s[0] <= '9');
    }
}

} // verus!
