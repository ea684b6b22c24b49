//! Jersey presets a player can wear in the leaderboard, the lookup with the
//! "classic" jersey as fallback, and the order of the jersey picker.
//!
//! The catalogue is a list of `(key, preset)` pairs; a key names its first
//! entry.

use vstd::prelude::*;

use crate::order::{count_by, lemma_sort_by, sort_by, sorted_by, total_preorder};
use crate::text::{chars_eq, chars_of, lemma_lex_lt_irreflexive, lemma_lex_lt_total, lemma_lex_lt_transitive, lex_lt, str_eq, str_less};

verus! {

/// Jersey variant, used for grouping in the picker.
#[derive(Debug, Clone, Copy, PartialEq, Eq, Structural)]
pub enum JerseyVariant {
    Home,
    Away,
    Fan,
}

impl Default for JerseyVariant {
    fn default() -> (v: Self)
        ensures
            v == JerseyVariant::Home,
    {
        JerseyVariant::Home
    }
}

/// Colours, pattern and labels of one jersey.
#[derive(Debug, Clone)]
pub struct JerseyPreset {
    pub body: String,
    pub accent: String,
    pub pattern: String,
    pub name: String,
    pub group: String,
    pub variant: JerseyVariant,
}

/// The key of the fallback jersey.
pub const FALLBACK_KEY: &'static str = "classic";

/// Whether the catalogue holds an entry with that key.
pub open spec fn has_key(presets: Seq<(String, JerseyPreset)>, key: Seq<char>) -> bool {
    exists|i: int| 0 <= i < presets.len() && (#[trigger] presets[i]).0@ == key
}

/// `i` is the first entry with that key.
pub open spec fn first_with_key(presets: Seq<(String, JerseyPreset)>, key: Seq<char>, i: int) -> bool {
    &&& 0 <= i < presets.len()
    &&& presets[i].0@ == key
    &&& forall|j: int| 0 <= j < i ==> (#[trigger] presets[j]).0@ != key
}

/// The preset a key stands for: its own entry, else the fallback's.
pub open spec fn preset_for(presets: Seq<(String, JerseyPreset)>, key: Seq<char>, p: JerseyPreset) -> bool {
    if has_key(presets, key) {
        exists|i: int| #[trigger] first_with_key(presets, key, i) && p == presets[i].1
    } else {
        exists|i: int| #[trigger] first_with_key(presets, FALLBACK_KEY@, i) && p == presets[i].1
    }
}

/// Index of the first entry with that key, if any.
fn find_key(presets: &Vec<(String, JerseyPreset)>, key: &str) -> (r: Option<usize>)
    ensures
        match r {
            Some(i) => first_with_key(presets@, key@, i as int),
            None => !has_key(presets@, key@),
        },
{
    let mut i: usize = 0;
    while i < presets.len()
        invariant
            i <= presets@.len(),
            forall|j: int| 0 <= j < i ==> (#[trigger] presets@[j]).0@ != key@,
        decreases presets@.len() - i,
    {
        if str_eq(presets[i].0.as_str(), key) {
            return Some(i);
        }
        i = i + 1;
    }
    None
}

/// The preset stored under `key`, or the "classic" one when the key is
/// unknown.
pub fn get<'a>(presets: &'a Vec<(String, JerseyPreset)>, key: &str) -> (p: &'a JerseyPreset)
    requires
        has_key(presets@, FALLBACK_KEY@),
    ensures
        preset_for(presets@, key@, *p),
{
    match find_key(presets, key) {
        Some(i) => &presets[i].1,
        None => {
            let i = find_key(presets, FALLBACK_KEY).unwrap();
            &presets[i].1
        },
    }
}

// ─── Picker ───────────────────────────────────────────────────────────────────

/// One choice of the jersey picker: the catalogue key, the preset, and its
/// (localised) display name.
#[derive(Debug, Clone)]
pub struct JerseyOption {
    pub key: String,
    pub preset: JerseyPreset,
    pub display_name: String,
}

/// The group of the club's own jerseys, listed first.
pub open spec fn is_own_group(o: JerseyOption) -> bool {
    o.preset.group@ == "Pila"@
}

/// Picker order: the club's own jerseys first, then by group name, then by
/// display name (both by code point).
pub open spec fn option_le() -> spec_fn(JerseyOption, JerseyOption) -> bool {
    |a: JerseyOption, b: JerseyOption|
        if is_own_group(a) != is_own_group(b) {
            is_own_group(a)
        } else if a.preset.group@ != b.preset.group@ {
            lex_lt(a.preset.group@, b.preset.group@)
        } else {
            !lex_lt(b.display_name@, a.display_name@)
        }
}

/// The options of one variant, in catalogue order.
pub open spec fn of_variant(opts: Seq<JerseyOption>, v: JerseyVariant) -> Seq<JerseyOption>
    decreases opts.len(),
{
    if opts.len() == 0 {
        Seq::empty()
    } else {
        let r = of_variant(opts.drop_last(), v);
        if opts.last().preset.variant == v {
            r.push(opts.last())
        } else {
            r
        }
    }
}

/// The picker's three lists: home, away and fan jerseys, each in picker
/// order.
pub open spec fn picker_of(opts: Seq<JerseyOption>) -> (Seq<JerseyOption>, Seq<JerseyOption>, Seq<JerseyOption>) {
    (
        sort_by(of_variant(opts, JerseyVariant::Home), option_le()),
        sort_by(of_variant(opts, JerseyVariant::Away), option_le()),
        sort_by(of_variant(opts, JerseyVariant::Fan), option_le()),
    )
}

fn copy_option(o: &JerseyOption) -> (c: JerseyOption)
    ensures
        c == *o,
{
    JerseyOption {
        key: o.key.clone(),
        preset: JerseyPreset {
            body: o.preset.body.clone(),
            accent: o.preset.accent.clone(),
            pattern: o.preset.pattern.clone(),
            name: o.preset.name.clone(),
            group: o.preset.group.clone(),
            variant: o.preset.variant,
        },
        display_name: o.display_name.clone(),
    }
}

/// Whether `a` may stand before `b` in the picker.
fn option_before(a: &JerseyOption, b: &JerseyOption) -> (r: bool)
    ensures
        r == option_le()(*a, *b),
{
    let own_a = str_eq(a.preset.group.as_str(), "Pila");
    let own_b = str_eq(b.preset.group.as_str(), "Pila");
    if own_a != own_b {
        return own_a;
    }
    let ga = chars_of(a.preset.group.as_str());
    let gb = chars_of(b.preset.group.as_str());
    if !chars_eq(&ga, &gb) {
        return str_less(a.preset.group.as_str(), b.preset.group.as_str());
    }
    !str_less(b.display_name.as_str(), a.display_name.as_str())
}

/// The options of one variant in picker order.
fn sorted_variant(opts: &Vec<JerseyOption>, v: JerseyVariant) -> (out: Vec<JerseyOption>)
    ensures
        out@ == sort_by(of_variant(opts@, v), option_le()),
{
    let mut out: Vec<JerseyOption> = Vec::new();
    let mut i: usize = 0;
    while i < opts.len()
        invariant
            i <= opts@.len(),
            out@ == sort_by(of_variant(opts@.take(i as int), v), option_le()),
        decreases opts@.len() - i,
    {
        assert(opts@.take(i as int + 1).drop_last() =~= opts@.take(i as int));
        let o = &opts[i];
        if o.preset.variant == v {
            let ghost base = of_variant(opts@.take(i as int), v);
            assert(base.push(*o).drop_last() =~= base);
            let mut cnt: usize = 0;
            let mut k: usize = 0;
            while k < out.len()
                invariant
                    k <= out@.len(),
                    cnt <= k,
                    cnt == count_by(out@.take(k as int), *o, option_le()),
                decreases out@.len() - k,
            {
                assert(out@.take(k as int + 1).drop_last() =~= out@.take(k as int));
                if option_before(&out[k], o) {
                    cnt = cnt + 1;
                }
                k = k + 1;
            }
            assert(out@.take(k as int) =~= out@);
            out.insert(cnt, copy_option(o));
        }
        i = i + 1;
    }
    assert(opts@.take(i as int) =~= opts@);
    out
}

/// The jersey picker: home, away and fan options, each with the club's own
/// jerseys first, then by group, then by display name; options that compare
/// equal keep their catalogue order.
pub fn picker_groups(opts: &Vec<JerseyOption>) -> (groups: (Vec<JerseyOption>, Vec<JerseyOption>, Vec<JerseyOption>))
    ensures
        (groups.0@, groups.1@, groups.2@) == picker_of(opts@),
{
    (
        sorted_variant(opts, JerseyVariant::Home),
        sorted_variant(opts, JerseyVariant::Away),
        sorted_variant(opts, JerseyVariant::Fan),
    )
}

/// The picker order is total and transitive.
pub proof fn lemma_option_le_total_preorder()
    ensures
        total_preorder(option_le()),
{
    assert forall|a: JerseyOption, b: JerseyOption| #[trigger] option_le()(a, b) || option_le()(b, a) by {
        lemma_lex_lt_total(a.preset.group@, b.preset.group@);
        lemma_lex_lt_total(a.display_name@, b.display_name@);
    }
    assert forall|a: JerseyOption, b: JerseyOption, c: JerseyOption|
        #[trigger] option_le()(a, b) && #[trigger] option_le()(b, c) implies option_le()(a, c) by {
        lemma_lex_lt_total(a.preset.group@, b.preset.group@);
        lemma_lex_lt_total(b.preset.group@, c.preset.group@);
        lemma_lex_lt_total(a.preset.group@, c.preset.group@);
        lemma_lex_lt_total(a.display_name@, b.display_name@);
        lemma_lex_lt_total(b.display_name@, c.display_name@);
        lemma_lex_lt_total(a.display_name@, c.display_name@);
        if lex_lt(a.preset.group@, b.preset.group@) && lex_lt(b.preset.group@, c.preset.group@) {
            lemma_lex_lt_transitive(a.preset.group@, b.preset.group@, c.preset.group@);
        }
        if lex_lt(c.display_name@, b.display_name@) && lex_lt(b.display_name@, a.display_name@) {
            lemma_lex_lt_transitive(c.display_name@, b.display_name@, a.display_name@);
        }
        if lex_lt(c.display_name@, a.display_name@) && lex_lt(a.display_name@, b.display_name@) {
            lemma_lex_lt_transitive(c.display_name@, a.display_name@, b.display_name@);
        }
        if lex_lt(b.display_name@, c.display_name@) && lex_lt(c.display_name@, a.display_name@) {
            lemma_lex_lt_transitive(b.display_name@, c.display_name@, a.display_name@);
        }
        lemma_lex_lt_irreflexive(a.preset.group@);
        lemma_lex_lt_irreflexive(a.display_name@);
    }
}

/// Each list of the picker holds exactly the catalogue's options of its
/// variant, in picker order: the club's own jerseys come before all others.
pub proof fn lemma_picker_sorted(opts: Seq<JerseyOption>)
    ensures
        sorted_by(picker_of(opts).0, option_le()),
        sorted_by(picker_of(opts).1, option_le()),
        sorted_by(picker_of(opts).2, option_le()),
        picker_of(opts).0.to_multiset() == of_variant(opts, JerseyVariant::Home).to_multiset(),
        picker_of(opts).1.to_multiset() == of_variant(opts, JerseyVariant::Away).to_multiset(),
        picker_of(opts).2.to_multiset() == of_variant(opts, JerseyVariant::Fan).to_multiset(),
        forall|i: int, j: int| 0 <= i < j < picker_of(opts).0.len() && is_own_group(#[trigger] picker_of(opts).0[j])
            ==> is_own_group(#[trigger] picker_of(opts).0[i]),
{
    lemma_option_le_total_preorder();
    lemma_sort_by(of_variant(opts, JerseyVariant::Home), option_le());
    lemma_sort_by(of_variant(opts, JerseyVariant::Away), option_le());
    lemma_sort_by(of_variant(opts, JerseyVariant::Fan), option_le());
}

} // verus!
