//! The league leaderboard: points and still-achievable points per player.
//!
//! Every player who is a league member, has a prediction or has a champion
//! pick gets one entry, keyed by display name. Finished matches with a result
//! add their points; unfinished matches add the most they can still give.
//! A champion pick adds its bonus once the cup is decided and counts ten
//! potential points before. Entries are ordered by points (descending), ties
//! by name (ascending).

use vstd::prelude::*;

use crate::badges::{BadgeView, MAX_ROWS};
use crate::jersey::{get, has_key, preset_for, JerseyPreset, FALLBACK_KEY};
use crate::scoring::{
    calculate_match_points_for_system, champion_bonus_points, champion_points, lemma_match_points_within_max,
    match_points, max_points, max_potential_points_for_system, MatchScoringSystem,
};
use crate::stage::{phase_of, Stage};
use crate::text::{lemma_lex_lt_irreflexive, lemma_lex_lt_total, lemma_lex_lt_transitive, lex_lt, str_eq, str_less};

verus! {

broadcast use vstd::seq_lib::group_seq_properties;

/// A league member.
#[derive(Debug, Clone)]
pub struct UserBasic {
    pub id: u128,
    pub name: String,
    pub jersey_preset: String,
}

/// A prediction joined with its match and the predicting player's name.
#[derive(Debug, Clone)]
pub struct LeaderboardPredictionRow {
    pub user_name: String,
    pub stage: Stage,
    pub kickoff_time: Option<i64>,
    pub status: String,
    pub score_home: Option<i32>,
    pub score_away: Option<i32>,
    pub predicted_home: i32,
    pub predicted_away: i32,
}

/// A champion pick joined with the player's name and the team.
#[derive(Debug, Clone)]
pub struct ChampionPickRow {
    pub user_name: String,
    pub champion_id: Option<i32>,
    pub team_name: Option<String>,
    pub flag_code: Option<String>,
}

/// One line of the leaderboard.
#[derive(Debug, Clone)]
pub struct LeaderboardEntry {
    pub id: u128,
    pub name: String,
    pub total_points: i32,
    pub max_potential_points: i32,
    pub jersey_body: String,
    pub jersey_accent: String,
    pub jersey_pattern: String,
    pub achievements: Vec<BadgeView>,
}

// ─── Model ────────────────────────────────────────────────────────────────────

/// Points a prediction earned: only finished matches with a result count.
pub open spec fn row_points(system: MatchScoringSystem, r: LeaderboardPredictionRow) -> int {
    if r.status@ == "finished"@ {
        match (r.score_home, r.score_away) {
            (Some(h), Some(a)) => match_points(system, r.stage, h as int, a as int, r.predicted_home as int, r.predicted_away as int),
            _ => 0,
        }
    } else {
        0
    }
}

/// Points a prediction can still earn: the stage maximum until the match is
/// finished.
pub open spec fn row_potential(system: MatchScoringSystem, r: LeaderboardPredictionRow) -> int {
    if r.status@ == "finished"@ {
        0
    } else {
        max_points(system, phase_of(r.stage))
    }
}

/// Bonus a champion pick earned once the cup is decided.
pub open spec fn pick_points(p: ChampionPickRow, actual: Option<i32>) -> int {
    if p.champion_id is Some && actual is Some {
        champion_bonus_points(p.champion_id, actual)
    } else {
        0
    }
}

/// Bonus a champion pick can still earn while the cup is open.
pub open spec fn pick_potential(p: ChampionPickRow, actual: Option<i32>) -> int {
    if p.champion_id is Some && actual is None {
        10
    } else {
        0
    }
}

/// Sum of `row_points` over the rows of player `name`.
pub open spec fn rows_points(system: MatchScoringSystem, rows: Seq<LeaderboardPredictionRow>, name: Seq<char>) -> int
    decreases rows.len(),
{
    if rows.len() == 0 {
        0
    } else {
        rows_points(system, rows.drop_last(), name) + if rows.last().user_name@ == name {
            row_points(system, rows.last())
        } else {
            0
        }
    }
}

/// Sum of `row_potential` over the rows of player `name`.
pub open spec fn rows_potential(system: MatchScoringSystem, rows: Seq<LeaderboardPredictionRow>, name: Seq<char>) -> int
    decreases rows.len(),
{
    if rows.len() == 0 {
        0
    } else {
        rows_potential(system, rows.drop_last(), name) + if rows.last().user_name@ == name {
            row_potential(system, rows.last())
        } else {
            0
        }
    }
}

/// Sum of `pick_points` over the picks of player `name`.
pub open spec fn picks_points(picks: Seq<ChampionPickRow>, actual: Option<i32>, name: Seq<char>) -> int
    decreases picks.len(),
{
    if picks.len() == 0 {
        0
    } else {
        picks_points(picks.drop_last(), actual, name) + if picks.last().user_name@ == name {
            pick_points(picks.last(), actual)
        } else {
            0
        }
    }
}

/// Sum of `pick_potential` over the picks of player `name`.
pub open spec fn picks_potential(picks: Seq<ChampionPickRow>, actual: Option<i32>, name: Seq<char>) -> int
    decreases picks.len(),
{
    if picks.len() == 0 {
        0
    } else {
        picks_potential(picks.drop_last(), actual, name) + if picks.last().user_name@ == name {
            pick_potential(picks.last(), actual)
        } else {
            0
        }
    }
}

/// Everything a leaderboard is computed from.
pub struct LeaderboardInput {
    pub system: MatchScoringSystem,
    pub users: Vec<UserBasic>,
    pub rows: Vec<LeaderboardPredictionRow>,
    pub picks: Vec<ChampionPickRow>,
    pub actual_champion: Option<i32>,
}

impl LeaderboardInput {
    /// The sums stay within `i32`.
    pub open spec fn wf(&self) -> bool {
        self.rows@.len() + self.picks@.len() <= MAX_ROWS
    }

    /// Points of player `name`.
    pub open spec fn total_of(&self, name: Seq<char>) -> int {
        rows_points(self.system, self.rows@, name) + picks_points(self.picks@, self.actual_champion, name)
    }

    /// Points player `name` can still earn.
    pub open spec fn potential_of(&self, name: Seq<char>) -> int {
        rows_potential(self.system, self.rows@, name) + picks_potential(self.picks@, self.actual_champion, name)
    }

    /// Whether `name` is a member or appears in a prediction or a pick.
    pub open spec fn is_player(&self, name: Seq<char>) -> bool {
        ||| has_user_below(self.users@, self.users@.len() as int, name)
        ||| has_row_below(self.rows@, self.rows@.len() as int, name)
        ||| has_pick_below(self.picks@, self.picks@.len() as int, name)
    }
}

/// One of the first `k` members is called `name`.
pub open spec fn has_user_below(users: Seq<UserBasic>, k: int, name: Seq<char>) -> bool {
    exists|q: int| 0 <= q < k && q < users.len() && (#[trigger] users[q]).name@ == name
}

/// One of the first `k` predictions is by `name`.
pub open spec fn has_row_below(rows: Seq<LeaderboardPredictionRow>, k: int, name: Seq<char>) -> bool {
    exists|q: int| 0 <= q < k && q < rows.len() && (#[trigger] rows[q]).user_name@ == name
}

/// One of the first `k` picks is by `name`.
pub open spec fn has_pick_below(picks: Seq<ChampionPickRow>, k: int, name: Seq<char>) -> bool {
    exists|q: int| 0 <= q < k && q < picks.len() && (#[trigger] picks[q]).user_name@ == name
}

/// One of the first `k` texts is `name`.
pub open spec fn lists_below(s: Seq<String>, k: int, name: Seq<char>) -> bool {
    exists|q: int| 0 <= q < k && q < s.len() && (#[trigger] s[q])@ == name
}

/// One of the entries is the one of `name`.
pub open spec fn has_entry(out: Seq<LeaderboardEntry>, name: Seq<char>) -> bool {
    exists|q: int| 0 <= q < out.len() && (#[trigger] out[q]).name@ == name
}

/// No text occurs twice.
pub open spec fn distinct_texts(s: Seq<String>) -> bool {
    forall|a: int, b: int| 0 <= a < b < s.len() ==> (#[trigger] s[a])@ != (#[trigger] s[b])@
}

/// Id of the last member with that name; zero for a name without member.
pub open spec fn id_of(users: Seq<UserBasic>, name: Seq<char>) -> u128
    decreases users.len(),
{
    if users.len() == 0 {
        0
    } else if users.last().name@ == name {
        users.last().id
    } else {
        id_of(users.drop_last(), name)
    }
}

/// Jersey key of the last member with that name; the fallback key for a name
/// without member.
pub open spec fn jersey_key_of(users: Seq<UserBasic>, name: Seq<char>) -> Seq<char>
    decreases users.len(),
{
    if users.len() == 0 {
        FALLBACK_KEY@
    } else if users.last().name@ == name {
        users.last().jersey_preset@
    } else {
        jersey_key_of(users.drop_last(), name)
    }
}

/// The entry is the one of its player.
pub open spec fn entry_fits(e: LeaderboardEntry, input: LeaderboardInput, jerseys: Seq<(String, JerseyPreset)>) -> bool {
    let n = e.name@;
    &&& input.is_player(n)
    &&& e.id == id_of(input.users@, n)
    &&& e.total_points == input.total_of(n)
    &&& e.max_potential_points == input.total_of(n) + input.potential_of(n)
    &&& exists|p: JerseyPreset| #[trigger] preset_for(jerseys, jersey_key_of(input.users@, n), p)
        && e.jersey_body@ == p.body@ && e.jersey_accent@ == p.accent@ && e.jersey_pattern@ == p.pattern@
    &&& e.achievements@.len() == 0
}

/// Leaderboard order: more points first, ties by name.
pub open spec fn ranks_before(a: LeaderboardEntry, b: LeaderboardEntry) -> bool {
    ||| a.total_points > b.total_points
    ||| a.total_points == b.total_points && lex_lt(a.name@, b.name@)
}

/// `out` is the leaderboard of the input: one fitting entry per player, in
/// leaderboard order.
pub open spec fn is_leaderboard(out: Seq<LeaderboardEntry>, input: LeaderboardInput, jerseys: Seq<(String, JerseyPreset)>) -> bool {
    &&& forall|i: int| 0 <= i < out.len() ==> entry_fits(#[trigger] out[i], input, jerseys)
    &&& forall|name: Seq<char>| #[trigger] input.is_player(name) ==> has_entry(out, name)
    &&& forall|i: int, j: int| 0 <= i < j < out.len() ==> ranks_before(#[trigger] out[i], #[trigger] out[j])
}

// ─── Bounds ───────────────────────────────────────────────────────────────────

proof fn lemma_row_bounds(system: MatchScoringSystem, r: LeaderboardPredictionRow)
    ensures
        0 <= row_points(system, r) <= 11,
        0 <= row_potential(system, r) <= 11,
{
    if let (Some(h), Some(a)) = (r.score_home, r.score_away) {
        lemma_match_points_within_max(system, r.stage, h as int, a as int, r.predicted_home as int, r.predicted_away as int);
    }
}

// ─── Computation ─────────────────────────────────────────────────────────────

/// Points and potential of player `name`.
fn tally(input: &LeaderboardInput, name: &String) -> (r: (i32, i32))
    requires
        input.wf(),
    ensures
        r.0 == input.total_of(name@),
        r.1 == input.potential_of(name@),
        0 <= r.0 <= 11 * input.rows@.len() + 10 * input.picks@.len(),
        0 <= r.1 <= 11 * input.rows@.len() + 10 * input.picks@.len(),
{
    let rows = &input.rows;
    let picks = &input.picks;
    let mut pts: i32 = 0;
    let mut pot: i32 = 0;
    let mut j: usize = 0;
    while j < rows.len()
        invariant
            j <= rows@.len(),
            rows@.len() + picks@.len() <= MAX_ROWS,
            pts == rows_points(input.system, rows@.take(j as int), name@),
            pot == rows_potential(input.system, rows@.take(j as int), name@),
            0 <= pts <= 11 * j,
            0 <= pot <= 11 * j,
        decreases rows@.len() - j,
    {
        let r = &rows[j];
        assert(rows@.take(j as int + 1).drop_last() =~= rows@.take(j as int));
        proof {
            lemma_row_bounds(input.system, *r);
        }
        if r.user_name == *name {
            if str_eq(r.status.as_str(), "finished") {
                if let (Some(h), Some(a)) = (r.score_home, r.score_away) {
                    pts = pts + calculate_match_points_for_system(input.system, r.stage, h, a, r.predicted_home, r.predicted_away);
                }
            } else {
                pot = pot + max_potential_points_for_system(input.system, r.stage);
            }
        }
        j = j + 1;
    }
    assert(rows@.take(j as int) =~= rows@);
    let ghost row_pts = pts as int;
    let ghost row_pot = pot as int;
    let mut k: usize = 0;
    while k < picks.len()
        invariant
            k <= picks@.len(),
            rows@.len() + picks@.len() <= MAX_ROWS,
            0 <= row_pts <= 11 * rows@.len(),
            0 <= row_pot <= 11 * rows@.len(),
            pts == row_pts + picks_points(picks@.take(k as int), input.actual_champion, name@),
            pot == row_pot + picks_potential(picks@.take(k as int), input.actual_champion, name@),
            row_pts <= pts <= row_pts + 10 * k,
            row_pot <= pot <= row_pot + 10 * k,
        decreases picks@.len() - k,
    {
        let p = &picks[k];
        assert(picks@.take(k as int + 1).drop_last() =~= picks@.take(k as int));
        if p.user_name == *name {
            if let Some(cid) = p.champion_id {
                if input.actual_champion.is_some() {
                    pts = pts + champion_points(Some(cid), input.actual_champion);
                } else {
                    pot = pot + 10;
                }
            }
        }
        k = k + 1;
    }
    assert(picks@.take(k as int) =~= picks@);
    (pts, pot)
}

/// Whether `s` already holds that name.
fn holds_name(s: &Vec<String>, name: &String) -> (b: bool)
    ensures
        b == lists_below(s@, s@.len() as int, name@),
{
    let mut i: usize = 0;
    while i < s.len()
        invariant
            i <= s@.len(),
            forall|q: int| 0 <= q < i ==> (#[trigger] s@[q])@ != name@,
        decreases s@.len() - i,
    {
        if s[i] == *name {
            return true;
        }
        i = i + 1;
    }
    false
}

/// Adds the name unless it is already there.
fn add_name(s: &mut Vec<String>, name: &String)
    requires
        distinct_texts(old(s)@),
    ensures
        distinct_texts(final(s)@),
        forall|n: Seq<char>| #[trigger] lists_below(final(s)@, final(s)@.len() as int, n) == (
            lists_below(old(s)@, old(s)@.len() as int, n) || n == name@),
{
    let ghost before = s@;
    if !holds_name(s, name) {
        s.push(name.clone());
        assert forall|n: Seq<char>| #[trigger] lists_below(s@, s@.len() as int, n) == (
            lists_below(before, before.len() as int, n) || n == name@) by {
            if n == name@ {
                assert(s@[before.len() as int]@ == n);
            }
            if lists_below(before, before.len() as int, n) {
                let q = choose|q: int| 0 <= q < before.len() && q < before.len() && (#[trigger] before[q])@ == n;
                assert(s@[q]@ == n);
            }
            if lists_below(s@, s@.len() as int, n) {
                let q = choose|q: int| 0 <= q < s@.len() && q < s@.len() && (#[trigger] s@[q])@ == n;
                if q < before.len() {
                    assert(before[q]@ == n);
                }
            }
        }
    } else {
        assert forall|n: Seq<char>| #[trigger] lists_below(s@, s@.len() as int, n) == (
            lists_below(before, before.len() as int, n) || n == name@) by {
        }
    }
}

proof fn lemma_user_step(users: Seq<UserBasic>, k: int)
    requires
        0 <= k < users.len(),
    ensures
        forall|n: Seq<char>| #[trigger] has_user_below(users, k + 1, n) == (has_user_below(users, k, n) || users[k].name@ == n),
{
    assert forall|n: Seq<char>| #[trigger] has_user_below(users, k + 1, n) == (has_user_below(users, k, n) || users[k].name@ == n) by {
        if has_user_below(users, k + 1, n) {
            let q = choose|q: int| 0 <= q < k + 1 && q < users.len() && (#[trigger] users[q]).name@ == n;
            if q < k {
                assert(has_user_below(users, k, n));
            }
        }
    }
}

proof fn lemma_row_step(rows: Seq<LeaderboardPredictionRow>, k: int)
    requires
        0 <= k < rows.len(),
    ensures
        forall|n: Seq<char>| #[trigger] has_row_below(rows, k + 1, n) == (has_row_below(rows, k, n) || rows[k].user_name@ == n),
{
    assert forall|n: Seq<char>| #[trigger] has_row_below(rows, k + 1, n) == (has_row_below(rows, k, n) || rows[k].user_name@ == n) by {
        if has_row_below(rows, k + 1, n) {
            let q = choose|q: int| 0 <= q < k + 1 && q < rows.len() && (#[trigger] rows[q]).user_name@ == n;
            if q < k {
                assert(has_row_below(rows, k, n));
            }
        }
    }
}

proof fn lemma_pick_step(picks: Seq<ChampionPickRow>, k: int)
    requires
        0 <= k < picks.len(),
    ensures
        forall|n: Seq<char>| #[trigger] has_pick_below(picks, k + 1, n) == (has_pick_below(picks, k, n) || picks[k].user_name@ == n),
{
    assert forall|n: Seq<char>| #[trigger] has_pick_below(picks, k + 1, n) == (has_pick_below(picks, k, n) || picks[k].user_name@ == n) by {
        if has_pick_below(picks, k + 1, n) {
            let q = choose|q: int| 0 <= q < k + 1 && q < picks.len() && (#[trigger] picks[q]).user_name@ == n;
            if q < k {
                assert(has_pick_below(picks, k, n));
            }
        }
    }
}

/// The player names, each once.
fn player_names(input: &LeaderboardInput) -> (names: Vec<String>)
    ensures
        distinct_texts(names@),
        forall|n: Seq<char>| #[trigger] lists_below(names@, names@.len() as int, n) == input.is_player(n),
{
    let mut names: Vec<String> = Vec::new();
    let mut i: usize = 0;
    while i < input.users.len()
        invariant
            i <= input.users@.len(),
            distinct_texts(names@),
            forall|n: Seq<char>| #[trigger] lists_below(names@, names@.len() as int, n) == has_user_below(input.users@, i as int, n),
        decreases input.users@.len() - i,
    {
        proof {
            lemma_user_step(input.users@, i as int);
        }
        add_name(&mut names, &input.users[i].name);
        i = i + 1;
    }
    let mut i: usize = 0;
    while i < input.rows.len()
        invariant
            i <= input.rows@.len(),
            distinct_texts(names@),
            forall|n: Seq<char>| #[trigger] lists_below(names@, names@.len() as int, n) == (
                has_user_below(input.users@, input.users@.len() as int, n) || has_row_below(input.rows@, i as int, n)),
        decreases input.rows@.len() - i,
    {
        proof {
            lemma_row_step(input.rows@, i as int);
        }
        add_name(&mut names, &input.rows[i].user_name);
        i = i + 1;
    }
    let mut i: usize = 0;
    while i < input.picks.len()
        invariant
            i <= input.picks@.len(),
            distinct_texts(names@),
            forall|n: Seq<char>| #[trigger] lists_below(names@, names@.len() as int, n) == (
                has_user_below(input.users@, input.users@.len() as int, n)
                || has_row_below(input.rows@, input.rows@.len() as int, n)
                || has_pick_below(input.picks@, i as int, n)),
        decreases input.picks@.len() - i,
    {
        proof {
            lemma_pick_step(input.picks@, i as int);
        }
        add_name(&mut names, &input.picks[i].user_name);
        i = i + 1;
    }
    names
}

/// Id and jersey key of the last member with that name.
fn member_of(users: &Vec<UserBasic>, name: &String) -> (r: (u128, String))
    ensures
        r.0 == id_of(users@, name@),
        r.1@ == jersey_key_of(users@, name@),
{
    let mut id: u128 = 0;
    let mut key = String::from_str(FALLBACK_KEY);
    let mut i: usize = 0;
    while i < users.len()
        invariant
            i <= users@.len(),
            id == id_of(users@.take(i as int), name@),
            key@ == jersey_key_of(users@.take(i as int), name@),
        decreases users@.len() - i,
    {
        assert(users@.take(i as int + 1).drop_last() =~= users@.take(i as int));
        if users[i].name == *name {
            id = users[i].id;
            key = users[i].jersey_preset.clone();
        }
        i = i + 1;
    }
    assert(users@.take(i as int) =~= users@);
    (id, key)
}

/// Whether `a` comes before `b` on the leaderboard.
fn entry_before(a: &LeaderboardEntry, b: &LeaderboardEntry) -> (r: bool)
    ensures
        r == ranks_before(*a, *b),
{
    if a.total_points != b.total_points {
        a.total_points > b.total_points
    } else {
        str_less(a.name.as_str(), b.name.as_str())
    }
}

proof fn lemma_ranks_before_transitive(a: LeaderboardEntry, b: LeaderboardEntry, c: LeaderboardEntry)
    requires
        ranks_before(a, b),
        ranks_before(b, c),
    ensures
        ranks_before(a, c),
{
    if a.total_points == b.total_points && b.total_points == c.total_points {
        lemma_lex_lt_transitive(a.name@, b.name@, c.name@);
    }
}

proof fn lemma_ranks_before_total(a: LeaderboardEntry, b: LeaderboardEntry)
    requires
        a.name@ != b.name@,
    ensures
        ranks_before(a, b) || ranks_before(b, a),
{
    lemma_lex_lt_total(a.name@, b.name@);
}

/// Inserts an entry whose name is new at its place in leaderboard order.
fn insert_entry(out: &mut Vec<LeaderboardEntry>, e: LeaderboardEntry)
    requires
        forall|i: int, j: int| 0 <= i < j < old(out)@.len() ==> ranks_before(#[trigger] old(out)@[i], #[trigger] old(out)@[j]),
        forall|i: int| 0 <= i < old(out)@.len() ==> (#[trigger] old(out)@[i]).name@ != e.name@,
    ensures
        forall|i: int, j: int| 0 <= i < j < final(out)@.len() ==> ranks_before(#[trigger] final(out)@[i], #[trigger] final(out)@[j]),
        exists|k: int| 0 <= k <= old(out)@.len() && final(out)@ == old(out)@.insert(k, e),
{
    let ghost s = out@;
    let mut k: usize = 0;
    while k < out.len() && entry_before(&out[k], &e)
        invariant
            k <= out@.len(),
            s == out@,
            forall|q: int| 0 <= q < k ==> ranks_before(#[trigger] s[q], e),
        decreases out@.len() - k,
    {
        k = k + 1;
    }
    proof {
        if k < s.len() {
            lemma_ranks_before_total(s[k as int], e);
            assert forall|q: int| k <= q < s.len() implies ranks_before(e, #[trigger] s[q]) by {
                if q > k {
                    lemma_ranks_before_transitive(e, s[k as int], s[q]);
                }
            }
        }
    }
    out.insert(k, e);
    proof {
        let t = out@;
        assert(t == s.insert(k as int, e));
        assert forall|i: int, j: int| 0 <= i < j < t.len() implies ranks_before(#[trigger] t[i], #[trigger] t[j]) by {
            if j < k {
                assert(t[i] == s[i] && t[j] == s[j]);
            } else if j == k {
                assert(t[i] == s[i]);
            } else if i < k {
                assert(t[i] == s[i] && t[j] == s[j - 1]);
                lemma_ranks_before_transitive(s[i], e, s[j - 1]);
            } else if i == k {
                assert(t[j] == s[j - 1]);
            } else {
                assert(t[i] == s[i - 1] && t[j] == s[j - 1]);
            }
        }
    }
}

/// The leaderboard of a league: one entry per player with points, points
/// still achievable on top, member id and jersey colours, ordered by points
/// and then name.
pub fn leaderboard(input: &LeaderboardInput, jerseys: &Vec<(String, JerseyPreset)>) -> (out: Vec<LeaderboardEntry>)
    requires
        input.wf(),
        has_key(jerseys@, FALLBACK_KEY@),
    ensures
        is_leaderboard(out@, *input, jerseys@),
{
    let names = player_names(input);
    let mut out: Vec<LeaderboardEntry> = Vec::new();
    let mut i: usize = 0;
    while i < names.len()
        invariant
            i <= names@.len(),
            input.wf(),
            has_key(jerseys@, FALLBACK_KEY@),
            distinct_texts(names@),
            forall|n: Seq<char>| #[trigger] lists_below(names@, names@.len() as int, n) == input.is_player(n),
            forall|q: int| 0 <= q < out@.len() ==> entry_fits(#[trigger] out@[q], *input, jerseys@),
            forall|n: Seq<char>| #[trigger] has_entry(out@, n) == lists_below(names@, i as int, n),
            forall|a: int, b: int| 0 <= a < b < out@.len() ==> ranks_before(#[trigger] out@[a], #[trigger] out@[b]),
        decreases names@.len() - i,
    {
        let name = &names[i];
        let (total, potential) = tally(input, name);
        let (id, key) = member_of(&input.users, name);
        let preset = get(jerseys, key.as_str());
        assert(lists_below(names@, names@.len() as int, name@));
        let e = LeaderboardEntry {
            id,
            name: name.clone(),
            total_points: total,
            max_potential_points: total + potential,
            jersey_body: preset.body.clone(),
            jersey_accent: preset.accent.clone(),
            jersey_pattern: preset.pattern.clone(),
            achievements: Vec::new(),
        };
        assert(preset_for(jerseys@, jersey_key_of(input.users@, e.name@), *preset));
        assert(input.is_player(e.name@));
        assert(e.achievements@.len() == 0);
        assert(entry_fits(e, *input, jerseys@));
        assert forall|q: int| 0 <= q < out@.len() implies (#[trigger] out@[q]).name@ != e.name@ by {
            let n = out@[q].name@;
            assert(has_entry(out@, n));
            let w = choose|w: int| 0 <= w < i && w < names@.len() && (#[trigger] names@[w])@ == n;
            assert(names@[w]@ != names@[i as int]@);
        }
        let ghost before = out@;
        insert_entry(&mut out, e);
        proof {
            let k = choose|k: int| 0 <= k <= before.len() && out@ == before.insert(k, e);
            assert forall|q: int| 0 <= q < out@.len() implies entry_fits(#[trigger] out@[q], *input, jerseys@) by {
                if q < k {
                    assert(out@[q] == before[q]);
                } else if q > k {
                    assert(out@[q] == before[q - 1]);
                }
            }
            assert forall|n: Seq<char>| #[trigger] has_entry(out@, n) == lists_below(names@, i + 1, n) by {
                if has_entry(out@, n) {
                    let q = choose|q: int| 0 <= q < out@.len() && (#[trigger] out@[q]).name@ == n;
                    if q < k {
                        assert(out@[q] == before[q]);
                        assert(has_entry(before, n));
                    } else if q > k {
                        assert(out@[q] == before[q - 1]);
                        assert(has_entry(before, n));
                    } else {
                        assert(names@[i as int]@ == n);
                    }
                }
                if lists_below(names@, i + 1, n) {
                    let q = choose|q: int| 0 <= q < i + 1 && q < names@.len() && (#[trigger] names@[q])@ == n;
                    if q == i {
                        assert(out@[k] == e);
                    } else {
                        assert(lists_below(names@, i as int, n));
                        assert(has_entry(before, n));
                        let w = choose|w: int| 0 <= w < before.len() && (#[trigger] before[w]).name@ == n;
                        if w < k {
                            assert(out@[w] == before[w]);
                        } else {
                            assert(out@[w + 1] == before[w]);
                        }
                    }
                }
            }
        }
        i = i + 1;
    }
    out
}

// ─── Laws ─────────────────────────────────────────────────────────────────────

proof fn lemma_potential_nonnegative(input: LeaderboardInput, name: Seq<char>)
    ensures
        input.potential_of(name) >= 0,
{
    lemma_rows_potential_nonnegative(input.system, input.rows@, name);
    lemma_picks_potential_nonnegative(input.picks@, input.actual_champion, name);
}

proof fn lemma_rows_potential_nonnegative(system: MatchScoringSystem, rows: Seq<LeaderboardPredictionRow>, name: Seq<char>)
    ensures
        rows_potential(system, rows, name) >= 0,
    decreases rows.len(),
{
    if rows.len() > 0 {
        lemma_rows_potential_nonnegative(system, rows.drop_last(), name);
        lemma_row_bounds(system, rows.last());
    }
}

proof fn lemma_picks_potential_nonnegative(picks: Seq<ChampionPickRow>, actual: Option<i32>, name: Seq<char>)
    ensures
        picks_potential(picks, actual, name) >= 0,
    decreases picks.len(),
{
    if picks.len() > 0 {
        lemma_picks_potential_nonnegative(picks.drop_last(), actual, name);
    }
}

/// Every player appears once, and nobody's maximum is below the points
/// already earned.
pub proof fn lemma_leaderboard_entries(out: Seq<LeaderboardEntry>, input: LeaderboardInput, jerseys: Seq<(String, JerseyPreset)>)
    requires
        is_leaderboard(out, input, jerseys),
    ensures
        forall|i: int, j: int| 0 <= i < j < out.len() ==> (#[trigger] out[i]).name@ != (#[trigger] out[j]).name@,
        forall|i: int| 0 <= i < out.len() ==> (#[trigger] out[i]).max_potential_points >= out[i].total_points,
{
    assert forall|i: int, j: int| 0 <= i < j < out.len() implies (#[trigger] out[i]).name@ != (#[trigger] out[j]).name@ by {
        assert(ranks_before(out[i], out[j]));
        lemma_lex_lt_irreflexive(out[i].name@);
    }
    assert forall|i: int| 0 <= i < out.len() implies (#[trigger] out[i]).max_potential_points >= out[i].total_points by {
        assert(entry_fits(out[i], input, jerseys));
        lemma_potential_nonnegative(input, out[i].name@);
    }
}


/// A tip on a match that is not finished yet (scheduled or running) earns
/// nothing so far and keeps the full maximum of its stage achievable; a tip
/// on a finished match has nothing left to gain.
pub proof fn lemma_unfinished_tip_keeps_full_potential(system: MatchScoringSystem, r: LeaderboardPredictionRow)
    ensures
        r.status@ != "finished"@ ==> row_points(system, r) == 0 && row_potential(system, r) == max_points(system, phase_of(r.stage)),
        r.status@ == "finished"@ ==> row_potential(system, r) == 0,
{
}


/// The leaderboard lists players with more points first, players level on
/// points by name; every entry's maximum is its points plus what its open
/// tips can still earn, so never below its points.
pub proof fn lemma_leaderboard_order(out: Seq<LeaderboardEntry>, input: LeaderboardInput, jerseys: Seq<(String, JerseyPreset)>)
    requires
        is_leaderboard(out, input, jerseys),
    ensures
        forall|i: int, j: int| 0 <= i < j < out.len() ==> (#[trigger] out[i]).total_points >= (#[trigger] out[j]).total_points,
        forall|i: int, j: int| 0 <= i < j < out.len() && (#[trigger] out[i]).total_points == (#[trigger] out[j]).total_points
            ==> lex_lt(out[i].name@, out[j].name@),
        forall|i: int| 0 <= i < out.len() ==> (#[trigger] out[i]).max_potential_points >= out[i].total_points,
{
    lemma_leaderboard_entries(out, input, jerseys);
    assert forall|i: int, j: int| 0 <= i < j < out.len() implies (#[trigger] out[i]).total_points >= (#[trigger] out[j]).total_points by {
        assert(ranks_before(out[i], out[j]));
    }
    assert forall|i: int, j: int| 0 <= i < j < out.len() && (#[trigger] out[i]).total_points == (#[trigger] out[j]).total_points
        implies lex_lt(out[i].name@, out[j].name@) by {
        assert(ranks_before(out[i], out[j]));
    }
}

} // verus!
