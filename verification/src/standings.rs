//! Group standings computed from the finished group-stage matches.
//!
//! Every team of a group gets a row with matches played, wins, draws, losses,
//! goals and points (three for a win, one for a draw). Groups are listed in
//! the order of their letters; the rows of a group are ordered by points,
//! then goal difference, then goals scored (all descending), then team name.

use vstd::prelude::*;

use crate::order::{count_by, lemma_sort_by, sort_by, sorted_by, total_preorder};
use crate::text::{lemma_lex_le_total_preorder, lemma_lex_lt_irreflexive, lemma_lex_lt_total, lemma_lex_lt_transitive, lex_le, lex_lt, sorted_strings, str_less, views_of};
use crate::util::{flag_url, flag_url_of};

verus! {

broadcast use vstd::seq_lib::group_seq_properties;

/// One finished group-stage match with team display data.
#[derive(Debug, Clone)]
pub struct FinishedGroupMatch {
    pub group_letter: String,
    pub home_id: i32,
    pub away_id: i32,
    pub score_home: i32,
    pub score_away: i32,
    pub home_name: String,
    pub home_flag: Option<String>,
    pub away_name: String,
    pub away_flag: Option<String>,
}

/// One team's line in a group table.
#[derive(Debug, Clone)]
pub struct GroupRow {
    pub team_name: String,
    pub flag: String,
    pub played: i32,
    pub wins: i32,
    pub draws: i32,
    pub losses: i32,
    pub goals_for: i32,
    pub goals_against: i32,
    pub goal_diff: i32,
    pub points: i32,
}

/// The table of one group.
#[derive(Debug, Clone)]
pub struct GroupStandingsTable {
    pub letter: String,
    pub rows: Vec<GroupRow>,
}

/// Mathematical value of a table line.
pub struct RowView {
    pub team_name: Seq<char>,
    pub flag: Seq<char>,
    pub played: int,
    pub wins: int,
    pub draws: int,
    pub losses: int,
    pub goals_for: int,
    pub goals_against: int,
    pub goal_diff: int,
    pub points: int,
}

impl View for GroupRow {
    type V = RowView;

    open spec fn view(&self) -> RowView {
        RowView {
            team_name: self.team_name@,
            flag: self.flag@,
            played: self.played as int,
            wins: self.wins as int,
            draws: self.draws as int,
            losses: self.losses as int,
            goals_for: self.goals_for as int,
            goals_against: self.goals_against as int,
            goal_diff: self.goal_diff as int,
            points: self.points as int,
        }
    }
}

/// Record of a team: matches played, their outcomes, and goals.
pub struct Record {
    pub played: int,
    pub wins: int,
    pub draws: int,
    pub losses: int,
    pub goals_for: int,
    pub goals_against: int,
}

/// The record after one more match in which the team scored `f` and
/// conceded `a`.
pub open spec fn add_result(r: Record, f: int, a: int) -> Record {
    Record {
        played: r.played + 1,
        wins: r.wins + if f > a { 1int } else { 0int },
        draws: r.draws + if f == a { 1int } else { 0int },
        losses: r.losses + if f < a { 1int } else { 0int },
        goals_for: r.goals_for + f,
        goals_against: r.goals_against + a,
    }
}

pub open spec fn empty_record() -> Record {
    Record { played: 0, wins: 0, draws: 0, losses: 0, goals_for: 0, goals_against: 0 }
}

/// Record of team `id` in group `letter` over the matches: each match counts
/// for the home side and for the away side.
pub open spec fn record_of(ms: Seq<FinishedGroupMatch>, letter: Seq<char>, id: i32) -> Record
    decreases ms.len(),
{
    if ms.len() == 0 {
        empty_record()
    } else {
        let m = ms.last();
        let r = record_of(ms.drop_last(), letter, id);
        let r1 = if m.group_letter@ == letter && m.home_id == id {
            add_result(r, m.score_home as int, m.score_away as int)
        } else {
            r
        };
        if m.group_letter@ == letter && m.away_id == id {
            add_result(r1, m.score_away as int, m.score_home as int)
        } else {
            r1
        }
    }
}

/// A team of a group as first seen in the matches.
pub struct TeamEntry {
    pub letter: Seq<char>,
    pub id: i32,
    pub name: Seq<char>,
    pub flag: Option<Seq<char>>,
}

/// View of an optional string.
pub open spec fn opt_view(s: Option<String>) -> Option<Seq<char>> {
    match s {
        Some(x) => Some(x@),
        None => None,
    }
}

/// Whether the entries hold the team `id` of group `letter`.
pub open spec fn has_team(es: Seq<TeamEntry>, letter: Seq<char>, id: i32) -> bool {
    exists|k: int| 0 <= k < es.len() && (#[trigger] es[k]).letter == letter && es[k].id == id
}

/// The entries with one more team, unless it is already listed.
pub open spec fn add_team(es: Seq<TeamEntry>, e: TeamEntry) -> Seq<TeamEntry> {
    if has_team(es, e.letter, e.id) {
        es
    } else {
        es.push(e)
    }
}

/// The teams of all groups in order of first appearance (home before away),
/// with the name and flag of their first appearance.
pub open spec fn team_entries(ms: Seq<FinishedGroupMatch>) -> Seq<TeamEntry>
    decreases ms.len(),
{
    if ms.len() == 0 {
        Seq::empty()
    } else {
        let m = ms.last();
        let es = team_entries(ms.drop_last());
        let es1 = add_team(es, TeamEntry { letter: m.group_letter@, id: m.home_id, name: m.home_name@, flag: opt_view(m.home_flag) });
        add_team(es1, TeamEntry { letter: m.group_letter@, id: m.away_id, name: m.away_name@, flag: opt_view(m.away_flag) })
    }
}

/// The table line of a team.
pub open spec fn row_of(ms: Seq<FinishedGroupMatch>, e: TeamEntry) -> RowView {
    let r = record_of(ms, e.letter, e.id);
    RowView {
        team_name: e.name,
        flag: flag_url_of(e.flag),
        played: r.played,
        wins: r.wins,
        draws: r.draws,
        losses: r.losses,
        goals_for: r.goals_for,
        goals_against: r.goals_against,
        goal_diff: r.goals_for - r.goals_against,
        points: 3 * r.wins + r.draws,
    }
}

/// Standings order: `a` ranks strictly above `b`.
pub open spec fn ranks_above(a: RowView, b: RowView) -> bool {
    ||| a.points > b.points
    ||| a.points == b.points && a.goal_diff > b.goal_diff
    ||| a.points == b.points && a.goal_diff == b.goal_diff && a.goals_for > b.goals_for
    ||| a.points == b.points && a.goal_diff == b.goal_diff && a.goals_for == b.goals_for && lex_lt(a.team_name, b.team_name)
}

/// Standings order as a preorder: `a` may stand before `b` unless `b` ranks
/// above it.
pub open spec fn row_le() -> spec_fn(RowView, RowView) -> bool {
    |a: RowView, b: RowView| !ranks_above(b, a)
}

/// Letters of the entries, each once, in order of first appearance.
pub open spec fn letters_of(es: Seq<TeamEntry>) -> Seq<Seq<char>>
    decreases es.len(),
{
    if es.len() == 0 {
        Seq::empty()
    } else {
        let ls = letters_of(es.drop_last());
        if ls.contains(es.last().letter) {
            ls
        } else {
            ls.push(es.last().letter)
        }
    }
}

/// Table lines of the entries of group `letter`, in the order of the entries.
pub open spec fn lines_in(ms: Seq<FinishedGroupMatch>, es: Seq<TeamEntry>, letter: Seq<char>) -> Seq<RowView>
    decreases es.len(),
{
    if es.len() == 0 {
        Seq::empty()
    } else {
        let t = lines_in(ms, es.drop_last(), letter);
        if es.last().letter == letter {
            t.push(row_of(ms, es.last()))
        } else {
            t
        }
    }
}

/// Unsorted table lines of one group, in order of first appearance.
pub open spec fn group_lines(ms: Seq<FinishedGroupMatch>, letter: Seq<char>) -> Seq<RowView> {
    lines_in(ms, team_entries(ms), letter)
}

/// Values of table lines.
pub open spec fn row_views(rows: Seq<GroupRow>) -> Seq<RowView> {
    rows.map_values(|r: GroupRow| r@)
}

/// The standings: one table per group letter, letters ascending, each table
/// with its lines in standings order.
pub open spec fn standings_of(ms: Seq<FinishedGroupMatch>, tables: Seq<GroupStandingsTable>) -> bool {
    let letters = sort_by(letters_of(team_entries(ms)), lex_le());
    &&& tables.len() == letters.len()
    &&& forall|k: int| 0 <= k < tables.len() ==> {
        &&& (#[trigger] tables[k]).letter@ == letters[k]
        &&& row_views(tables[k].rows@) == sort_by(group_lines(ms, letters[k]), row_le())
    }
}

/// All goals scored in the matches.
pub open spec fn total_goals(ms: Seq<FinishedGroupMatch>) -> int
    decreases ms.len(),
{
    if ms.len() == 0 {
        0
    } else {
        total_goals(ms.drop_last()) + ms.last().score_home + ms.last().score_away
    }
}

/// Inputs the standings are computed for: goal counts are not negative, and
/// every total a table line holds fits in `i32` (a team's points are at most
/// six per match it appears in, its goals at most all goals scored).
pub open spec fn matches_wf(ms: Seq<FinishedGroupMatch>) -> bool {
    &&& 6 * ms.len() <= i32::MAX
    &&& total_goals(ms) <= i32::MAX
    &&& forall|i: int| 0 <= i < ms.len() ==> 0 <= (#[trigger] ms[i]).score_home && 0 <= ms[i].score_away
}

proof fn lemma_total_goals_prefix(ms: Seq<FinishedGroupMatch>, i: int)
    requires
        0 <= i <= ms.len(),
        forall|j: int| 0 <= j < ms.len() ==> 0 <= (#[trigger] ms[j]).score_home && 0 <= ms[j].score_away,
    ensures
        0 <= total_goals(ms.take(i)) <= total_goals(ms),
    decreases ms.len() - i,
{
    if i < ms.len() {
        lemma_total_goals_prefix(ms, i + 1);
        assert(ms.take(i + 1).drop_last() =~= ms.take(i));
        assert(ms.take(i + 1).last() == ms[i]);
        let p = ms.take(i);
        assert forall|j: int| 0 <= j < p.len() implies 0 <= (#[trigger] p[j]).score_home && 0 <= p[j].score_away by {
            assert(p[j] == ms[j]);
        }
        lemma_total_goals_nonneg(p);
    } else {
        assert(ms.take(i) =~= ms);
        lemma_total_goals_nonneg(ms);
    }
}

proof fn lemma_total_goals_nonneg(ms: Seq<FinishedGroupMatch>)
    requires
        forall|j: int| 0 <= j < ms.len() ==> 0 <= (#[trigger] ms[j]).score_home && 0 <= ms[j].score_away,
    ensures
        0 <= total_goals(ms),
    decreases ms.len(),
{
    if ms.len() > 0 {
        lemma_total_goals_nonneg(ms.drop_last());
        assert(ms.last() == ms[ms.len() - 1]);
    }
}

// ─── Computation ─────────────────────────────────────────────────────────────

/// A team of a group as first seen in the matches.
struct TeamSeen {
    letter: String,
    id: i32,
    name: String,
    flag: Option<String>,
}

impl View for TeamSeen {
    type V = TeamEntry;

    closed spec fn view(&self) -> TeamEntry {
        TeamEntry { letter: self.letter@, id: self.id, name: self.name@, flag: opt_view(self.flag) }
    }
}

/// Values of the seen teams.
spec fn seen_views(ts: Seq<TeamSeen>) -> Seq<TeamEntry> {
    ts.map_values(|t: TeamSeen| t@)
}

fn clone_opt(o: &Option<String>) -> (r: Option<String>)
    ensures
        opt_view(r) == opt_view(*o),
{
    match o {
        Some(s) => Some(s.clone()),
        None => None,
    }
}

/// Adds a team unless it is listed already.
fn add_seen(ts: &mut Vec<TeamSeen>, letter: &String, id: i32, name: &String, flag: &Option<String>)
    ensures
        seen_views(final(ts)@) == add_team(seen_views(old(ts)@), TeamEntry { letter: letter@, id, name: name@, flag: opt_view(*flag) }),
{
    let ghost es = seen_views(ts@);
    let mut k: usize = 0;
    while k < ts.len()
        invariant
            k <= ts@.len(),
            es == seen_views(ts@),
            forall|j: int| 0 <= j < k ==> !(es[j].letter == letter@ && es[j].id == id),
        decreases ts@.len() - k,
    {
        if ts[k].id == id && ts[k].letter == *letter {
            assert(es[k as int].letter == letter@ && es[k as int].id == id);
            assert(has_team(es, letter@, id));
            return;
        }
        k = k + 1;
    }
    assert(!has_team(es, letter@, id));
    let t = TeamSeen { letter: letter.clone(), id, name: name.clone(), flag: clone_opt(flag) };
    ts.push(t);
    assert(seen_views(ts@) =~= es.push(t@));
}

/// The teams of all groups in order of first appearance.
fn collect_teams(ms: &Vec<FinishedGroupMatch>) -> (ts: Vec<TeamSeen>)
    ensures
        seen_views(ts@) == team_entries(ms@),
{
    let mut ts: Vec<TeamSeen> = Vec::new();
    let mut i: usize = 0;
    while i < ms.len()
        invariant
            i <= ms@.len(),
            seen_views(ts@) == team_entries(ms@.take(i as int)),
        decreases ms@.len() - i,
    {
        let m = &ms[i];
        assert(ms@.take(i as int + 1).drop_last() =~= ms@.take(i as int));
        add_seen(&mut ts, &m.group_letter, m.home_id, &m.home_name, &m.home_flag);
        add_seen(&mut ts, &m.group_letter, m.away_id, &m.away_name, &m.away_flag);
        i = i + 1;
    }
    assert(ms@.take(i as int) =~= ms@);
    ts
}

/// Contribution of one side of a match: (won, drawn, lost).
fn outcome(f: i32, a: i32) -> (r: (i32, i32, i32))
    ensures
        r.0 == if f > a { 1int } else { 0int },
        r.1 == if f == a { 1int } else { 0int },
        r.2 == if f < a { 1int } else { 0int },
{
    if f > a {
        (1, 0, 0)
    } else if f == a {
        (0, 1, 0)
    } else {
        (0, 0, 1)
    }
}

/// The table line of a team.
fn make_row(ms: &Vec<FinishedGroupMatch>, t: &TeamSeen) -> (row: GroupRow)
    requires
        matches_wf(ms@),
    ensures
        row@ == row_of(ms@, t@),
{
    let mut played: i32 = 0;
    let mut wins: i32 = 0;
    let mut draws: i32 = 0;
    let mut losses: i32 = 0;
    let mut gf: i32 = 0;
    let mut ga: i32 = 0;
    let mut i: usize = 0;
    while i < ms.len()
        invariant
            i <= ms@.len(),
            matches_wf(ms@),
            ({
                let r = record_of(ms@.take(i as int), t.letter@, t.id);
                &&& r.played == played as int
                &&& r.wins == wins as int
                &&& r.draws == draws as int
                &&& r.losses == losses as int
                &&& r.goals_for == gf as int
                &&& r.goals_against == ga as int
            }),
            0 <= wins <= played,
            0 <= draws <= played,
            0 <= losses <= played,
            wins + draws + losses == played,
            played <= 2 * i,
            0 <= gf <= total_goals(ms@.take(i as int)),
            0 <= ga <= total_goals(ms@.take(i as int)),
        decreases ms@.len() - i,
    {
        let m = &ms[i];
        assert(ms@.take(i as int + 1).drop_last() =~= ms@.take(i as int));
        assert(0 <= m.score_home && 0 <= m.score_away);
        proof {
            lemma_total_goals_prefix(ms@, i as int + 1);
            assert(ms@.take(i as int + 1).last() == ms@[i as int]);
        }
        let in_group = m.group_letter == t.letter;
        if in_group && m.home_id == t.id {
            let (w, d, l) = outcome(m.score_home, m.score_away);
            played = played + 1;
            wins = wins + w;
            draws = draws + d;
            losses = losses + l;
            gf = gf + m.score_home;
            ga = ga + m.score_away;
        }
        if in_group && m.away_id == t.id {
            let (w, d, l) = outcome(m.score_away, m.score_home);
            played = played + 1;
            wins = wins + w;
            draws = draws + d;
            losses = losses + l;
            gf = gf + m.score_away;
            ga = ga + m.score_home;
        }
        i = i + 1;
    }
    assert(ms@.take(i as int) =~= ms@);
    assert(0 <= gf - ga <= i32::MAX || (gf - ga < 0 && gf - ga >= -i32::MAX));
    GroupRow {
        team_name: t.name.clone(),
        flag: flag_url(&t.flag),
        played,
        wins,
        draws,
        losses,
        goals_for: gf,
        goals_against: ga,
        goal_diff: gf - ga,
        points: 3 * wins + draws,
    }
}

/// Whether `a` ranks strictly above `b`.
fn row_ranks_above(a: &GroupRow, b: &GroupRow) -> (r: bool)
    ensures
        r == ranks_above(a@, b@),
{
    if a.points != b.points {
        return a.points > b.points;
    }
    if a.goal_diff != b.goal_diff {
        return a.goal_diff > b.goal_diff;
    }
    if a.goals_for != b.goals_for {
        return a.goals_for > b.goals_for;
    }
    str_less(a.team_name.as_str(), b.team_name.as_str())
}

/// Inserts a line after every line it does not rank above.
fn insert_row(sorted: &mut Vec<GroupRow>, row: GroupRow)
    ensures
        row_views(final(sorted)@) == row_views(old(sorted)@).insert(
            count_by(row_views(old(sorted)@), row@, row_le()) as int,
            row@,
        ),
{
    let ghost vs = row_views(sorted@);
    let mut cnt: usize = 0;
    let mut j: usize = 0;
    while j < sorted.len()
        invariant
            j <= sorted@.len(),
            vs == row_views(sorted@),
            cnt <= j,
            cnt == count_by(vs.take(j as int), row@, row_le()),
        decreases sorted@.len() - j,
    {
        assert(vs.take(j as int + 1).drop_last() =~= vs.take(j as int));
        assert(vs.take(j as int + 1).last() == sorted@[j as int]@);
        if !row_ranks_above(&row, &sorted[j]) {
            cnt = cnt + 1;
        }
        j = j + 1;
    }
    assert(vs.take(j as int) =~= vs);
    let ghost rv = row@;
    sorted.insert(cnt, row);
    assert(row_views(sorted@) =~= vs.insert(cnt as int, rv));
}

/// The sorted table of group `letter`.
fn group_table(ms: &Vec<FinishedGroupMatch>, ts: &Vec<TeamSeen>, letter: &String) -> (rows: Vec<GroupRow>)
    requires
        matches_wf(ms@),
    ensures
        row_views(rows@) == sort_by(lines_in(ms@, seen_views(ts@), letter@), row_le()),
{
    let ghost es = seen_views(ts@);
    let mut rows: Vec<GroupRow> = Vec::new();
    let mut j: usize = 0;
    while j < ts.len()
        invariant
            j <= ts@.len(),
            es == seen_views(ts@),
            matches_wf(ms@),
            row_views(rows@) == sort_by(lines_in(ms@, es.take(j as int), letter@), row_le()),
        decreases ts@.len() - j,
    {
        assert(es.take(j as int + 1).drop_last() =~= es.take(j as int));
        assert(es.take(j as int + 1).last() == ts@[j as int]@);
        if ts[j].letter == *letter {
            let row = make_row(ms, &ts[j]);
            let ghost lines = lines_in(ms@, es.take(j as int), letter@);
            assert(lines.push(row@).drop_last() =~= lines);
            insert_row(&mut rows, row);
        }
        j = j + 1;
    }
    assert(es.take(j as int) =~= es);
    rows
}

/// The letters of the teams, each once, in order of first appearance.
fn distinct_letters(ts: &Vec<TeamSeen>) -> (ls: Vec<String>)
    ensures
        views_of(ls@) == letters_of(seen_views(ts@)),
{
    let ghost es = seen_views(ts@);
    let mut ls: Vec<String> = Vec::new();
    let mut j: usize = 0;
    while j < ts.len()
        invariant
            j <= ts@.len(),
            es == seen_views(ts@),
            views_of(ls@) == letters_of(es.take(j as int)),
        decreases ts@.len() - j,
    {
        assert(es.take(j as int + 1).drop_last() =~= es.take(j as int));
        assert(es.take(j as int + 1).last() == ts@[j as int]@);
        let ghost vl = views_of(ls@);
        let mut found = false;
        let mut k: usize = 0;
        while k < ls.len()
            invariant
                k <= ls@.len(),
                j < ts@.len(),
                vl == views_of(ls@),
                found <==> exists|q: int| 0 <= q < k && vl[q] == ts@[j as int].letter@,
            decreases ls@.len() - k,
        {
            assert(vl[k as int] == ls@[k as int]@);
            if ls[k] == ts[j].letter {
                found = true;
            }
            k = k + 1;
        }
        assert(found <==> vl.contains(ts@[j as int].letter@));
        if !found {
            ls.push(ts[j].letter.clone());
            assert(views_of(ls@) =~= vl.push(ts@[j as int].letter@));
        }
        j = j + 1;
    }
    assert(es.take(j as int) =~= es);
    ls
}

/// Group standings from the finished group-stage matches: one table per
/// group letter, letters ascending; each team's line counts its home and
/// away results (three points a win, one a draw), and the lines are ordered
/// by points, goal difference, goals scored (all descending), then name.
pub fn group_standings(ms: &Vec<FinishedGroupMatch>) -> (tables: Vec<GroupStandingsTable>)
    requires
        matches_wf(ms@),
    ensures
        standings_of(ms@, tables@),
{
    let ts = collect_teams(ms);
    let ls = distinct_letters(&ts);
    let letters = sorted_strings(&ls);
    let ghost lv = views_of(letters@);
    let mut tables: Vec<GroupStandingsTable> = Vec::new();
    let mut k: usize = 0;
    while k < letters.len()
        invariant
            k <= letters@.len(),
            matches_wf(ms@),
            seen_views(ts@) == team_entries(ms@),
            lv == views_of(letters@),
            lv == sort_by(letters_of(team_entries(ms@)), lex_le()),
            tables@.len() == k,
            forall|q: int| 0 <= q < k ==> {
                &&& (#[trigger] tables@[q]).letter@ == lv[q]
                &&& row_views(tables@[q].rows@) == sort_by(group_lines(ms@, lv[q]), row_le())
            },
        decreases letters@.len() - k,
    {
        let rows = group_table(ms, &ts, &letters[k]);
        tables.push(GroupStandingsTable { letter: letters[k].clone(), rows });
        k = k + 1;
    }
    tables
}

// ─── Laws ─────────────────────────────────────────────────────────────────────

/// Standings order is total and transitive.
pub proof fn lemma_row_le_total_preorder()
    ensures
        total_preorder(row_le()),
{
    assert forall|a: RowView, b: RowView| #[trigger] row_le()(a, b) || row_le()(b, a) by {
        lemma_lex_lt_total(a.team_name, b.team_name);
    }
    assert forall|a: RowView, b: RowView, c: RowView| #[trigger] row_le()(a, b) && #[trigger] row_le()(b, c) implies row_le()(a, c) by {
        let (x, y, z) = (a.team_name, b.team_name, c.team_name);
        lemma_lex_lt_total(x, y);
        lemma_lex_lt_total(y, z);
        lemma_lex_lt_total(x, z);
        if lex_lt(z, x) && lex_lt(x, y) {
            lemma_lex_lt_transitive(z, x, y);
        }
        if lex_lt(y, z) && lex_lt(z, x) {
            lemma_lex_lt_transitive(y, z, x);
        }
    }
}

/// A team's matches are won, drawn or lost.
pub proof fn lemma_record_balanced(ms: Seq<FinishedGroupMatch>, letter: Seq<char>, id: i32)
    ensures
        record_of(ms, letter, id).played == record_of(ms, letter, id).wins + record_of(ms, letter, id).draws + record_of(ms, letter, id).losses,
    decreases ms.len(),
{
    if ms.len() > 0 {
        lemma_record_balanced(ms.drop_last(), letter, id);
    }
}

/// Group tables come in alphabetical order of their letters, and every
/// table lists its group's lines once each, in standings order: more
/// points, then better goal difference, then more goals, then name.
pub proof fn lemma_tables_in_standings_order(ms: Seq<FinishedGroupMatch>, tables: Seq<GroupStandingsTable>)
    requires
        standings_of(ms, tables),
    ensures
        sorted_by(tables.map_values(|t: GroupStandingsTable| t.letter@), lex_le()),
        forall|k: int| 0 <= k < tables.len() ==> {
            &&& sorted_by(row_views((#[trigger] tables[k]).rows@), row_le())
            &&& row_views(tables[k].rows@).to_multiset() == group_lines(ms, tables[k].letter@).to_multiset()
        },
{
    lemma_lex_le_total_preorder();
    lemma_row_le_total_preorder();
    let letters = letters_of(team_entries(ms));
    lemma_sort_by(letters, lex_le());
    assert(tables.map_values(|t: GroupStandingsTable| t.letter@) =~= sort_by(letters, lex_le()));
    assert forall|k: int| 0 <= k < tables.len() implies {
        &&& sorted_by(row_views((#[trigger] tables[k]).rows@), row_le())
        &&& row_views(tables[k].rows@).to_multiset() == group_lines(ms, tables[k].letter@).to_multiset()
    } by {
        lemma_sort_by(group_lines(ms, tables[k].letter@), row_le());
    }
}

/// Goals scored in group `letter` by the teams `ids`, summed.
pub open spec fn goals_for_sum(ms: Seq<FinishedGroupMatch>, letter: Seq<char>, ids: Seq<i32>) -> int
    decreases ids.len(),
{
    if ids.len() == 0 {
        0
    } else {
        goals_for_sum(ms, letter, ids.drop_last()) + record_of(ms, letter, ids.last()).goals_for
    }
}

/// Goals conceded in group `letter` by the teams `ids`, summed.
pub open spec fn goals_against_sum(ms: Seq<FinishedGroupMatch>, letter: Seq<char>, ids: Seq<i32>) -> int
    decreases ids.len(),
{
    if ids.len() == 0 {
        0
    } else {
        goals_against_sum(ms, letter, ids.drop_last()) + record_of(ms, letter, ids.last()).goals_against
    }
}

/// Every team playing a match of group `letter` is among `ids`.
pub open spec fn covers_group(ms: Seq<FinishedGroupMatch>, letter: Seq<char>, ids: Seq<i32>) -> bool {
    forall|i: int| 0 <= i < ms.len() && (#[trigger] ms[i]).group_letter@ == letter
        ==> ids.contains(ms[i].home_id) && ids.contains(ms[i].away_id)
}

/// `c` for each entry of `ids` equal to `x`.
spec fn hits(ids: Seq<i32>, x: i32, c: int) -> int
    decreases ids.len(),
{
    if ids.len() == 0 {
        0
    } else {
        hits(ids.drop_last(), x, c) + if ids.last() == x { c } else { 0 }
    }
}

proof fn lemma_hits(ids: Seq<i32>, x: i32, c: int)
    requires
        ids.no_duplicates(),
    ensures
        hits(ids, x, c) == if ids.contains(x) { c } else { 0 },
    decreases ids.len(),
{
    if ids.len() > 0 {
        let init = ids.drop_last();
        assert(init.no_duplicates()) by {
            assert forall|i: int, j: int| 0 <= i < init.len() && 0 <= j < init.len() && i != j implies init[i] != init[j] by {
                assert(init[i] == ids[i] && init[j] == ids[j]);
            }
        }
        lemma_hits(init, x, c);
        assert(ids =~= init.push(ids.last()));
        if ids.last() == x {
            assert(!init.contains(x)) by {
                if init.contains(x) {
                    let k = choose|k: int| 0 <= k < init.len() && init[k] == x;
                    assert(ids[k] == ids[ids.len() - 1]);
                }
            }
        } else {
            assert(ids.contains(x) == init.contains(x)) by {
                if ids.contains(x) {
                    let k = choose|k: int| 0 <= k < ids.len() && ids[k] == x;
                    assert(init[k] == x);
                }
                if init.contains(x) {
                    let k = choose|k: int| 0 <= k < init.len() && init[k] == x;
                    assert(ids[k] == x);
                }
            }
        }
    }
}

proof fn lemma_sums_step(ms: Seq<FinishedGroupMatch>, letter: Seq<char>, ids: Seq<i32>)
    requires
        ms.len() > 0,
    ensures
        goals_for_sum(ms, letter, ids) == goals_for_sum(ms.drop_last(), letter, ids)
            + if ms.last().group_letter@ == letter {
                hits(ids, ms.last().home_id, ms.last().score_home as int) + hits(ids, ms.last().away_id, ms.last().score_away as int)
            } else { 0 },
        goals_against_sum(ms, letter, ids) == goals_against_sum(ms.drop_last(), letter, ids)
            + if ms.last().group_letter@ == letter {
                hits(ids, ms.last().home_id, ms.last().score_away as int) + hits(ids, ms.last().away_id, ms.last().score_home as int)
            } else { 0 },
    decreases ids.len(),
{
    if ids.len() > 0 {
        lemma_sums_step(ms, letter, ids.drop_last());
    }
}

/// Over the teams of a group, goals scored and goals conceded balance, so
/// the goal differences of the group's lines add up to zero.
pub proof fn lemma_group_goals_balance(ms: Seq<FinishedGroupMatch>, letter: Seq<char>, ids: Seq<i32>)
    requires
        ids.no_duplicates(),
        covers_group(ms, letter, ids),
    ensures
        goals_for_sum(ms, letter, ids) == goals_against_sum(ms, letter, ids),
    decreases ms.len(),
{
    if ms.len() == 0 {
        lemma_empty_sums(letter, ids);
    } else {
        let init = ms.drop_last();
        assert(covers_group(init, letter, ids)) by {
            assert forall|i: int| 0 <= i < init.len() && (#[trigger] init[i]).group_letter@ == letter
                implies ids.contains(init[i].home_id) && ids.contains(init[i].away_id) by {
                assert(init[i] == ms[i]);
            }
        }
        lemma_group_goals_balance(init, letter, ids);
        lemma_sums_step(ms, letter, ids);
        let m = ms.last();
        if m.group_letter@ == letter {
            assert(ms[ms.len() - 1] == m);
            lemma_hits(ids, m.home_id, m.score_home as int);
            lemma_hits(ids, m.away_id, m.score_away as int);
            lemma_hits(ids, m.home_id, m.score_away as int);
            lemma_hits(ids, m.away_id, m.score_home as int);
        }
    }
}

proof fn lemma_empty_sums(letter: Seq<char>, ids: Seq<i32>)
    ensures
        goals_for_sum(Seq::<FinishedGroupMatch>::empty(), letter, ids) == 0,
        goals_against_sum(Seq::<FinishedGroupMatch>::empty(), letter, ids) == 0,
    decreases ids.len(),
{
    if ids.len() > 0 {
        lemma_empty_sums(letter, ids.drop_last());
    }
}


/// Group tables rank by points, then by goal difference, then by goals
/// scored, then by name: more points always come first; with equal points a
/// larger goal difference comes first; with equal points and difference more
/// goals come first; a line never ranks above itself.
pub proof fn lemma_standings_tie_breaks(a: RowView, b: RowView)
    ensures
        a.points > b.points ==> ranks_above(a, b) && !ranks_above(b, a),
        a.points == b.points && a.goal_diff > b.goal_diff ==> ranks_above(a, b) && !ranks_above(b, a),
        a.points == b.points && a.goal_diff == b.goal_diff && a.goals_for > b.goals_for
            ==> ranks_above(a, b) && !ranks_above(b, a),
        !ranks_above(a, a),
{
    lemma_lex_lt_irreflexive(a.team_name);
    if a.points == b.points && a.goal_diff == b.goal_diff && a.goals_for == b.goals_for {
        lemma_lex_lt_total(a.team_name, b.team_name);
    }
}


/// One more match adds three points for a win, one for a draw and none for a
/// loss; it counts as exactly one of won, drawn and lost, and moves the goal
/// difference by the goals scored minus the goals conceded.
pub proof fn lemma_result_points(r: Record, f: int, a: int)
    ensures
        3 * add_result(r, f, a).wins + add_result(r, f, a).draws
            == 3 * r.wins + r.draws + if f > a { 3int } else if f == a { 1int } else { 0int },
        add_result(r, f, a).wins + add_result(r, f, a).draws + add_result(r, f, a).losses
            == r.wins + r.draws + r.losses + 1,
        add_result(r, f, a).played == r.played + 1,
        add_result(r, f, a).goals_for - add_result(r, f, a).goals_against == r.goals_for - r.goals_against + f - a,
{
}

proof fn lemma_record_balanced_count(ms: Seq<FinishedGroupMatch>, letter: Seq<char>, id: i32)
    ensures
        record_of(ms, letter, id).played
            == record_of(ms, letter, id).wins + record_of(ms, letter, id).draws + record_of(ms, letter, id).losses,
    decreases ms.len(),
{
    if ms.len() > 0 {
        lemma_record_balanced_count(ms.drop_last(), letter, id);
    }
}

/// Every table line is consistent: its points are three per win plus one per
/// draw, its matches are its wins, draws and losses, and its goal difference
/// is its goals scored minus its goals conceded.
pub proof fn lemma_line_consistent(ms: Seq<FinishedGroupMatch>, e: TeamEntry)
    ensures
        row_of(ms, e).points == 3 * row_of(ms, e).wins + row_of(ms, e).draws,
        row_of(ms, e).played == row_of(ms, e).wins + row_of(ms, e).draws + row_of(ms, e).losses,
        row_of(ms, e).goal_diff == row_of(ms, e).goals_for - row_of(ms, e).goals_against,
{
    lemma_record_balanced_count(ms, e.letter, e.id);
}

} // verus!
