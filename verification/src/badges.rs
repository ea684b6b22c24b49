//! Hero-panel badges.
//!
//! Badges aggregate on the fly over the finished predictions of a league: they
//! never change points and are never stored. A `BadgeContext` built once per
//! request is handed to every registered badge, which derives its display from
//! it.

use vstd::prelude::*;

use crate::clock::{berlin_day, valid_instant, zone_day_of};
use crate::scoring::{self, match_points, MatchScoringSystem};
use crate::stage::{stage_order, stage_rank, Stage};

verus! {

broadcast use vstd::seq_lib::group_seq_properties;

// ─── Display types ────────────────────────────────────────────────────────────

/// Accent colour of a badge card.
#[derive(Debug, Clone, Copy, PartialEq, Eq, Structural)]
pub enum BadgeAccent {
    Default,
    Yellow,
    Green,
    Red,
    Blue,
}

/// CSS variable of an accent colour.
pub open spec fn accent_css_of(accent: BadgeAccent) -> Seq<char> {
    match accent {
        BadgeAccent::Default => "var(--pl-fg)"@,
        BadgeAccent::Yellow => "var(--pl-yellow)"@,
        BadgeAccent::Green => "var(--pl-green)"@,
        BadgeAccent::Red => "var(--pl-red)"@,
        BadgeAccent::Blue => "var(--pl-blue)"@,
    }
}

impl BadgeAccent {
    /// CSS variable for the card accent colour. `Default` maps to `--pl-fg`.
    pub fn css_var(&self) -> (css: &'static str)
        ensures
            css@ == accent_css_of(*self),
    {
        match self {
            BadgeAccent::Default => "var(--pl-fg)",
            BadgeAccent::Yellow => "var(--pl-yellow)",
            BadgeAccent::Green => "var(--pl-green)",
            BadgeAccent::Red => "var(--pl-red)",
            BadgeAccent::Blue => "var(--pl-blue)",
        }
    }
}

/// Value shown by a metric badge.
#[derive(Debug, Clone, PartialEq)]
pub enum BadgeValue {
    Count(i32),
    Fraction { num: i32, denom: i32 },
    Percent(Option<i32>),
    Streak(i32),
    Delta(Option<i32>),
    Champion { team: String, flag_url: String },
    Empty,
}

/// What a badge shows: a metric, or how often an achievement was earned.
#[derive(Debug, Clone, PartialEq)]
pub enum BadgeDisplay {
    Metric(BadgeValue),
    Achievement { times_earned: i32 },
}

/// Kind tag of a display, as the templates use it.
pub open spec fn metric_kind_of(d: BadgeDisplay) -> Seq<char> {
    match d {
        BadgeDisplay::Metric(BadgeValue::Count(_)) => "count"@,
        BadgeDisplay::Metric(BadgeValue::Fraction { .. }) => "fraction"@,
        BadgeDisplay::Metric(BadgeValue::Percent(_)) => "percent"@,
        BadgeDisplay::Metric(BadgeValue::Streak(_)) => "streak"@,
        BadgeDisplay::Metric(BadgeValue::Delta(_)) => "delta"@,
        BadgeDisplay::Metric(BadgeValue::Champion { .. }) => "champion"@,
        BadgeDisplay::Metric(BadgeValue::Empty) => "empty"@,
        BadgeDisplay::Achievement { .. } => "achievement"@,
    }
}

impl BadgeDisplay {
    pub fn is_achievement(&self) -> (b: bool)
        ensures
            b == (*self is Achievement),
    {
        match self {
            BadgeDisplay::Achievement { .. } => true,
            _ => false,
        }
    }

    pub fn is_metric(&self) -> (b: bool)
        ensures
            b == (*self is Metric),
    {
        match self {
            BadgeDisplay::Metric(_) => true,
            _ => false,
        }
    }

    pub fn times_earned(&self) -> (n: i32)
        ensures
            n == match *self {
                BadgeDisplay::Achievement { times_earned } => times_earned,
                _ => 0,
            },
    {
        match self {
            BadgeDisplay::Achievement { times_earned } => *times_earned,
            _ => 0,
        }
    }

    pub fn metric_kind(&self) -> (kind: &'static str)
        ensures
            kind@ == metric_kind_of(*self),
    {
        match self {
            BadgeDisplay::Metric(BadgeValue::Count(_)) => "count",
            BadgeDisplay::Metric(BadgeValue::Fraction { .. }) => "fraction",
            BadgeDisplay::Metric(BadgeValue::Percent(_)) => "percent",
            BadgeDisplay::Metric(BadgeValue::Streak(_)) => "streak",
            BadgeDisplay::Metric(BadgeValue::Delta(_)) => "delta",
            BadgeDisplay::Metric(BadgeValue::Champion { .. }) => "champion",
            BadgeDisplay::Metric(BadgeValue::Empty) => "empty",
            BadgeDisplay::Achievement { .. } => "achievement",
        }
    }

    pub fn count(&self) -> (n: i32)
        ensures
            n == match *self {
                BadgeDisplay::Metric(BadgeValue::Count(c)) => c,
                _ => 0,
            },
    {
        match self {
            BadgeDisplay::Metric(BadgeValue::Count(n)) => *n,
            _ => 0,
        }
    }

    pub fn fraction_num(&self) -> (n: i32)
        ensures
            n == match *self {
                BadgeDisplay::Metric(BadgeValue::Fraction { num, .. }) => num,
                _ => 0,
            },
    {
        match self {
            BadgeDisplay::Metric(BadgeValue::Fraction { num, .. }) => *num,
            _ => 0,
        }
    }

    pub fn fraction_denom(&self) -> (n: i32)
        ensures
            n == match *self {
                BadgeDisplay::Metric(BadgeValue::Fraction { denom, .. }) => denom,
                _ => 0,
            },
    {
        match self {
            BadgeDisplay::Metric(BadgeValue::Fraction { denom, .. }) => *denom,
            _ => 0,
        }
    }

    pub fn percent(&self) -> (p: Option<i32>)
        ensures
            p == match *self {
                BadgeDisplay::Metric(BadgeValue::Percent(q)) => q,
                _ => None,
            },
    {
        match self {
            BadgeDisplay::Metric(BadgeValue::Percent(p)) => *p,
            _ => None,
        }
    }

    pub fn streak(&self) -> (n: i32)
        ensures
            n == match *self {
                BadgeDisplay::Metric(BadgeValue::Streak(s)) => s,
                _ => 0,
            },
    {
        match self {
            BadgeDisplay::Metric(BadgeValue::Streak(n)) => *n,
            _ => 0,
        }
    }

    pub fn delta(&self) -> (d: Option<i32>)
        ensures
            d == match *self {
                BadgeDisplay::Metric(BadgeValue::Delta(x)) => x,
                _ => None,
            },
    {
        match self {
            BadgeDisplay::Metric(BadgeValue::Delta(d)) => *d,
            _ => None,
        }
    }

    pub fn champion_team(&self) -> (team: &str)
        ensures
            team@ == match *self {
                BadgeDisplay::Metric(BadgeValue::Champion { team, .. }) => team@,
                _ => ""@,
            },
    {
        match self {
            BadgeDisplay::Metric(BadgeValue::Champion { team, .. }) => team.as_str(),
            _ => "",
        }
    }

    pub fn champion_flag(&self) -> (flag: &str)
        ensures
            flag@ == match *self {
                BadgeDisplay::Metric(BadgeValue::Champion { flag_url, .. }) => flag_url@,
                _ => ""@,
            },
    {
        match self {
            BadgeDisplay::Metric(BadgeValue::Champion { flag_url, .. }) => flag_url.as_str(),
            _ => "",
        }
    }
}

/// One badge card as rendered in the hero panel.
#[derive(Debug, Clone)]
pub struct BadgeView {
    pub key: &'static str,
    pub icon: &'static str,
    pub title: &'static str,
    pub how_to_earn: &'static str,
    pub display: BadgeDisplay,
    pub accent: BadgeAccent,
}

impl BadgeView {
    pub fn accent_css(&self) -> (css: &'static str)
        ensures
            css@ == accent_css_of(self.accent),
    {
        self.accent.css_var()
    }
}

// ─── Context ──────────────────────────────────────────────────────────────────

/// One finished prediction: who tipped what on which match, and how it ended.
/// Users are identified by the 128-bit value of their id; `kickoff` is the
/// kickoff instant in seconds since the Unix epoch.
#[derive(Debug, Clone, Copy, PartialEq, Eq, Structural)]
pub struct PredictionRow {
    pub user_id: u128,
    pub match_id: i32,
    pub stage: Stage,
    pub kickoff: i64,
    pub score_h: i32,
    pub score_a: i32,
    pub pred_h: i32,
    pub pred_a: i32,
    pub scoring_system: MatchScoringSystem,
}

impl PredictionRow {
    /// Points the prediction earned under the league's scoring system.
    pub open spec fn points(self) -> int {
        match_points(self.scoring_system, self.stage, self.score_h as int, self.score_a as int, self.pred_h as int, self.pred_a as int)
    }

    /// Whether both scores were predicted exactly.
    pub open spec fn exact(self) -> bool {
        self.pred_h == self.score_h && self.pred_a == self.score_a
    }

    /// Berlin calendar day of the kickoff.
    pub open spec fn day(self) -> i32 {
        zone_day_of(self.kickoff, "Europe/Berlin"@)
    }

    /// The kickoff lies in the handled range of instants.
    pub open spec fn wf(self) -> bool {
        valid_instant(self.kickoff)
    }

    pub fn berlin_date(&self) -> (day: i32)
        requires
            self.wf(),
        ensures
            day == self.day(),
    {
        berlin_day(self.kickoff)
    }

    pub fn base_points(&self) -> (points: i32)
        ensures
            points as int == self.points(),
    {
        scoring::calculate_match_points_for_system(self.scoring_system, self.stage, self.score_h, self.score_a, self.pred_h, self.pred_a)
    }

    pub fn is_exact(&self) -> (b: bool)
        ensures
            b == self.exact(),
    {
        self.pred_h == self.score_h && self.pred_a == self.score_a
    }
}

/// The champion a user picked, as shown on the card.
#[derive(Debug, Clone)]
pub struct ChampionView {
    pub team_name: String,
    pub flag_url: String,
}

/// Largest number of finished predictions the percentages are computed for
/// without overflowing `i32`.
pub const MAX_ROWS: usize = 21_474_836;

/// Everything the badges read, snapshotted once per request.
/// `berlin_today` is the current Berlin calendar day.
pub struct BadgeContext<'a> {
    pub user_id: u128,
    pub now: i64,
    pub berlin_today: i32,
    pub finished_predictions: &'a [PredictionRow],
    pub all_user_ids: &'a [u128],
    pub started_matches_total: i32,
    pub user_started_tips: i32,
    pub actual_champion_id: Option<i32>,
    pub all_special_picks: &'a [(u128, i32)],
    pub user_champion: Option<&'a ChampionView>,
}

/// Owned variant of the context; the request handler holds this and hands
/// out `as_ctx()`.
#[derive(Debug, Clone)]
pub struct BadgeContextOwned {
    pub user_id: u128,
    pub now: i64,
    pub berlin_today: i32,
    pub finished_predictions: Vec<PredictionRow>,
    pub all_user_ids: Vec<u128>,
    pub started_matches_total: i32,
    pub user_started_tips: i32,
    pub actual_champion_id: Option<i32>,
    pub all_special_picks: Vec<(u128, i32)>,
    pub user_champion: Option<ChampionView>,
}

impl BadgeContextOwned {
    pub fn as_ctx(&self) -> (ctx: BadgeContext<'_>)
        ensures
            ctx.user_id == self.user_id,
            ctx.now == self.now,
            ctx.berlin_today == self.berlin_today,
            ctx.finished_predictions@ == self.finished_predictions@,
            ctx.all_user_ids@ == self.all_user_ids@,
            ctx.started_matches_total == self.started_matches_total,
            ctx.user_started_tips == self.user_started_tips,
            ctx.actual_champion_id == self.actual_champion_id,
            ctx.all_special_picks@ == self.all_special_picks@,
            ctx.user_champion == match self.user_champion {
                Some(c) => Some(&c),
                None => None,
            },
    {
        BadgeContext {
            user_id: self.user_id,
            now: self.now,
            berlin_today: self.berlin_today,
            finished_predictions: self.finished_predictions.as_slice(),
            all_user_ids: self.all_user_ids.as_slice(),
            started_matches_total: self.started_matches_total,
            user_started_tips: self.user_started_tips,
            actual_champion_id: self.actual_champion_id,
            all_special_picks: self.all_special_picks.as_slice(),
            user_champion: self.user_champion.as_ref(),
        }
    }
}

/// Rows are well formed: every kickoff is in range and there are not more
/// rows than the percentages handle.
pub open spec fn rows_wf(rows: Seq<PredictionRow>) -> bool {
    &&& rows.len() <= MAX_ROWS
    &&& forall|i: int| 0 <= i < rows.len() ==> (#[trigger] rows[i]).wf()
}

impl<'a> BadgeContext<'a> {
    pub open spec fn wf(&self) -> bool {
        &&& rows_wf(self.finished_predictions@)
        &&& self.all_user_ids@.len() <= MAX_ROWS
        &&& self.all_special_picks@.len() <= MAX_ROWS
        &&& -MAX_ROWS <= self.user_started_tips <= MAX_ROWS
    }
}

// ─── Counting over rows ───────────────────────────────────────────────────────

/// Number of rows satisfying `f`.
pub open spec fn count_where(s: Seq<PredictionRow>, f: spec_fn(PredictionRow) -> bool) -> nat
    decreases s.len(),
{
    if s.len() == 0 {
        0
    } else {
        count_where(s.drop_last(), f) + if f(s.last()) { 1nat } else { 0nat }
    }
}

/// Sum of the points of the rows satisfying `f`.
pub open spec fn points_where(s: Seq<PredictionRow>, f: spec_fn(PredictionRow) -> bool) -> int
    decreases s.len(),
{
    if s.len() == 0 {
        0
    } else {
        points_where(s.drop_last(), f) + if f(s.last()) { s.last().points() } else { 0 }
    }
}

proof fn lemma_count_where_bounds(s: Seq<PredictionRow>, f: spec_fn(PredictionRow) -> bool)
    ensures
        count_where(s, f) <= s.len(),
    decreases s.len(),
{
    if s.len() > 0 {
        lemma_count_where_bounds(s.drop_last(), f);
    }
}

proof fn lemma_count_where_implies(s: Seq<PredictionRow>, f: spec_fn(PredictionRow) -> bool, g: spec_fn(PredictionRow) -> bool)
    requires
        forall|r: PredictionRow| #[trigger] f(r) ==> g(r),
    ensures
        count_where(s, f) <= count_where(s, g),
    decreases s.len(),
{
    if s.len() > 0 {
        lemma_count_where_implies(s.drop_last(), f, g);
    }
}

proof fn lemma_points_where_bounds(s: Seq<PredictionRow>, f: spec_fn(PredictionRow) -> bool)
    ensures
        0 <= points_where(s, f) <= 11 * count_where(s, f),
    decreases s.len(),
{
    if s.len() > 0 {
        lemma_points_where_bounds(s.drop_last(), f);
        scoring::lemma_match_points_within_max(s.last().scoring_system, s.last().stage, s.last().score_h as int, s.last().score_a as int, s.last().pred_h as int, s.last().pred_a as int);
    }
}

/// Rows of the given user that satisfy `f`.
pub open spec fn of_user_and(uid: u128, f: spec_fn(PredictionRow) -> bool) -> spec_fn(PredictionRow) -> bool {
    |r: PredictionRow| r.user_id == uid && f(r)
}

/// Counts the rows satisfying `of_user_and(uid, f)` where `f` is one of the
/// row predicates the badges use.
fn count_user_rows(rows: &[PredictionRow], uid: u128, kind: RowFilter) -> (n: i32)
    requires
        rows@.len() <= MAX_ROWS,
    ensures
        n as int == count_where(rows@, of_user_and(uid, kind.pred())),
        0 <= n <= rows@.len(),
{
    let ghost f = of_user_and(uid, kind.pred());
    let mut n: i32 = 0;
    let mut i: usize = 0;
    while i < rows.len()
        invariant
            i <= rows@.len(),
            rows@.len() <= MAX_ROWS,
            f == of_user_and(uid, kind.pred()),
            n as int == count_where(rows@.take(i as int), f),
            0 <= n <= i,
        decreases rows@.len() - i,
    {
        assert(rows@.take(i as int + 1).drop_last() =~= rows@.take(i as int));
        let r = rows[i];
        if r.user_id == uid && kind.holds(&r) {
            n = n + 1;
        }
        i = i + 1;
    }
    assert(rows@.take(i as int) =~= rows@);
    n
}

/// The row predicates the counting badges filter by.
#[derive(Clone, Copy)]
pub enum RowFilter {
    Any,
    Exact,
    Scoring,
}

impl RowFilter {
    pub open spec fn pred(self) -> spec_fn(PredictionRow) -> bool {
        match self {
            RowFilter::Any => |r: PredictionRow| true,
            RowFilter::Exact => |r: PredictionRow| r.exact(),
            RowFilter::Scoring => |r: PredictionRow| r.points() > 0,
        }
    }

    fn holds(&self, r: &PredictionRow) -> (b: bool)
        ensures
            b == (self.pred())(*r),
    {
        match self {
            RowFilter::Any => true,
            RowFilter::Exact => r.is_exact(),
            RowFilter::Scoring => r.base_points() > 0,
        }
    }
}

// ─── Badge trait ─────────────────────────────────────────────────────────────

/// A badge: fixed texts plus a display derived from the context.
pub trait Badge {
    fn key(&self) -> &'static str;
    fn icon(&self) -> &'static str;
    fn title(&self) -> &'static str;
    fn how_to_earn(&self) -> &'static str;
    fn accent(&self) -> BadgeAccent;
    fn compute(&self, ctx: &BadgeContext<'_>) -> BadgeDisplay
        requires
            ctx.wf(),
    ;
}

// ─── Simple badges ───────────────────────────────────────────────────────────

/// Percentage `100 * part / whole`, rounded toward zero like integer division.
pub open spec fn percent_of(part: int, whole: int) -> int {
    if 100 * part >= 0 {
        (100 * part) / whole
    } else {
        -((-100 * part) / whole)
    }
}

/// Display of the exact-count badge.
pub open spec fn exact_count_display(rows: Seq<PredictionRow>, uid: u128) -> BadgeDisplay {
    BadgeDisplay::Achievement { times_earned: count_where(rows, of_user_and(uid, RowFilter::Exact.pred())) as i32 }
}

/// Display of the tendency-percentage badge.
pub open spec fn tendency_pct_display(rows: Seq<PredictionRow>, uid: u128) -> BadgeDisplay {
    let total = count_where(rows, of_user_and(uid, RowFilter::Any.pred()));
    if total == 0 {
        BadgeDisplay::Metric(BadgeValue::Percent(None))
    } else {
        BadgeDisplay::Metric(BadgeValue::Percent(Some(percent_of(count_where(rows, of_user_and(uid, RowFilter::Scoring.pred())) as int, total as int) as i32)))
    }
}

/// Weight of a stage for the knockout-points badge: one for the group stage
/// and one more for each round after it (two for the round of 32, four for
/// the quarter-finals, seven for the final).
pub open spec fn stage_multiplier(stage: Stage) -> int {
    stage_rank(stage) + 1
}

/// Knockout-badge points of a prediction: the points it would earn as a
/// group match, times the weight of its stage.
pub open spec fn ko_points(r: PredictionRow) -> int {
    match_points(r.scoring_system, Stage::Group, r.score_h as int, r.score_a as int, r.pred_h as int, r.pred_a as int)
        * stage_multiplier(r.stage)
}

/// Sum of the knockout-badge points of the rows satisfying `f`.
pub open spec fn ko_points_where(s: Seq<PredictionRow>, f: spec_fn(PredictionRow) -> bool) -> int
    decreases s.len(),
{
    if s.len() == 0 {
        0
    } else {
        ko_points_where(s.drop_last(), f) + if f(s.last()) { ko_points(s.last()) } else { 0 }
    }
}

/// Display of the knockout-points badge: empty until any knockout match is
/// finished, then the user's knockout points, each prediction's points
/// weighted by its stage.
pub open spec fn knockout_points_display(rows: Seq<PredictionRow>, uid: u128) -> BadgeDisplay {
    if count_where(rows, |r: PredictionRow| r.stage != Stage::Group) == 0 {
        BadgeDisplay::Metric(BadgeValue::Empty)
    } else {
        BadgeDisplay::Metric(BadgeValue::Count(ko_points_where(rows, |r: PredictionRow| r.user_id == uid && r.stage != Stage::Group) as i32))
    }
}

proof fn lemma_ko_points_bounds(r: PredictionRow)
    ensures
        0 <= ko_points(r) <= 77,
{
    let b = match_points(r.scoring_system, Stage::Group, r.score_h as int, r.score_a as int, r.pred_h as int, r.pred_a as int);
    scoring::lemma_match_points_within_max(r.scoring_system, Stage::Group, r.score_h as int, r.score_a as int, r.pred_h as int, r.pred_a as int);
    assert(0 <= b <= 11);
    let m = stage_multiplier(r.stage);
    assert(1 <= m <= 7);
    assert(0 <= b * m <= 77) by (nonlinear_arith)
        requires
            0 <= b <= 11,
            1 <= m <= 7,
    ;
}

proof fn lemma_ko_points_where_bounds(s: Seq<PredictionRow>, f: spec_fn(PredictionRow) -> bool)
    ensures
        0 <= ko_points_where(s, f) <= 77 * s.len(),
    decreases s.len(),
{
    if s.len() > 0 {
        lemma_ko_points_where_bounds(s.drop_last(), f);
        lemma_ko_points_bounds(s.last());
    }
}

/// Display of the discipline badge.
pub open spec fn discipline_pct_display(started_total: i32, user_started_tips: i32) -> BadgeDisplay {
    if started_total <= 0 {
        BadgeDisplay::Metric(BadgeValue::Percent(None))
    } else {
        BadgeDisplay::Metric(BadgeValue::Percent(Some(percent_of(user_started_tips as int, started_total as int) as i32)))
    }
}

/// `100 * part / whole` with integer division rounding toward zero.
fn percent(part: i32, whole: i32) -> (p: i32)
    requires
        whole > 0,
        -MAX_ROWS <= part <= MAX_ROWS,
    ensures
        p as int == percent_of(part as int, whole as int),
{
    let scaled: i64 = 100 * part as i64;
    if scaled >= 0 {
        (scaled / whole as i64) as i32
    } else {
        let q: i64 = (-scaled) / whole as i64;
        assert(q <= -scaled);
        (-q) as i32
    }
}

/// Number of exact tips: same home and away score as the final result.
pub struct ExactCountBadge;

impl Badge for ExactCountBadge {
    fn key(&self) -> (k: &'static str)
        ensures
            k@ == key_of(BadgeKind::ExactCount),
    {
        "exact_count"
    }

    fn icon(&self) -> (i: &'static str)
        ensures
            i@ == icon_of(BadgeKind::ExactCount),
    {
        "🎯"
    }

    fn title(&self) -> (t: &'static str)
        ensures
            t@ == title_of(BadgeKind::ExactCount),
    {
        "Exakter Tipp"
    }

    fn how_to_earn(&self) -> (h: &'static str)
        ensures
            h@ == how_to_earn_of(BadgeKind::ExactCount),
    {
        "Tipp 100% korrekt: gleicher Heim- und Auswärtsscore wie das Endergebnis."
    }

    fn accent(&self) -> (a: BadgeAccent)
        ensures
            a == accent_of(BadgeKind::ExactCount),
    {
        BadgeAccent::Yellow
    }

    fn compute(&self, ctx: &BadgeContext<'_>) -> (d: BadgeDisplay)
        ensures
            d == exact_count_display(ctx.finished_predictions@, ctx.user_id),
    {
        let n = count_user_rows(ctx.finished_predictions, ctx.user_id, RowFilter::Exact);
        BadgeDisplay::Achievement { times_earned: n }
    }
}

/// Share of the user's finished tips that scored at least one point.
pub struct TendencyPctBadge;

impl Badge for TendencyPctBadge {
    fn key(&self) -> (k: &'static str)
        ensures
            k@ == key_of(BadgeKind::TendencyPct),
    {
        "tendency_pct"
    }

    fn icon(&self) -> (i: &'static str)
        ensures
            i@ == icon_of(BadgeKind::TendencyPct),
    {
        "📈"
    }

    fn title(&self) -> (t: &'static str)
        ensures
            t@ == title_of(BadgeKind::TendencyPct),
    {
        "Tendenz-Quote"
    }

    fn how_to_earn(&self) -> (h: &'static str)
        ensures
            h@ == how_to_earn_of(BadgeKind::TendencyPct),
    {
        "Anteil deiner getippten fertigen Matches mit mindestens einem Punkt."
    }

    fn accent(&self) -> (a: BadgeAccent)
        ensures
            a == accent_of(BadgeKind::TendencyPct),
    {
        BadgeAccent::Default
    }

    fn compute(&self, ctx: &BadgeContext<'_>) -> (d: BadgeDisplay)
        ensures
            d == tendency_pct_display(ctx.finished_predictions@, ctx.user_id),
    {
        let total = count_user_rows(ctx.finished_predictions, ctx.user_id, RowFilter::Any);
        if total == 0 {
            return BadgeDisplay::Metric(BadgeValue::Percent(None));
        }
        let with_points = count_user_rows(ctx.finished_predictions, ctx.user_id, RowFilter::Scoring);
        BadgeDisplay::Metric(BadgeValue::Percent(Some(percent(with_points, total))))
    }
}

/// Sum of the user's points from the knockout stage.
pub struct KnockoutPointsBadge;

impl Badge for KnockoutPointsBadge {
    fn key(&self) -> (k: &'static str)
        ensures
            k@ == key_of(BadgeKind::KnockoutPoints),
    {
        "knockout_points"
    }

    fn icon(&self) -> (i: &'static str)
        ensures
            i@ == icon_of(BadgeKind::KnockoutPoints),
    {
        "🏆"
    }

    fn title(&self) -> (t: &'static str)
        ensures
            t@ == title_of(BadgeKind::KnockoutPoints),
    {
        "K.O.-Punkte"
    }

    fn how_to_earn(&self) -> (h: &'static str)
        ensures
            h@ == how_to_earn_of(BadgeKind::KnockoutPoints),
    {
        "Summe deiner Punkte aus der K.O.-Phase (ab Sechzehntelfinale)."
    }

    fn accent(&self) -> (a: BadgeAccent)
        ensures
            a == accent_of(BadgeKind::KnockoutPoints),
    {
        BadgeAccent::Yellow
    }

    fn compute(&self, ctx: &BadgeContext<'_>) -> (d: BadgeDisplay)
        ensures
            d == knockout_points_display(ctx.finished_predictions@, ctx.user_id),
    {
        let rows = ctx.finished_predictions;
        let uid = ctx.user_id;
        let ghost ko = |r: PredictionRow| r.stage != Stage::Group;
        let ghost mine = |r: PredictionRow| r.user_id == uid && r.stage != Stage::Group;
        let mut any_ko = false;
        let mut pts: i32 = 0;
        let mut i: usize = 0;
        while i < rows.len()
            invariant
                i <= rows@.len(),
                rows@.len() <= MAX_ROWS,
                ko == (|r: PredictionRow| r.stage != Stage::Group),
                mine == (|r: PredictionRow| r.user_id == uid && r.stage != Stage::Group),
                any_ko == (count_where(rows@.take(i as int), ko) > 0),
                pts as int == ko_points_where(rows@.take(i as int), mine),
                0 <= pts <= 77 * i,
            decreases rows@.len() - i,
        {
            let ghost t = rows@.take(i as int);
            assert(rows@.take(i as int + 1).drop_last() =~= t);
            proof {
                lemma_ko_points_where_bounds(t, mine);
            }
            let r = rows[i];
            if r.stage.is_knockout() {
                any_ko = true;
                if r.user_id == uid {
                    let base = scoring::calculate_match_points_for_system(r.scoring_system, Stage::Group, r.score_h, r.score_a, r.pred_h, r.pred_a);
                    let weight: i32 = stage_order(r.stage) as i32 + 1;
                    proof {
                        lemma_ko_points_bounds(r);
                        scoring::lemma_match_points_within_max(r.scoring_system, Stage::Group, r.score_h as int, r.score_a as int, r.pred_h as int, r.pred_a as int);
                        assert(0 <= base <= 11);
                        assert(1 <= weight <= 7);
                        assert(0 <= base * weight <= 77) by (nonlinear_arith)
                            requires
                                0 <= base <= 11,
                                1 <= weight <= 7,
                        ;
                    }
                    pts = pts + base * weight;
                }
            }
            i = i + 1;
        }
        assert(rows@.take(i as int) =~= rows@);
        if !any_ko {
            return BadgeDisplay::Metric(BadgeValue::Empty);
        }
        BadgeDisplay::Metric(BadgeValue::Count(pts))
    }
}

/// Share of the already started matches the user tipped.
pub struct DisciplinePctBadge;

impl Badge for DisciplinePctBadge {
    fn key(&self) -> (k: &'static str)
        ensures
            k@ == key_of(BadgeKind::DisciplinePct),
    {
        "discipline_pct"
    }

    fn icon(&self) -> (i: &'static str)
        ensures
            i@ == icon_of(BadgeKind::DisciplinePct),
    {
        "📋"
    }

    fn title(&self) -> (t: &'static str)
        ensures
            t@ == title_of(BadgeKind::DisciplinePct),
    {
        "Tippmoral"
    }

    fn how_to_earn(&self) -> (h: &'static str)
        ensures
            h@ == how_to_earn_of(BadgeKind::DisciplinePct),
    {
        "Anteil bereits gestarteter Matches, für die du einen Tipp abgegeben hast."
    }

    fn accent(&self) -> (a: BadgeAccent)
        ensures
            a == accent_of(BadgeKind::DisciplinePct),
    {
        BadgeAccent::Default
    }

    fn compute(&self, ctx: &BadgeContext<'_>) -> (d: BadgeDisplay)
        ensures
            d == discipline_pct_display(ctx.started_matches_total, ctx.user_started_tips),
    {
        if ctx.started_matches_total <= 0 {
            return BadgeDisplay::Metric(BadgeValue::Percent(None));
        }
        BadgeDisplay::Metric(BadgeValue::Percent(Some(percent(ctx.user_started_tips, ctx.started_matches_total))))
    }
}

/// The user's champion pick.
pub struct ChampionPickBadge;

impl Badge for ChampionPickBadge {
    fn key(&self) -> (k: &'static str)
        ensures
            k@ == key_of(BadgeKind::ChampionPick),
    {
        "champion_pick"
    }

    fn icon(&self) -> (i: &'static str)
        ensures
            i@ == icon_of(BadgeKind::ChampionPick),
    {
        "👑"
    }

    fn title(&self) -> (t: &'static str)
        ensures
            t@ == title_of(BadgeKind::ChampionPick),
    {
        "Weltmeister-Tipp"
    }

    fn how_to_earn(&self) -> (h: &'static str)
        ensures
            h@ == how_to_earn_of(BadgeKind::ChampionPick),
    {
        "Dein Champion-Pick. 10 Punkte, wenn dein Team das Turnier gewinnt."
    }

    fn accent(&self) -> (a: BadgeAccent)
        ensures
            a == accent_of(BadgeKind::ChampionPick),
    {
        BadgeAccent::Yellow
    }

    fn compute(&self, ctx: &BadgeContext<'_>) -> (d: BadgeDisplay)
        ensures
            d == match ctx.user_champion {
                Some(c) => BadgeDisplay::Metric(BadgeValue::Champion { team: c.team_name, flag_url: c.flag_url }),
                None => BadgeDisplay::Metric(BadgeValue::Empty),
            },
    {
        match ctx.user_champion {
            Some(c) => BadgeDisplay::Metric(BadgeValue::Champion { team: c.team_name.clone(), flag_url: c.flag_url.clone() }),
            None => BadgeDisplay::Metric(BadgeValue::Empty),
        }
    }
}

// ─── Ordering rows by kickoff ─────────────────────────────────────────────────

/// The rows of one user, in their order.
pub open spec fn user_rows(rows: Seq<PredictionRow>, uid: u128) -> Seq<PredictionRow> {
    rows.filter(|r: PredictionRow| r.user_id == uid)
}

/// Rows that a row `x` is placed after when it is inserted into a sorted
/// sequence: those with a kickoff not later than `x` (oldest first) or not
/// earlier than `x` (newest first).
pub open spec fn placed_before(x: PredictionRow, newest_first: bool) -> spec_fn(PredictionRow) -> bool {
    |r: PredictionRow| if newest_first { r.kickoff >= x.kickoff } else { r.kickoff <= x.kickoff }
}

/// Stable sort by kickoff (oldest first, or newest first): rows are inserted
/// one by one, each after all rows it does not precede, so rows with the same
/// kickoff keep the order they were given in.
pub open spec fn sort_by_kickoff(s: Seq<PredictionRow>, newest_first: bool) -> Seq<PredictionRow>
    decreases s.len(),
{
    if s.len() == 0 {
        s
    } else {
        let t = sort_by_kickoff(s.drop_last(), newest_first);
        t.insert(count_where(t, placed_before(s.last(), newest_first)) as int, s.last())
    }
}

proof fn lemma_sort_len(s: Seq<PredictionRow>, newest_first: bool)
    ensures
        sort_by_kickoff(s, newest_first).len() == s.len(),
    decreases s.len(),
{
    if s.len() > 0 {
        let t = sort_by_kickoff(s.drop_last(), newest_first);
        lemma_sort_len(s.drop_last(), newest_first);
        lemma_count_where_bounds(t, placed_before(s.last(), newest_first));
    }
}

/// The rows of `uid`, in their order.
fn collect_user_rows(rows: &[PredictionRow], uid: u128) -> (v: Vec<PredictionRow>)
    ensures
        v@ == user_rows(rows@, uid),
{
    let ghost f = |r: PredictionRow| r.user_id == uid;
    let mut v: Vec<PredictionRow> = Vec::new();
    let mut i: usize = 0;
    while i < rows.len()
        invariant
            i <= rows@.len(),
            f == (|r: PredictionRow| r.user_id == uid),
            v@ == rows@.take(i as int).filter(f),
        decreases rows@.len() - i,
    {
        proof {
            assert(rows@.take(i as int + 1) =~= rows@.take(i as int).push(rows@[i as int]));
            rows@.take(i as int).lemma_filter_push(rows@[i as int], f);
        }
        let r = rows[i];
        if r.user_id == uid {
            v.push(r);
        }
        i = i + 1;
    }
    assert(rows@.take(i as int) =~= rows@);
    v
}

/// Stable sort of `v` by kickoff.
fn sorted_by_kickoff(v: &Vec<PredictionRow>, newest_first: bool) -> (out: Vec<PredictionRow>)
    ensures
        out@ == sort_by_kickoff(v@, newest_first),
{
    let mut out: Vec<PredictionRow> = Vec::new();
    let mut i: usize = 0;
    while i < v.len()
        invariant
            i <= v@.len(),
            out@ == sort_by_kickoff(v@.take(i as int), newest_first),
        decreases v@.len() - i,
    {
        let x = v[i];
        let ghost p = placed_before(x, newest_first);
        proof {
            lemma_sort_len(v@.take(i as int), newest_first);
        }
        let mut pos: usize = 0;
        let mut j: usize = 0;
        while j < out.len()
            invariant
                j <= out@.len(),
                p == placed_before(x, newest_first),
                pos as int == count_where(out@.take(j as int), p),
                pos <= j,
            decreases out@.len() - j,
        {
            assert(out@.take(j as int + 1).drop_last() =~= out@.take(j as int));
            let r = out[j];
            let before = if newest_first { r.kickoff >= x.kickoff } else { r.kickoff <= x.kickoff };
            if before {
                pos = pos + 1;
            }
            j = j + 1;
        }
        assert(out@.take(j as int) =~= out@);
        assert(v@.take(i as int + 1).drop_last() =~= v@.take(i as int));
        out.insert(pos, x);
        i = i + 1;
    }
    assert(v@.take(i as int) =~= v@);
    out
}

// ─── Streaks ──────────────────────────────────────────────────────────────────

/// Length of the run of scoring rows starting at index `i`.
pub open spec fn run_from(s: Seq<PredictionRow>, i: int) -> nat
    decreases s.len() - i,
{
    if i < 0 || i >= s.len() {
        0
    } else if s[i].points() > 0 {
        1 + run_from(s, i + 1)
    } else {
        0
    }
}

/// Longest run of scoring rows and the run that ends with the last row.
pub open spec fn run_state(s: Seq<PredictionRow>) -> (nat, nat)
    decreases s.len(),
{
    if s.len() == 0 {
        (0, 0)
    } else {
        let (best, current) = run_state(s.drop_last());
        if s.last().points() > 0 {
            let c = current + 1;
            (if c > best { c } else { best }, c)
        } else {
            (best, 0)
        }
    }
}

/// Current streak of a user: scoring rows counted from the newest kickoff back.
pub open spec fn current_streak_of(rows: Seq<PredictionRow>, uid: u128) -> nat {
    run_from(sort_by_kickoff(user_rows(rows, uid), true), 0)
}

/// Longest streak of a user: the longest run of scoring rows in kickoff order.
pub open spec fn longest_streak_of(rows: Seq<PredictionRow>, uid: u128) -> nat {
    run_state(sort_by_kickoff(user_rows(rows, uid), false)).0
}

proof fn lemma_run_state_bounds(s: Seq<PredictionRow>)
    ensures
        run_state(s).1 <= run_state(s).0 <= s.len(),
    decreases s.len(),
{
    if s.len() > 0 {
        lemma_run_state_bounds(s.drop_last());
    }
}

proof fn lemma_user_rows_len(rows: Seq<PredictionRow>, uid: u128)
    ensures
        user_rows(rows, uid).len() <= rows.len(),
{
    rows.filter_lemma(|r: PredictionRow| r.user_id == uid);
}

/// No two rows share a kickoff.
pub open spec fn distinct_kickoffs(s: Seq<PredictionRow>) -> bool {
    forall|i: int, j: int| 0 <= i < j < s.len() ==> (#[trigger] s[i]).kickoff != (#[trigger] s[j]).kickoff
}

proof fn lemma_count_where_concat(a: Seq<PredictionRow>, b: Seq<PredictionRow>, f: spec_fn(PredictionRow) -> bool)
    ensures
        count_where(a + b, f) == count_where(a, f) + count_where(b, f),
    decreases b.len(),
{
    if b.len() == 0 {
        assert(a + b =~= a);
    } else {
        lemma_count_where_concat(a, b.drop_last(), f);
        assert((a + b).drop_last() =~= a + b.drop_last());
        assert((a + b).last() == b.last());
    }
}

/// Every row of a sorted sequence is a row of the unsorted one.
proof fn lemma_sort_members(s: Seq<PredictionRow>, newest_first: bool)
    ensures
        forall|i: int| 0 <= i < sort_by_kickoff(s, newest_first).len()
            ==> exists|j: int| 0 <= j < s.len() && s[j] == #[trigger] sort_by_kickoff(s, newest_first)[i],
    decreases s.len(),
{
    lemma_sort_len(s, newest_first);
    if s.len() > 0 {
        let u = s.drop_last();
        let t = sort_by_kickoff(u, newest_first);
        lemma_sort_members(u, newest_first);
        lemma_sort_len(u, newest_first);
        lemma_count_where_bounds(t, placed_before(s.last(), newest_first));
        let p = count_where(t, placed_before(s.last(), newest_first)) as int;
        let r = sort_by_kickoff(s, newest_first);
        assert forall|i: int| 0 <= i < r.len() implies exists|j: int| 0 <= j < s.len() && s[j] == #[trigger] r[i] by {
            if i == p {
                assert(s[s.len() - 1] == r[i]);
            } else if i < p {
                assert(r[i] == t[i]);
                let j = choose|j: int| 0 <= j < u.len() && u[j] == #[trigger] t[i];
                assert(s[j] == r[i]);
            } else {
                assert(r[i] == t[i - 1]);
                let j = choose|j: int| 0 <= j < u.len() && u[j] == #[trigger] t[i - 1];
                assert(s[j] == r[i]);
            }
        }
    }
}

proof fn lemma_run_from_shift(x: PredictionRow, r: Seq<PredictionRow>, i: int)
    requires
        0 <= i,
    ensures
        run_from(seq![x] + r, i + 1) == run_from(r, i),
    decreases r.len() - i,
{
    if i < r.len() {
        assert((seq![x] + r)[i + 1] == r[i]);
        lemma_run_from_shift(x, r, i + 1);
    }
}

/// The run read from the newest row back is the run ending at the last row.
proof fn lemma_run_from_reverse(a: Seq<PredictionRow>)
    ensures
        run_from(a.reverse(), 0) == run_state(a).1,
    decreases a.len(),
{
    if a.len() > 0 {
        let r = a.drop_last().reverse();
        assert(a.reverse() =~= seq![a.last()] + r);
        lemma_run_from_reverse(a.drop_last());
        lemma_run_from_shift(a.last(), r, 0);
    }
}

proof fn lemma_run_from_bound(s: Seq<PredictionRow>, i: int)
    requires
        0 <= i,
    ensures
        run_from(s, i) <= if i <= s.len() { s.len() - i } else { 0 },
    decreases s.len() - i,
{
    if i < s.len() {
        lemma_run_from_bound(s, i + 1);
    }
}

/// Neither streak is longer than the player's number of finished rows, on
/// every input.
pub proof fn lemma_streaks_within_rows(rows: Seq<PredictionRow>, uid: u128)
    ensures
        current_streak_of(rows, uid) <= user_rows(rows, uid).len(),
        longest_streak_of(rows, uid) <= user_rows(rows, uid).len(),
{
    let s = user_rows(rows, uid);
    lemma_sort_len(s, true);
    lemma_sort_len(s, false);
    lemma_run_from_bound(sort_by_kickoff(s, true), 0);
    lemma_run_state_bounds(sort_by_kickoff(s, false));
}

/// When no two of a player's rows share a kickoff, the current streak never
/// exceeds the longest, and the longest never exceeds the player's number of
/// rows.
pub proof fn lemma_streaks_ordered(rows: Seq<PredictionRow>, uid: u128)
    requires
        distinct_kickoffs(user_rows(rows, uid)),
    ensures
        current_streak_of(rows, uid) <= longest_streak_of(rows, uid),
        longest_streak_of(rows, uid) <= user_rows(rows, uid).len(),
{
    let s = user_rows(rows, uid);
    assert(ties_agree(s)) by {
        assert forall|i: int, j: int| 0 <= i < s.len() && 0 <= j < s.len() && (#[trigger] s[i]).kickoff == (#[trigger] s[j]).kickoff
            implies (s[i].points() > 0) == (s[j].points() > 0) by {
            if i < j {
                assert(s[i].kickoff != s[j].kickoff);
            } else if j < i {
                assert(s[j].kickoff != s[i].kickoff);
            }
        }
    }
    lemma_streaks_ordered_when_ties_agree(rows, uid);
    lemma_streaks_within_rows(rows, uid);
}

/// Which rows scored, in order.
pub open spec fn scoring_pattern(s: Seq<PredictionRow>) -> Seq<bool> {
    s.map_values(|r: PredictionRow| r.points() > 0)
}

/// Rows sharing a kickoff all scored or all did not.
pub open spec fn ties_agree(s: Seq<PredictionRow>) -> bool {
    forall|i: int, j: int| 0 <= i < s.len() && 0 <= j < s.len() && (#[trigger] s[i]).kickoff == (#[trigger] s[j]).kickoff
        ==> (s[i].points() > 0) == (s[j].points() > 0)
}

proof fn lemma_count_where_insert(t: Seq<PredictionRow>, p: int, x: PredictionRow, f: spec_fn(PredictionRow) -> bool)
    requires
        0 <= p <= t.len(),
    ensures
        count_where(t.insert(p, x), f) == count_where(t, f) + if f(x) { 1int } else { 0int },
{
    assert(t.insert(p, x) =~= t.take(p) + seq![x] + t.skip(p));
    assert(t =~= t.take(p) + t.skip(p));
    lemma_count_where_concat(t.take(p) + seq![x], t.skip(p), f);
    lemma_count_where_concat(t.take(p), seq![x], f);
    lemma_count_where_concat(t.take(p), t.skip(p), f);
    assert(seq![x].drop_last() =~= Seq::<PredictionRow>::empty());
    assert(count_where(Seq::<PredictionRow>::empty(), f) == 0);
}

/// Sorting keeps how many rows satisfy any condition.
proof fn lemma_sort_counts(s: Seq<PredictionRow>, newest_first: bool, f: spec_fn(PredictionRow) -> bool)
    ensures
        count_where(sort_by_kickoff(s, newest_first), f) == count_where(s, f),
    decreases s.len(),
{
    if s.len() > 0 {
        let t = sort_by_kickoff(s.drop_last(), newest_first);
        lemma_sort_counts(s.drop_last(), newest_first, f);
        lemma_sort_len(s.drop_last(), newest_first);
        lemma_count_where_bounds(t, placed_before(s.last(), newest_first));
        lemma_count_where_insert(t, count_where(t, placed_before(s.last(), newest_first)) as int, s.last(), f);
    }
}

/// In a sequence sorted oldest first, the rows up to kickoff `k` come first.
proof fn lemma_sorted_prefix(t: Seq<PredictionRow>, k: i64)
    requires
        forall|i: int, j: int| 0 <= i < j < t.len() ==> (#[trigger] t[i]).kickoff <= (#[trigger] t[j]).kickoff,
    ensures
        forall|j: int| 0 <= j < t.len() ==> ((j < count_where(t, |r: PredictionRow| r.kickoff <= k)) <==> (#[trigger] t[j]).kickoff <= k),
        forall|j: int| 0 <= j < t.len() ==> ((j < count_where(t, |r: PredictionRow| r.kickoff < k)) <==> (#[trigger] t[j]).kickoff < k),
    decreases t.len(),
{
    if t.len() > 0 {
        let u = t.drop_last();
        assert forall|i: int, j: int| 0 <= i < j < u.len() implies (#[trigger] u[i]).kickoff <= (#[trigger] u[j]).kickoff by {
            assert(u[i] == t[i] && u[j] == t[j]);
        }
        lemma_sort_prefix_helper(t, k);
    }
}

proof fn lemma_sort_prefix_helper(t: Seq<PredictionRow>, k: i64)
    requires
        t.len() > 0,
        forall|i: int, j: int| 0 <= i < j < t.len() ==> (#[trigger] t[i]).kickoff <= (#[trigger] t[j]).kickoff,
    ensures
        forall|j: int| 0 <= j < t.len() ==> ((j < count_where(t, |r: PredictionRow| r.kickoff <= k)) <==> (#[trigger] t[j]).kickoff <= k),
        forall|j: int| 0 <= j < t.len() ==> ((j < count_where(t, |r: PredictionRow| r.kickoff < k)) <==> (#[trigger] t[j]).kickoff < k),
    decreases t.len(),
{
    let u = t.drop_last();
    let n = t.len() - 1;
    assert forall|i: int, j: int| 0 <= i < j < u.len() implies (#[trigger] u[i]).kickoff <= (#[trigger] u[j]).kickoff by {
        assert(u[i] == t[i] && u[j] == t[j]);
    }
    if u.len() > 0 {
        lemma_sort_prefix_helper(u, k);
    }
    lemma_count_where_bounds(u, |r: PredictionRow| r.kickoff <= k);
    lemma_count_where_bounds(u, |r: PredictionRow| r.kickoff < k);
    let cle = count_where(u, |r: PredictionRow| r.kickoff <= k);
    let clt = count_where(u, |r: PredictionRow| r.kickoff < k);
    assert(t.last() == t[n]);
    assert forall|j: int| 0 <= j < t.len() implies ((j < count_where(t, |r: PredictionRow| r.kickoff <= k)) <==> (#[trigger] t[j]).kickoff <= k) by {
        if j < n {
            assert(t[j] == u[j]);
            if t[n].kickoff <= k {
                assert(t[j].kickoff <= t[n].kickoff);
                if u.len() > 0 {
                    assert(u[j].kickoff <= k);
                    assert(j < cle);
                }
            }
        } else {
            if t[n].kickoff > k && u.len() > 0 {
                // every earlier row counted: the count stays below n
                assert(cle <= n);
            }
        }
    }
    assert forall|j: int| 0 <= j < t.len() implies ((j < count_where(t, |r: PredictionRow| r.kickoff < k)) <==> (#[trigger] t[j]).kickoff < k) by {
        if j < n {
            assert(t[j] == u[j]);
            if t[n].kickoff < k {
                assert(t[j].kickoff <= t[n].kickoff);
                if u.len() > 0 {
                    assert(u[j].kickoff < k);
                    assert(j < clt);
                }
            }
        }
    }
}

proof fn lemma_sort_asc_sorted(s: Seq<PredictionRow>)
    ensures
        forall|i: int, j: int| 0 <= i < j < sort_by_kickoff(s, false).len()
            ==> (#[trigger] sort_by_kickoff(s, false)[i]).kickoff <= (#[trigger] sort_by_kickoff(s, false)[j]).kickoff,
    decreases s.len(),
{
    if s.len() > 0 {
        let t = sort_by_kickoff(s.drop_last(), false);
        let x = s.last();
        lemma_sort_asc_sorted(s.drop_last());
        lemma_sort_len(s.drop_last(), false);
        lemma_count_where_bounds(t, placed_before(x, false));
        let p = count_where(t, placed_before(x, false)) as int;
        assert(placed_before(x, false) == (|r: PredictionRow| r.kickoff <= x.kickoff));
        lemma_sorted_prefix(t, x.kickoff);
        let a = t.insert(p, x);
        assert forall|i: int, j: int| 0 <= i < j < a.len() implies (#[trigger] a[i]).kickoff <= (#[trigger] a[j]).kickoff by {
            if j < p {
                assert(a[i] == t[i] && a[j] == t[j]);
            } else if j == p {
                assert(a[i] == t[i]);
            } else if i == p {
                assert(a[j] == t[j - 1]);
            } else if i < p {
                assert(a[i] == t[i] && a[j] == t[j - 1]);
            } else {
                assert(a[i] == t[i - 1] && a[j] == t[j - 1]);
            }
        }
    }
}

proof fn lemma_count_le_ge(t: Seq<PredictionRow>, k: i64)
    ensures
        count_where(t, |r: PredictionRow| r.kickoff <= k) + count_where(t, |r: PredictionRow| r.kickoff >= k)
            == t.len() + count_where(t, |r: PredictionRow| r.kickoff == k),
        count_where(t, |r: PredictionRow| r.kickoff < k) + count_where(t, |r: PredictionRow| r.kickoff == k)
            == count_where(t, |r: PredictionRow| r.kickoff <= k),
    decreases t.len(),
{
    if t.len() > 0 {
        lemma_count_le_ge(t.drop_last(), k);
    }
}

proof fn lemma_bools_insert_shift(b: Seq<bool>, i: int, e: int, v: bool)
    requires
        0 <= i,
        0 <= e,
        i + e <= b.len(),
        forall|j: int| i <= j < i + e ==> b[j] == v,
    ensures
        b.insert(i, v) == b.insert(i + e, v),
{
    assert forall|idx: int| 0 <= idx < b.len() + 1 implies #[trigger] b.insert(i, v)[idx] == b.insert(i + e, v)[idx] by {
        if idx < i {
        } else if idx == i {
            if e > 0 {
                assert(b.insert(i + e, v)[idx] == b[idx]);
            }
        } else if idx <= i + e {
            assert(b.insert(i, v)[idx] == b[idx - 1]);
        } else {
        }
    }
    assert(b.insert(i, v) =~= b.insert(i + e, v));
}

/// In a sequence sorted oldest first whose rows at kickoff `k` all score as
/// `v`, the block of rows at `k` sits between the rows before `k` and the
/// rows after it, and scores as `v`.
proof fn lemma_tie_block(a: Seq<PredictionRow>, k: i64, v: bool)
    requires
        forall|i: int, j: int| 0 <= i < j < a.len() ==> (#[trigger] a[i]).kickoff <= (#[trigger] a[j]).kickoff,
        forall|j: int| 0 <= j < a.len() && (#[trigger] a[j]).kickoff == k ==> (a[j].points() > 0) == v,
    ensures
        count_where(a, |r: PredictionRow| r.kickoff < k) + count_where(a, |r: PredictionRow| r.kickoff == k)
            == count_where(a, |r: PredictionRow| r.kickoff <= k),
        forall|j: int| count_where(a, |r: PredictionRow| r.kickoff < k) <= j < count_where(a, |r: PredictionRow| r.kickoff <= k)
            ==> #[trigger] scoring_pattern(a)[j] == v,
{
    lemma_count_le_ge(a, k);
    lemma_count_where_bounds(a, |r: PredictionRow| r.kickoff <= k);
    lemma_sorted_prefix(a, k);
    assert forall|j: int| count_where(a, |r: PredictionRow| r.kickoff < k) <= j < count_where(a, |r: PredictionRow| r.kickoff <= k)
        implies #[trigger] scoring_pattern(a)[j] == v by {
        assert(a[j].kickoff <= k);
        assert(!(a[j].kickoff < k));
    }
}

/// The rows of a sorted sequence at `x`'s kickoff score as `x` when ties
/// agree in `s`, `x` being its last row.
proof fn lemma_sorted_ties_agree(s: Seq<PredictionRow>)
    requires
        s.len() > 0,
        ties_agree(s),
    ensures
        forall|j: int| 0 <= j < sort_by_kickoff(s.drop_last(), false).len()
            && (#[trigger] sort_by_kickoff(s.drop_last(), false)[j]).kickoff == s.last().kickoff
            ==> (sort_by_kickoff(s.drop_last(), false)[j].points() > 0) == (s.last().points() > 0),
{
    let u = s.drop_last();
    let a = sort_by_kickoff(u, false);
    lemma_sort_members(u, false);
    assert forall|j: int| 0 <= j < a.len() && (#[trigger] a[j]).kickoff == s.last().kickoff
        implies (a[j].points() > 0) == (s.last().points() > 0) by {
        let m = choose|m: int| 0 <= m < u.len() && u[m] == #[trigger] a[j];
        assert(s[m] == u[m]);
        assert(s[s.len() - 1] == s.last());
    }
}

/// When rows sharing a kickoff agree on scoring, newest first scores in the
/// reverse pattern of oldest first.
#[verifier::rlimit(50)]
proof fn lemma_pattern_mirror(s: Seq<PredictionRow>)
    requires
        ties_agree(s),
    ensures
        scoring_pattern(sort_by_kickoff(s, true)) == scoring_pattern(sort_by_kickoff(s, false)).reverse(),
    decreases s.len(),
{
    if s.len() == 0 {
        assert(scoring_pattern(sort_by_kickoff(s, true)) =~= scoring_pattern(sort_by_kickoff(s, false)).reverse());
    } else {
        let u = s.drop_last();
        let x = s.last();
        let k = x.kickoff;
        let v = x.points() > 0;
        assert(ties_agree(u)) by {
            assert forall|i: int, j: int| 0 <= i < u.len() && 0 <= j < u.len() && (#[trigger] u[i]).kickoff == (#[trigger] u[j]).kickoff
                implies (u[i].points() > 0) == (u[j].points() > 0) by {
                assert(u[i] == s[i] && u[j] == s[j]);
            }
        }
        lemma_pattern_mirror(u);
        let a = sort_by_kickoff(u, false);
        let d = sort_by_kickoff(u, true);
        let n = a.len();
        lemma_sort_len(u, false);
        lemma_sort_len(u, true);
        lemma_sort_asc_sorted(u);
        lemma_sorted_ties_agree(s);
        lemma_tie_block(a, k, v);
        let ge = |r: PredictionRow| r.kickoff >= k;
        assert(placed_before(x, false) == (|r: PredictionRow| r.kickoff <= k));
        assert(placed_before(x, true) == ge);
        let p = count_where(a, |r: PredictionRow| r.kickoff <= k) as int;
        let q = count_where(d, ge) as int;
        let e = count_where(a, |r: PredictionRow| r.kickoff == k) as int;
        lemma_count_le_ge(a, k);
        lemma_sort_counts(u, true, ge);
        lemma_sort_counts(u, false, ge);
        assert(q == n - p + e);
        lemma_count_where_bounds(a, |r: PredictionRow| r.kickoff <= k);
        let pa = scoring_pattern(a);
        let b = pa.reverse();
        assert forall|j: int| n - p <= j < n - p + e implies b[j] == v by {
            assert(b[j] == pa[n - 1 - j]);
        }
        lemma_bools_insert_shift(b, n - p, e, v);
        assert(scoring_pattern(a.insert(p, x)).reverse() =~= b.insert(n - p, v));
        assert(scoring_pattern(d.insert(q, x)) =~= scoring_pattern(d).insert(q, v));
    }
}

proof fn lemma_run_from_pattern(x: Seq<PredictionRow>, y: Seq<PredictionRow>, i: int)
    requires
        scoring_pattern(x) == scoring_pattern(y),
    ensures
        run_from(x, i) == run_from(y, i),
    decreases x.len() - i,
{
    assert(x.len() == scoring_pattern(x).len() && y.len() == scoring_pattern(y).len());
    if 0 <= i < x.len() {
        assert(scoring_pattern(x)[i] == (x[i].points() > 0));
        assert(scoring_pattern(y)[i] == (y[i].points() > 0));
        lemma_run_from_pattern(x, y, i + 1);
    }
}

/// When rows sharing a kickoff all scored or all did not (in particular when
/// no two rows share a kickoff), the current streak never exceeds the
/// longest.
pub proof fn lemma_streaks_ordered_when_ties_agree(rows: Seq<PredictionRow>, uid: u128)
    requires
        ties_agree(user_rows(rows, uid)),
    ensures
        current_streak_of(rows, uid) <= longest_streak_of(rows, uid),
{
    let s = user_rows(rows, uid);
    lemma_pattern_mirror(s);
    let a = sort_by_kickoff(s, false);
    let d = sort_by_kickoff(s, true);
    assert(scoring_pattern(a.reverse()) =~= scoring_pattern(a).reverse());
    lemma_run_from_pattern(d, a.reverse(), 0);
    lemma_run_from_reverse(a);
    lemma_run_state_bounds(a);
}

/// Consecutive finished matches with at least one point, newest first; the
/// streak breaks at the first match without points.
pub struct CurrentStreakBadge;

impl Badge for CurrentStreakBadge {
    fn key(&self) -> (k: &'static str)
        ensures
            k@ == key_of(BadgeKind::CurrentStreak),
    {
        "current_streak"
    }

    fn icon(&self) -> (i: &'static str)
        ensures
            i@ == icon_of(BadgeKind::CurrentStreak),
    {
        "🔥"
    }

    fn title(&self) -> (t: &'static str)
        ensures
            t@ == title_of(BadgeKind::CurrentStreak),
    {
        "Aktuelle Serie"
    }

    fn how_to_earn(&self) -> (h: &'static str)
        ensures
            h@ == how_to_earn_of(BadgeKind::CurrentStreak),
    {
        "Folge fertiger Matches mit ≥1 Punkt — bricht beim ersten 0-Punkte-Match ab."
    }

    fn accent(&self) -> (a: BadgeAccent)
        ensures
            a == accent_of(BadgeKind::CurrentStreak),
    {
        BadgeAccent::Green
    }

    fn compute(&self, ctx: &BadgeContext<'_>) -> (d: BadgeDisplay)
        ensures
            d == BadgeDisplay::Metric(BadgeValue::Streak(current_streak_of(ctx.finished_predictions@, ctx.user_id) as i32)),
    {
        let mine = collect_user_rows(ctx.finished_predictions, ctx.user_id);
        let sorted = sorted_by_kickoff(&mine, true);
        proof {
            lemma_user_rows_len(ctx.finished_predictions@, ctx.user_id);
            lemma_sort_len(mine@, true);
        }
        let mut streak: i32 = 0;
        let mut i: usize = 0;
        while i < sorted.len() && sorted[i].base_points() > 0
            invariant
                i <= sorted@.len(),
                sorted@.len() <= MAX_ROWS,
                streak == i,
                run_from(sorted@, 0) == i + run_from(sorted@, i as int),
            decreases sorted@.len() - i,
        {
            streak = streak + 1;
            i = i + 1;
        }
        BadgeDisplay::Metric(BadgeValue::Streak(streak))
    }
}

/// Longest run of finished matches with at least one point, in kickoff order.
pub struct LongestStreakBadge;

impl Badge for LongestStreakBadge {
    fn key(&self) -> (k: &'static str)
        ensures
            k@ == key_of(BadgeKind::LongestStreak),
    {
        "longest_streak"
    }

    fn icon(&self) -> (i: &'static str)
        ensures
            i@ == icon_of(BadgeKind::LongestStreak),
    {
        "🚀"
    }

    fn title(&self) -> (t: &'static str)
        ensures
            t@ == title_of(BadgeKind::LongestStreak),
    {
        "Längste Serie"
    }

    fn how_to_earn(&self) -> (h: &'static str)
        ensures
            h@ == how_to_earn_of(BadgeKind::LongestStreak),
    {
        "Längste je erreichte Folge fertiger Matches mit ≥1 Punkt."
    }

    fn accent(&self) -> (a: BadgeAccent)
        ensures
            a == accent_of(BadgeKind::LongestStreak),
    {
        BadgeAccent::Default
    }

    fn compute(&self, ctx: &BadgeContext<'_>) -> (d: BadgeDisplay)
        ensures
            d == BadgeDisplay::Metric(BadgeValue::Streak(longest_streak_of(ctx.finished_predictions@, ctx.user_id) as i32)),
    {
        let mine = collect_user_rows(ctx.finished_predictions, ctx.user_id);
        let sorted = sorted_by_kickoff(&mine, false);
        proof {
            lemma_user_rows_len(ctx.finished_predictions@, ctx.user_id);
            lemma_sort_len(mine@, false);
        }
        let mut best: i32 = 0;
        let mut current: i32 = 0;
        let mut i: usize = 0;
        while i < sorted.len()
            invariant
                i <= sorted@.len(),
                sorted@.len() <= MAX_ROWS,
                (best as nat, current as nat) == run_state(sorted@.take(i as int)),
                0 <= current <= best <= i,
            decreases sorted@.len() - i,
        {
            assert(sorted@.take(i as int + 1).drop_last() =~= sorted@.take(i as int));
            if sorted[i].base_points() > 0 {
                current = current + 1;
                if current > best {
                    best = current;
                }
            } else {
                current = 0;
            }
            i = i + 1;
        }
        assert(sorted@.take(i as int) =~= sorted@);
        BadgeDisplay::Metric(BadgeValue::Streak(best))
    }
}

// ─── Per-match tallies ────────────────────────────────────────────────────────

/// Distinct match ids of the rows, in order of first appearance.
pub open spec fn match_ids(rows: Seq<PredictionRow>) -> Seq<i32>
    decreases rows.len(),
{
    if rows.len() == 0 {
        Seq::empty()
    } else {
        let k = match_ids(rows.drop_last());
        if k.contains(rows.last().match_id) {
            k
        } else {
            k.push(rows.last().match_id)
        }
    }
}

/// Rows of match `m`.
pub open spec fn on_match(m: i32) -> spec_fn(PredictionRow) -> bool {
    |r: PredictionRow| r.match_id == m
}

/// Exact rows of match `m`.
pub open spec fn exact_on_match(m: i32) -> spec_fn(PredictionRow) -> bool {
    |r: PredictionRow| r.match_id == m && r.exact()
}

/// Exact rows of user `uid` on match `m`.
pub open spec fn user_exact_on_match(m: i32, uid: u128) -> spec_fn(PredictionRow) -> bool {
    |r: PredictionRow| r.match_id == m && r.user_id == uid && r.exact()
}

proof fn lemma_match_ids(s: Seq<PredictionRow>)
    ensures
        match_ids(s).no_duplicates(),
        forall|m: i32| #[trigger] match_ids(s).contains(m) <==> count_where(s, on_match(m)) > 0,
    decreases s.len(),
{
    if s.len() > 0 {
        lemma_match_ids(s.drop_last());
    }
}

/// Per match: how many tipped it, how many were exact, and whether the user was.
pub struct MatchTally {
    pub ids: Vec<i32>,
    pub exact: Vec<i32>,
    pub total: Vec<i32>,
    pub user_exact: Vec<bool>,
}

impl MatchTally {
    pub open spec fn describes(&self, rows: Seq<PredictionRow>, uid: u128) -> bool {
        &&& self.ids@ == match_ids(rows)
        &&& self.exact@.len() == self.ids@.len()
        &&& self.total@.len() == self.ids@.len()
        &&& self.user_exact@.len() == self.ids@.len()
        &&& forall|j: int| 0 <= j < self.ids@.len() ==> {
            &&& #[trigger] self.exact@[j] as int == count_where(rows, exact_on_match(self.ids@[j]))
            &&& self.total@[j] as int == count_where(rows, on_match(self.ids@[j]))
            &&& self.user_exact@[j] == (count_where(rows, user_exact_on_match(self.ids@[j], uid)) > 0)
        }
    }
}

/// Tallies the rows per match.
#[verifier::spinoff_prover]
fn tally_matches(rows: &[PredictionRow], uid: u128) -> (t: MatchTally)
    requires
        rows@.len() <= MAX_ROWS,
    ensures
        t.describes(rows@, uid),
{
    let mut t = MatchTally { ids: Vec::new(), exact: Vec::new(), total: Vec::new(), user_exact: Vec::new() };
    let mut i: usize = 0;
    while i < rows.len()
        invariant
            i <= rows@.len(),
            rows@.len() <= MAX_ROWS,
            t.describes(rows@.take(i as int), uid),
            forall|j: int| 0 <= j < t.ids@.len() ==> #[trigger] t.total@[j] <= i && t.exact@[j] <= i,
        decreases rows@.len() - i,
    {
        let ghost s = rows@.take(i as int);
        let ghost s1 = rows@.take(i as int + 1);
        let r = rows[i];
        proof {
            assert(s1.drop_last() =~= s);
            assert(s1.last() == r);
            lemma_match_ids(s);
        }
        let mut j: usize = 0;
        while j < t.ids.len() && t.ids[j] != r.match_id
            invariant
                j <= t.ids@.len(),
                forall|jj: int| 0 <= jj < j ==> t.ids@[jj] != r.match_id,
            decreases t.ids@.len() - j,
        {
            j = j + 1;
        }
        let ex = r.is_exact();
        let mine = r.user_id == uid && ex;
        if j < t.ids.len() {
            let e = t.exact[j];
            let n = t.total[j];
            let u = t.user_exact[j];
            let ghost ex0 = t.exact@;
            let ghost tot0 = t.total@;
            let ghost ue0 = t.user_exact@;
            t.exact.set(j, if ex { e + 1 } else { e });
            t.total.set(j, n + 1);
            t.user_exact.set(j, u || mine);
            proof {
                assert(match_ids(s1) == match_ids(s)) by {
                    assert(match_ids(s).contains(r.match_id)) by {
                        assert(match_ids(s)[j as int] == r.match_id);
                    }
                }
                assert forall|jj: int| 0 <= jj < t.ids@.len() implies {
                    &&& #[trigger] t.exact@[jj] as int == count_where(s1, exact_on_match(t.ids@[jj]))
                    &&& t.total@[jj] as int == count_where(s1, on_match(t.ids@[jj]))
                    &&& t.user_exact@[jj] == (count_where(s1, user_exact_on_match(t.ids@[jj], uid)) > 0)
                } by {
                    let m = t.ids@[jj];
                    assert(ex0[jj] as int == count_where(s, exact_on_match(m)));
                    assert(tot0[jj] as int == count_where(s, on_match(m)));
                    assert(ue0[jj] == (count_where(s, user_exact_on_match(m, uid)) > 0));
                    if jj != j {
                        assert(t.ids@[jj] != r.match_id) by {
                            assert(match_ids(s).no_duplicates());
                        }
                    }
                }
            }
        } else {
            proof {
                assert(!match_ids(s).contains(r.match_id));
                assert(count_where(s, on_match(r.match_id)) == 0);
                lemma_count_where_implies(s, exact_on_match(r.match_id), on_match(r.match_id));
                lemma_count_where_implies(s, user_exact_on_match(r.match_id, uid), on_match(r.match_id));
            }
            let ghost ex0 = t.exact@;
            let ghost tot0 = t.total@;
            let ghost ue0 = t.user_exact@;
            t.ids.push(r.match_id);
            t.exact.push(if ex { 1 } else { 0 });
            t.total.push(1);
            t.user_exact.push(mine);
            proof {
                assert(match_ids(s1) == match_ids(s).push(r.match_id));
                assert forall|jj: int| 0 <= jj < t.ids@.len() implies {
                    &&& #[trigger] t.exact@[jj] as int == count_where(s1, exact_on_match(t.ids@[jj]))
                    &&& t.total@[jj] as int == count_where(s1, on_match(t.ids@[jj]))
                    &&& t.user_exact@[jj] == (count_where(s1, user_exact_on_match(t.ids@[jj], uid)) > 0)
                } by {
                    let m = t.ids@[jj];
                    if jj < t.ids@.len() - 1 {
                        assert(ex0[jj] as int == count_where(s, exact_on_match(m)));
                        assert(tot0[jj] as int == count_where(s, on_match(m)));
                        assert(ue0[jj] == (count_where(s, user_exact_on_match(m, uid)) > 0));
                        assert(m == match_ids(s)[jj]);
                        assert(match_ids(s).contains(m));
                        assert(m != r.match_id);
                    } else {
                        assert(m == r.match_id);
                    }
                }
            }
        }
        assert(t.ids@ == match_ids(s1));
        assert(t.exact@.len() == t.ids@.len());
        assert(t.total@.len() == t.ids@.len());
        assert(t.user_exact@.len() == t.ids@.len());
        assert(t.describes(s1, uid));
        i = i + 1;
    }
    assert(rows@.take(i as int) =~= rows@);
    t
}

/// Whether the user's exact hit on a match counts as an underdog hit: fewer
/// than 30% of the match's tippers were exact.
pub open spec fn underdog_hit(rows: Seq<PredictionRow>, uid: u128, m: i32) -> bool {
    &&& count_where(rows, user_exact_on_match(m, uid)) > 0
    &&& 10 * count_where(rows, exact_on_match(m)) < 3 * count_where(rows, on_match(m))
}

/// Whether the user was the only exact tipper of a match.
pub open spec fn solo_hit(rows: Seq<PredictionRow>, uid: u128, m: i32) -> bool {
    &&& count_where(rows, user_exact_on_match(m, uid)) > 0
    &&& count_where(rows, exact_on_match(m)) == 1
}

/// Number of matches on which the user scored an underdog hit.
pub open spec fn underdog_hits_of(rows: Seq<PredictionRow>, uid: u128) -> nat {
    match_ids(rows).filter(|m: i32| underdog_hit(rows, uid, m)).len()
}

/// Number of matches on which the user was the only exact tipper.
pub open spec fn solo_hits_of(rows: Seq<PredictionRow>, uid: u128) -> nat {
    match_ids(rows).filter(|m: i32| solo_hit(rows, uid, m)).len()
}

/// Counts the tallied matches satisfying the underdog rule (`underdog`) or the
/// solo rule.
fn count_tallied(t: &MatchTally, rows: Ghost<Seq<PredictionRow>>, uid: Ghost<u128>, underdog: bool) -> (n: i32)
    requires
        t.describes(rows@, uid@),
        rows@.len() <= MAX_ROWS,
    ensures
        n as int == if underdog { underdog_hits_of(rows@, uid@) } else { solo_hits_of(rows@, uid@) },
{
    let ghost f = if underdog { |m: i32| underdog_hit(rows@, uid@, m) } else { |m: i32| solo_hit(rows@, uid@, m) };
    proof {
        lemma_match_ids_len(rows@);
    }
    let mut n: i32 = 0;
    let mut j: usize = 0;
    while j < t.ids.len()
        invariant
            j <= t.ids@.len(),
            t.describes(rows@, uid@),
            t.ids@.len() <= rows@.len() <= MAX_ROWS,
            f == if underdog { |m: i32| underdog_hit(rows@, uid@, m) } else { |m: i32| solo_hit(rows@, uid@, m) },
            n as int == t.ids@.take(j as int).filter(f).len(),
            0 <= n <= j,
        decreases t.ids@.len() - j,
    {
        proof {
            assert(t.ids@.take(j as int + 1) =~= t.ids@.take(j as int).push(t.ids@[j as int]));
            t.ids@.take(j as int).lemma_filter_push(t.ids@[j as int], f);
            lemma_count_where_bounds(rows@, on_match(t.ids@[j as int]));
            let _ = t.exact@[j as int];
        }
        let e = t.exact[j] as i64;
        let hit = if underdog {
            t.user_exact[j] && 10 * e < 3 * (t.total[j] as i64)
        } else {
            t.user_exact[j] && e == 1
        };
        if hit {
            n = n + 1;
        }
        j = j + 1;
    }
    assert(t.ids@.take(j as int) =~= t.ids@);
    n
}

proof fn lemma_match_ids_len(s: Seq<PredictionRow>)
    ensures
        match_ids(s).len() <= s.len(),
    decreases s.len(),
{
    if s.len() > 0 {
        lemma_match_ids_len(s.drop_last());
    }
}

/// Exact tips on matches that fewer than 30% of all tippers hit exactly.
///
/// The share is compared in exact integer arithmetic (`10 * exact < 3 * total`).
pub struct UnderdogBadge;

impl Badge for UnderdogBadge {
    fn key(&self) -> (k: &'static str)
        ensures
            k@ == key_of(BadgeKind::Underdog),
    {
        "underdog"
    }

    fn icon(&self) -> (i: &'static str)
        ensures
            i@ == icon_of(BadgeKind::Underdog),
    {
        "🐺"
    }

    fn title(&self) -> (t: &'static str)
        ensures
            t@ == title_of(BadgeKind::Underdog),
    {
        "Underdog"
    }

    fn how_to_earn(&self) -> (h: &'static str)
        ensures
            h@ == how_to_earn_of(BadgeKind::Underdog),
    {
        "Exakter Tipp auf ein Match, das weniger als 30% aller Tipper exakt trafen."
    }

    fn accent(&self) -> (a: BadgeAccent)
        ensures
            a == accent_of(BadgeKind::Underdog),
    {
        BadgeAccent::Blue
    }

    fn compute(&self, ctx: &BadgeContext<'_>) -> (d: BadgeDisplay)
        ensures
            d == (BadgeDisplay::Achievement { times_earned: underdog_hits_of(ctx.finished_predictions@, ctx.user_id) as i32 }),
    {
        let t = tally_matches(ctx.finished_predictions, ctx.user_id);
        let n = count_tallied(&t, Ghost(ctx.finished_predictions@), Ghost(ctx.user_id), true);
        BadgeDisplay::Achievement { times_earned: n }
    }
}

/// Matches on which the user was the only exact tipper.
pub struct SoloHitBadge;

impl Badge for SoloHitBadge {
    fn key(&self) -> (k: &'static str)
        ensures
            k@ == key_of(BadgeKind::SoloHit),
    {
        "solo_hit"
    }

    fn icon(&self) -> (i: &'static str)
        ensures
            i@ == icon_of(BadgeKind::SoloHit),
    {
        "💎"
    }

    fn title(&self) -> (t: &'static str)
        ensures
            t@ == title_of(BadgeKind::SoloHit),
    {
        "Solo-Treffer"
    }

    fn how_to_earn(&self) -> (h: &'static str)
        ensures
            h@ == how_to_earn_of(BadgeKind::SoloHit),
    {
        "Du warst als einziger Tipper exakt — pro Match einmal vergeben."
    }

    fn accent(&self) -> (a: BadgeAccent)
        ensures
            a == accent_of(BadgeKind::SoloHit),
    {
        BadgeAccent::Green
    }

    fn compute(&self, ctx: &BadgeContext<'_>) -> (d: BadgeDisplay)
        ensures
            d == (BadgeDisplay::Achievement { times_earned: solo_hits_of(ctx.finished_predictions@, ctx.user_id) as i32 }),
    {
        let t = tally_matches(ctx.finished_predictions, ctx.user_id);
        let n = count_tallied(&t, Ghost(ctx.finished_predictions@), Ghost(ctx.user_id), false);
        BadgeDisplay::Achievement { times_earned: n }
    }
}

// ─── Matchday wins ───────────────────────────────────────────────────────────

/// Distinct (Berlin day, user) pairs of the rows, in order of first appearance.
pub open spec fn day_user_keys(rows: Seq<PredictionRow>) -> Seq<(i32, u128)>
    decreases rows.len(),
{
    if rows.len() == 0 {
        Seq::empty()
    } else {
        let k = day_user_keys(rows.drop_last());
        let key = (rows.last().day(), rows.last().user_id);
        if k.contains(key) {
            k
        } else {
            k.push(key)
        }
    }
}

/// Rows of user `u` on Berlin day `d`.
pub open spec fn on_day_of_user(d: i32, u: u128) -> spec_fn(PredictionRow) -> bool {
    |r: PredictionRow| r.day() == d && r.user_id == u
}

/// Points of user `u` on Berlin day `d`.
pub open spec fn day_points(rows: Seq<PredictionRow>, d: i32, u: u128) -> int {
    points_where(rows, on_day_of_user(d, u))
}

/// Whether `uid` won day `d`: scored on it, and no one who tipped that day
/// scored more (ties share the win).
pub open spec fn wins_day(rows: Seq<PredictionRow>, d: i32, uid: u128) -> bool {
    &&& day_points(rows, d, uid) > 0
    &&& forall|k: (i32, u128)| #[trigger] day_user_keys(rows).contains(k) && k.0 == d ==> day_points(rows, k.0, k.1) <= day_points(rows, d, uid)
}

/// Number of Berlin days the user won.
pub open spec fn matchday_wins_of(rows: Seq<PredictionRow>, uid: u128) -> nat {
    day_user_keys(rows).filter(won_by(rows, uid)).len()
}

/// Keys of days won by `uid`.
pub open spec fn won_by(rows: Seq<PredictionRow>, uid: u128) -> spec_fn((i32, u128)) -> bool {
    |k: (i32, u128)| k.1 == uid && wins_day(rows, k.0, uid)
}

proof fn lemma_day_user_keys(s: Seq<PredictionRow>)
    ensures
        day_user_keys(s).no_duplicates(),
        day_user_keys(s).len() <= s.len(),
        forall|k: (i32, u128)| #[trigger] day_user_keys(s).contains(k) <==> count_where(s, on_day_of_user(k.0, k.1)) > 0,
    decreases s.len(),
{
    if s.len() > 0 {
        lemma_day_user_keys(s.drop_last());
    }
}

/// Points per (Berlin day, user).
#[verifier::spinoff_prover]
fn tally_days(rows: &[PredictionRow]) -> (out: (Vec<(i32, u128)>, Vec<i32>))
    requires
        rows_wf(rows@),
    ensures
        out.0@ == day_user_keys(rows@),
        out.1@.len() == out.0@.len(),
        forall|j: int| 0 <= j < out.0@.len() ==> #[trigger] out.1@[j] as int == day_points(rows@, out.0@[j].0, out.0@[j].1),
{
    let mut keys: Vec<(i32, u128)> = Vec::new();
    let mut pts: Vec<i32> = Vec::new();
    let mut i: usize = 0;
    while i < rows.len()
        invariant
            i <= rows@.len(),
            rows_wf(rows@),
            keys@ == day_user_keys(rows@.take(i as int)),
            pts@.len() == keys@.len(),
            forall|j: int| 0 <= j < keys@.len() ==> #[trigger] pts@[j] as int == day_points(rows@.take(i as int), keys@[j].0, keys@[j].1),
            forall|j: int| 0 <= j < keys@.len() ==> 0 <= #[trigger] pts@[j] <= 11 * i,
        decreases rows@.len() - i,
    {
        let ghost s = rows@.take(i as int);
        let ghost s1 = rows@.take(i as int + 1);
        let r = rows[i];
        proof {
            assert(s1.drop_last() =~= s);
            assert(s1.last() == r);
            assert(r.wf());
            lemma_day_user_keys(s);
            scoring::lemma_match_points_within_max(r.scoring_system, r.stage, r.score_h as int, r.score_a as int, r.pred_h as int, r.pred_a as int);
        }
        let d = r.berlin_date();
        let p = r.base_points();
        let mut j: usize = 0;
        while j < keys.len() && !(keys[j].0 == d && keys[j].1 == r.user_id)
            invariant
                j <= keys@.len(),
                forall|jj: int| 0 <= jj < j ==> keys@[jj] != (d, r.user_id),
            decreases keys@.len() - j,
        {
            j = j + 1;
        }
        let ghost p0 = pts@;
        if j < keys.len() {
            let old_p = pts[j];
            pts.set(j, old_p + p);
            proof {
                assert(keys@[j as int] == (d, r.user_id));
                assert(day_user_keys(s).contains((d, r.user_id)));
                assert(day_user_keys(s1) == day_user_keys(s));
                assert forall|jj: int| 0 <= jj < keys@.len() implies #[trigger] pts@[jj] as int == day_points(s1, keys@[jj].0, keys@[jj].1) by {
                    assert(p0[jj] as int == day_points(s, keys@[jj].0, keys@[jj].1));
                    if jj != j {
                        assert(keys@[jj] != keys@[j as int]) by {
                            assert(day_user_keys(s).no_duplicates());
                        }
                    }
                }
                assert forall|jj: int| 0 <= jj < keys@.len() implies 0 <= #[trigger] pts@[jj] <= 11 * (i + 1) by {
                    assert(0 <= p0[jj] <= 11 * i);
                }
            }
        } else {
            proof {
                assert(!day_user_keys(s).contains((d, r.user_id)));
                assert(count_where(s, on_day_of_user(d, r.user_id)) == 0);
                lemma_points_where_bounds(s, on_day_of_user(d, r.user_id));
            }
            let ghost k0 = keys@;
            keys.push((d, r.user_id));
            pts.push(p);
            proof {
                assert(day_user_keys(s1) == day_user_keys(s).push((d, r.user_id)));
                assert forall|jj: int| 0 <= jj < keys@.len() implies #[trigger] pts@[jj] as int == day_points(s1, keys@[jj].0, keys@[jj].1) by {
                    if jj < keys@.len() - 1 {
                        assert(p0[jj] as int == day_points(s, keys@[jj].0, keys@[jj].1));
                        assert(keys@[jj] == k0[jj]);
                        assert(day_user_keys(s).contains(keys@[jj]));
                        assert(keys@[jj] != (d, r.user_id));
                    }
                }
                assert forall|jj: int| 0 <= jj < keys@.len() implies 0 <= #[trigger] pts@[jj] <= 11 * (i + 1) by {
                    if jj < keys@.len() - 1 {
                        assert(0 <= p0[jj] <= 11 * i);
                    }
                }
            }
        }
        assert(keys@ == day_user_keys(s1));
        i = i + 1;
    }
    assert(rows@.take(i as int) =~= rows@);
    (keys, pts)
}

/// Days on which the user had the highest day score (Berlin time); tied
/// winners share the day.
pub struct MatchdayWinsBadge;

impl Badge for MatchdayWinsBadge {
    fn key(&self) -> (k: &'static str)
        ensures
            k@ == key_of(BadgeKind::MatchdayWins),
    {
        "matchday_wins"
    }

    fn icon(&self) -> (i: &'static str)
        ensures
            i@ == icon_of(BadgeKind::MatchdayWins),
    {
        "🥇"
    }

    fn title(&self) -> (t: &'static str)
        ensures
            t@ == title_of(BadgeKind::MatchdayWins),
    {
        "Tagessieg"
    }

    fn how_to_earn(&self) -> (h: &'static str)
        ensures
            h@ == how_to_earn_of(BadgeKind::MatchdayWins),
    {
        "Höchste Tagespunktzahl an einem Spieltag (Berlin-Zeit). Bei Gleichstand teilen sich die Sieger den Tag."
    }

    fn accent(&self) -> (a: BadgeAccent)
        ensures
            a == accent_of(BadgeKind::MatchdayWins),
    {
        BadgeAccent::Yellow
    }

    fn compute(&self, ctx: &BadgeContext<'_>) -> (d: BadgeDisplay)
        ensures
            d == (BadgeDisplay::Achievement { times_earned: matchday_wins_of(ctx.finished_predictions@, ctx.user_id) as i32 }),
    {
        let ghost rows = ctx.finished_predictions@;
        let uid = ctx.user_id;
        let (keys, pts) = tally_days(ctx.finished_predictions);
        let ghost f = won_by(rows, uid);
        proof {
            lemma_day_user_keys(rows);
        }
        let mut wins: i32 = 0;
        let mut j: usize = 0;
        while j < keys.len()
            invariant
                j <= keys@.len(),
                keys@ == day_user_keys(rows),
                keys@.len() <= rows.len() <= MAX_ROWS,
                pts@.len() == keys@.len(),
                forall|jj: int| 0 <= jj < keys@.len() ==> #[trigger] pts@[jj] as int == day_points(rows, keys@[jj].0, keys@[jj].1),
                f == won_by(rows, uid),
                wins as int == keys@.take(j as int).filter(f).len(),
                0 <= wins <= j,
            decreases keys@.len() - j,
        {
            proof {
                assert(keys@.take(j as int + 1) =~= keys@.take(j as int).push(keys@[j as int]));
                keys@.take(j as int).lemma_filter_push(keys@[j as int], f);
            }
            let (day, user) = keys[j];
            let mine = pts[j];
            let mut won = user == uid && mine > 0;
            if won {
                let mut jj: usize = 0;
                while jj < keys.len()
                    invariant
                        jj <= keys@.len(),
                        pts@.len() == keys@.len(),
                        won ==> forall|x: int| 0 <= x < jj && keys@[x].0 == day ==> pts@[x] <= mine,
                        !won ==> exists|x: int| 0 <= x < keys@.len() && keys@[x].0 == day && pts@[x] > mine,
                    decreases keys@.len() - jj,
                {
                    if keys[jj].0 == day && pts[jj] > mine {
                        won = false;
                    }
                    jj = jj + 1;
                }
                proof {
                    if won {
                        assert forall|k: (i32, u128)| #[trigger] keys@.contains(k) && k.0 == day implies day_points(rows, k.0, k.1) <= day_points(rows, day, uid) by {
                            let x = choose|x: int| 0 <= x < keys@.len() && keys@[x] == k;
                            assert(pts@[x] as int == day_points(rows, keys@[x].0, keys@[x].1));
                        }
                    } else {
                        let x = choose|x: int| 0 <= x < keys@.len() && keys@[x].0 == day && pts@[x] > mine;
                        assert(pts@[x] as int == day_points(rows, keys@[x].0, keys@[x].1));
                        assert(keys@.contains(keys@[x]));
                    }
                }
            }
            proof {
                assert(pts@[j as int] as int == day_points(rows, keys@[j as int].0, keys@[j as int].1));
                assert(won == f(keys@[j as int]));
            }
            if won {
                wins = wins + 1;
            }
            j = j + 1;
        }
        assert(keys@.take(j as int) =~= keys@);
        BadgeDisplay::Achievement { times_earned: wins }
    }
}

// ─── Rank movement ────────────────────────────────────────────────────────────

/// Which finished rows a standings counts: all of them, or those of Berlin
/// days before a given day.
#[derive(Clone, Copy)]
pub enum Window {
    All,
    Before(i32),
}

impl Window {
    pub open spec fn pred(self) -> spec_fn(PredictionRow) -> bool {
        match self {
            Window::All => |r: PredictionRow| true,
            Window::Before(day) => |r: PredictionRow| r.day() < day,
        }
    }

    fn holds(&self, r: &PredictionRow) -> (b: bool)
        requires
            r.wf(),
        ensures
            b == (self.pred())(*r),
    {
        match self {
            Window::All => true,
            Window::Before(day) => r.berlin_date() < *day,
        }
    }
}

/// Rows of user `u` inside the window.
pub open spec fn user_in_window(w: Window, u: u128) -> spec_fn(PredictionRow) -> bool {
    |r: PredictionRow| (w.pred())(r) && r.user_id == u
}

/// Number of champion picks of `u` naming the actual champion.
pub open spec fn champion_picks_of(picks: Seq<(u128, i32)>, u: u128, actual: Option<i32>) -> nat
    decreases picks.len(),
{
    if picks.len() == 0 {
        0
    } else {
        champion_picks_of(picks.drop_last(), u, actual) + if picks.last().0 == u && actual == Some(picks.last().1) { 1nat } else { 0nat }
    }
}

/// Total of a user in a standings: points of the user's rows in the window,
/// plus the champion bonus for each pick of the actual champion.
pub open spec fn user_total(rows: Seq<PredictionRow>, w: Window, picks: Seq<(u128, i32)>, actual: Option<i32>, u: u128) -> int {
    points_where(rows, user_in_window(w, u)) + 10 * champion_picks_of(picks, u, actual)
}

/// Who appears in a standings: every league user, every user with a row in
/// the window, and every user with a pick of the actual champion.
pub open spec fn in_standings(rows: Seq<PredictionRow>, w: Window, users: Seq<u128>, picks: Seq<(u128, i32)>, actual: Option<i32>, u: u128) -> bool {
    ||| users.contains(u)
    ||| count_where(rows, user_in_window(w, u)) > 0
    ||| champion_picks_of(picks, u, actual) > 0
}

/// The distinct totals of a standings.
pub open spec fn standing_values(rows: Seq<PredictionRow>, w: Window, users: Seq<u128>, picks: Seq<(u128, i32)>, actual: Option<i32>) -> Set<int> {
    Set::new(|t: int| exists|v: u128| in_standings(rows, w, users, picks, actual, v) && user_total(rows, w, picks, actual, v) == t)
}

/// Dense rank ("1, 2, 2, 3") of `u`: one plus the number of distinct totals
/// above the user's; `None` for users not in the standings.
pub open spec fn dense_rank(rows: Seq<PredictionRow>, w: Window, users: Seq<u128>, picks: Seq<(u128, i32)>, actual: Option<i32>, u: u128) -> Option<int> {
    if in_standings(rows, w, users, picks, actual, u) {
        Some(1 + standing_values(rows, w, users, picks, actual).filter(|t: int| t > user_total(rows, w, picks, actual, u)).len() as int)
    } else {
        None
    }
}

/// Display of the rank-movement badge: the change of the user's dense rank
/// from the standings of the days before today to the current one. The
/// champion bonus counts in the earlier standings only once the final was
/// among those days.
pub open spec fn rank_delta_display(rows: Seq<PredictionRow>, today: i32, users: Seq<u128>, picks: Seq<(u128, i32)>, actual: Option<i32>, uid: u128) -> BadgeDisplay {
    let before = Window::Before(today);
    if count_where(rows, before.pred()) == 0 {
        BadgeDisplay::Metric(BadgeValue::Delta(None))
    } else {
        let decided = count_where(rows, |r: PredictionRow| r.day() < today && r.stage == Stage::Final) > 0;
        let prev = dense_rank(rows, before, users, picks, if decided { actual } else { None }, uid);
        let cur = dense_rank(rows, Window::All, users, picks, actual, uid);
        match (prev, cur) {
            (Some(p), Some(c)) => BadgeDisplay::Metric(BadgeValue::Delta(Some((p - c) as i32))),
            _ => BadgeDisplay::Metric(BadgeValue::Delta(None)),
        }
    }
}

proof fn lemma_champion_picks_bounds(picks: Seq<(u128, i32)>, u: u128, actual: Option<i32>)
    ensures
        champion_picks_of(picks, u, actual) <= picks.len(),
    decreases picks.len(),
{
    if picks.len() > 0 {
        lemma_champion_picks_bounds(picks.drop_last(), u, actual);
    }
}

/// Whether `x` occurs in `v`.
fn contains_id(v: &Vec<u128>, x: u128) -> (b: bool)
    ensures
        b == v@.contains(x),
{
    let mut i: usize = 0;
    while i < v.len()
        invariant
            i <= v@.len(),
            forall|j: int| 0 <= j < i ==> v@[j] != x,
        decreases v@.len() - i,
    {
        if v[i] == x {
            return true;
        }
        i = i + 1;
    }
    false
}

/// Number of rows of `u` in the window, and their points.
fn window_stats(rows: &[PredictionRow], w: Window, u: u128) -> (out: (i32, i32))
    requires
        rows_wf(rows@),
    ensures
        out.0 as int == count_where(rows@, user_in_window(w, u)),
        out.1 as int == points_where(rows@, user_in_window(w, u)),
        0 <= out.1 <= 11 * out.0,
        out.0 <= rows@.len(),
{
    let ghost f = user_in_window(w, u);
    let mut n: i32 = 0;
    let mut pts: i32 = 0;
    let mut i: usize = 0;
    while i < rows.len()
        invariant
            i <= rows@.len(),
            rows_wf(rows@),
            f == user_in_window(w, u),
            n as int == count_where(rows@.take(i as int), f),
            pts as int == points_where(rows@.take(i as int), f),
            0 <= n <= i,
            0 <= pts <= 11 * n,
        decreases rows@.len() - i,
    {
        assert(rows@.take(i as int + 1).drop_last() =~= rows@.take(i as int));
        let r = rows[i];
        assert(r.wf());
        if w.holds(&r) && r.user_id == u {
            let p = r.base_points();
            proof {
                scoring::lemma_match_points_within_max(r.scoring_system, r.stage, r.score_h as int, r.score_a as int, r.pred_h as int, r.pred_a as int);
            }
            n = n + 1;
            pts = pts + p;
        }
        i = i + 1;
    }
    assert(rows@.take(i as int) =~= rows@);
    (n, pts)
}

/// Number of picks of `u` naming the actual champion.
fn count_champion_picks(picks: &[(u128, i32)], u: u128, actual: Option<i32>) -> (n: i32)
    requires
        picks@.len() <= MAX_ROWS,
    ensures
        n as int == champion_picks_of(picks@, u, actual),
        0 <= n <= picks@.len(),
{
    let mut n: i32 = 0;
    let mut i: usize = 0;
    while i < picks.len()
        invariant
            i <= picks@.len(),
            picks@.len() <= MAX_ROWS,
            n as int == champion_picks_of(picks@.take(i as int), u, actual),
            0 <= n <= i,
        decreases picks@.len() - i,
    {
        assert(picks@.take(i as int + 1).drop_last() =~= picks@.take(i as int));
        let (pu, pick) = picks[i];
        let hit = match actual {
            Some(a) => pu == u && pick == a,
            None => false,
        };
        if hit {
            n = n + 1;
        }
        i = i + 1;
    }
    assert(picks@.take(i as int) =~= picks@);
    n
}

/// The users of a standings (each once) and their totals.
#[verifier::spinoff_prover]
fn standings(rows: &[PredictionRow], w: Window, users: &[u128], picks: &[(u128, i32)], actual: Option<i32>) -> (out: (Vec<u128>, Vec<i32>))
    requires
        rows_wf(rows@),
        users@.len() <= MAX_ROWS,
        picks@.len() <= MAX_ROWS,
    ensures
        out.0@.no_duplicates(),
        out.0@.len() <= users@.len() + rows@.len() + picks@.len(),
        forall|u: u128| #[trigger] out.0@.contains(u) <==> in_standings(rows@, w, users@, picks@, actual, u),
        out.1@.len() == out.0@.len(),
        forall|j: int| 0 <= j < out.1@.len() ==> #[trigger] out.1@[j] as int == user_total(rows@, w, picks@, actual, out.0@[j]),
{
    let mut keys: Vec<u128> = Vec::new();
    let mut i: usize = 0;
    while i < users.len()
        invariant
            i <= users@.len(),
            keys@.no_duplicates(),
            keys@.len() <= i,
            forall|u: u128| #[trigger] keys@.contains(u) <==> users@.take(i as int).contains(u),
        decreases users@.len() - i,
    {
        let u = users[i];
        assert(users@.take(i as int + 1) =~= users@.take(i as int).push(u));
        if !contains_id(&keys, u) {
            keys.push(u);
        }
        i = i + 1;
    }
    assert(users@.take(i as int) =~= users@);
    let ghost uw = |u: u128| user_in_window(w, u);
    let mut i: usize = 0;
    while i < rows.len()
        invariant
            i <= rows@.len(),
            rows_wf(rows@),
            keys@.no_duplicates(),
            keys@.len() <= users@.len() + i,
            forall|u: u128| #[trigger] keys@.contains(u) <==> (users@.contains(u) || count_where(rows@.take(i as int), user_in_window(w, u)) > 0),
        decreases rows@.len() - i,
    {
        let r = rows[i];
        assert(r.wf());
        assert(rows@.take(i as int + 1).drop_last() =~= rows@.take(i as int));
        if w.holds(&r) && !contains_id(&keys, r.user_id) {
            keys.push(r.user_id);
        }
        i = i + 1;
    }
    assert(rows@.take(i as int) =~= rows@);
    let mut i: usize = 0;
    while i < picks.len()
        invariant
            i <= picks@.len(),
            keys@.no_duplicates(),
            keys@.len() <= users@.len() + rows@.len() + i,
            forall|u: u128| #[trigger] keys@.contains(u) <==> (users@.contains(u) || count_where(rows@, user_in_window(w, u)) > 0 || champion_picks_of(picks@.take(i as int), u, actual) > 0),
        decreases picks@.len() - i,
    {
        let (pu, pick) = picks[i];
        assert(picks@.take(i as int + 1).drop_last() =~= picks@.take(i as int));
        let hit = match actual {
            Some(a) => pick == a,
            None => false,
        };
        if hit && !contains_id(&keys, pu) {
            keys.push(pu);
        }
        i = i + 1;
    }
    assert(picks@.take(i as int) =~= picks@);
    let mut totals: Vec<i32> = Vec::new();
    let mut j: usize = 0;
    while j < keys.len()
        invariant
            j <= keys@.len(),
            rows_wf(rows@),
            picks@.len() <= MAX_ROWS,
            totals@.len() == j,
            forall|jj: int| 0 <= jj < j ==> #[trigger] totals@[jj] as int == user_total(rows@, w, picks@, actual, keys@[jj]),
        decreases keys@.len() - j,
    {
        let (_, pts) = window_stats(rows, w, keys[j]);
        let bonus = count_champion_picks(picks, keys[j], actual);
        totals.push(pts + 10 * bonus);
        j = j + 1;
    }
    (keys, totals)
}

/// Dense rank of `u` among the totals of a standings.
#[verifier::spinoff_prover]
fn dense_rank_in(keys: &Vec<u128>, totals: &Vec<i32>, u: u128) -> (rank: Option<i32>)
    requires
        keys@.no_duplicates(),
        totals@.len() == keys@.len(),
        keys@.len() <= 3 * MAX_ROWS,
    ensures
        match rank {
            Some(r) => {
                &&& keys@.contains(u)
                &&& exists|j: int| 0 <= j < keys@.len() && keys@[j] == u
                    && r == 1 + Set::new(|t: int| exists|jj: int| 0 <= jj < keys@.len() && totals@[jj] == t).filter(|t: int| t > totals@[j] as int).len()
            },
            None => !keys@.contains(u),
        },
        rank matches Some(r) ==> 1 <= r <= 1 + keys@.len(),
{
    let mut idx: usize = 0;
    while idx < keys.len() && keys[idx] != u
        invariant
            idx <= keys@.len(),
            forall|x: int| 0 <= x < idx ==> keys@[x] != u,
        decreases keys@.len() - idx,
    {
        idx = idx + 1;
    }
    if idx == keys.len() {
        return None;
    }
    let x = totals[idx];
    let mut above: Vec<i32> = Vec::new();
    let mut j: usize = 0;
    while j < totals.len()
        invariant
            j <= totals@.len(),
            totals@.len() == keys@.len(),
            keys@.len() <= 3 * MAX_ROWS,
            above@.no_duplicates(),
            above@.len() <= j,
            forall|t: i32| #[trigger] above@.contains(t) <==> (t > x && exists|jj: int| 0 <= jj < j && totals@[jj] == t),
        decreases totals@.len() - j,
    {
        let t = totals[j];
        let mut k: usize = 0;
        while k < above.len() && above[k] != t
            invariant
                k <= above@.len(),
                forall|kk: int| 0 <= kk < k ==> above@[kk] != t,
            decreases above@.len() - k,
        {
            k = k + 1;
        }
        if t > x && k == above.len() {
            above.push(t);
        }
        proof {
            assert forall|tt: i32| #[trigger] above@.contains(tt) <==> (tt > x && exists|jj: int| 0 <= jj < j + 1 && totals@[jj] == tt) by {
                if tt > x && tt == t {
                    assert(totals@[j as int] == tt);
                    if k < above@.len() {
                        assert(above@[k as int] == tt);
                    }
                }
            }
        }
        j = j + 1;
    }
    let ghost vals = Set::new(|t: int| exists|jj: int| 0 <= jj < keys@.len() && totals@[jj] == t);
    proof {
        let s_above = above@.map_values(|t: i32| t as int);
        let fs = vals.filter(|t: int| t > x as int);
        assert(fs =~= s_above.to_set()) by {
            assert forall|t: int| #[trigger] fs.contains(t) implies s_above.to_set().contains(t) by {
                let jj = choose|jj: int| 0 <= jj < keys@.len() && totals@[jj] == t;
                let tt = totals@[jj];
                assert(above@.contains(tt));
                let k = choose|k: int| 0 <= k < above@.len() && above@[k] == tt;
                assert(s_above[k] == t);
            }
            assert forall|t: int| #[trigger] s_above.to_set().contains(t) implies fs.contains(t) by {
                let k = choose|k: int| 0 <= k < s_above.len() && s_above[k] == t;
                assert(above@.contains(above@[k]));
            }
        }
        assert(s_above.no_duplicates()) by {
            assert forall|a: int, b: int| 0 <= a < s_above.len() && 0 <= b < s_above.len() && a != b implies s_above[a] != s_above[b] by {
                assert(above@[a] != above@[b]);
            }
        }
        s_above.unique_seq_to_set();
        assert(keys@[idx as int] == u);
    }
    Some(1 + above.len() as i32)
}

/// The values of a computed standings are its distinct totals.
proof fn lemma_standings_values(keys: Seq<u128>, totals: Seq<i32>, rows: Seq<PredictionRow>, w: Window, users: Seq<u128>, picks: Seq<(u128, i32)>, actual: Option<i32>)
    requires
        forall|u: u128| #[trigger] keys.contains(u) <==> in_standings(rows, w, users, picks, actual, u),
        totals.len() == keys.len(),
        forall|j: int| 0 <= j < totals.len() ==> #[trigger] totals[j] as int == user_total(rows, w, picks, actual, keys[j]),
    ensures
        Set::new(|t: int| exists|jj: int| 0 <= jj < keys.len() && totals[jj] == t) == standing_values(rows, w, users, picks, actual),
{
    let a = Set::new(|t: int| exists|jj: int| 0 <= jj < keys.len() && totals[jj] == t);
    let b = standing_values(rows, w, users, picks, actual);
    assert forall|t: int| a.contains(t) implies b.contains(t) by {
        let jj = choose|jj: int| 0 <= jj < keys.len() && totals[jj] == t;
        assert(keys.contains(keys[jj]));
        assert(in_standings(rows, w, users, picks, actual, keys[jj]));
        assert(user_total(rows, w, picks, actual, keys[jj]) == t);
    }
    assert forall|t: int| b.contains(t) implies a.contains(t) by {
        let v = choose|v: u128| in_standings(rows, w, users, picks, actual, v) && user_total(rows, w, picks, actual, v) == t;
        assert(keys.contains(v));
        let jj = choose|jj: int| 0 <= jj < keys.len() && keys[jj] == v;
        assert(totals[jj] as int == t);
    }
    assert(a =~= b);
}

/// Dense rank of `u` in the standings of the window.
fn rank_in_window(rows: &[PredictionRow], w: Window, users: &[u128], picks: &[(u128, i32)], actual: Option<i32>, u: u128) -> (rank: Option<i32>)
    requires
        rows_wf(rows@),
        users@.len() <= MAX_ROWS,
        picks@.len() <= MAX_ROWS,
    ensures
        match rank {
            Some(r) => dense_rank(rows@, w, users@, picks@, actual, u) == Some(r as int),
            None => dense_rank(rows@, w, users@, picks@, actual, u) is None,
        },
        rank matches Some(r) ==> 1 <= r <= 3 * MAX_ROWS + 1,
{
    let (keys, totals) = standings(rows, w, users, picks, actual);
    let rank = dense_rank_in(&keys, &totals, u);
    proof {
        lemma_standings_values(keys@, totals@, rows@, w, users@, picks@, actual);
        if let Some(r) = rank {
            let j = choose|j: int| 0 <= j < keys@.len() && keys@[j] == u
                && r == 1 + Set::new(|t: int| exists|jj: int| 0 <= jj < keys@.len() && totals@[jj] == t).filter(|t: int| t > totals@[j] as int).len();
            assert(totals@[j] as int == user_total(rows@, w, picks@, actual, u));
            let vals = standing_values(rows@, w, users@, picks@, actual);
            assert(vals.filter(|t: int| t > totals@[j] as int) =~= vals.filter(|t: int| t > user_total(rows@, w, picks@, actual, u)));
        }
    }
    rank
}

/// Change of the user's rank since the last matchday (positive = climbed).
/// The earlier standings counts the Berlin days before today; without such
/// days there is no delta.
pub struct RankDeltaBadge;

impl Badge for RankDeltaBadge {
    fn key(&self) -> (k: &'static str)
        ensures
            k@ == key_of(BadgeKind::RankDelta),
    {
        "rank_delta"
    }

    fn icon(&self) -> (i: &'static str)
        ensures
            i@ == icon_of(BadgeKind::RankDelta),
    {
        "📊"
    }

    fn title(&self) -> (t: &'static str)
        ensures
            t@ == title_of(BadgeKind::RankDelta),
    {
        "Rang-Bewegung"
    }

    fn how_to_earn(&self) -> (h: &'static str)
        ensures
            h@ == how_to_earn_of(BadgeKind::RankDelta),
    {
        "Veränderung deines Rangs seit dem letzten Spieltag (positiv = aufgestiegen)."
    }

    fn accent(&self) -> (a: BadgeAccent)
        ensures
            a == accent_of(BadgeKind::RankDelta),
    {
        BadgeAccent::Default
    }

    fn compute(&self, ctx: &BadgeContext<'_>) -> (d: BadgeDisplay)
        ensures
            d == rank_delta_display(ctx.finished_predictions@, ctx.berlin_today, ctx.all_user_ids@, ctx.all_special_picks@, ctx.actual_champion_id, ctx.user_id),
    {
        let rows = ctx.finished_predictions;
        let today = ctx.berlin_today;
        let before = Window::Before(today);
        let ghost fin = |r: PredictionRow| r.day() < today && r.stage == Stage::Final;
        let mut n_before: usize = 0;
        let mut final_before = false;
        let mut i: usize = 0;
        while i < rows.len()
            invariant
                i <= rows@.len(),
                rows_wf(rows@),
                before == Window::Before(today),
                fin == (|r: PredictionRow| r.day() < today && r.stage == Stage::Final),
                n_before as int == count_where(rows@.take(i as int), before.pred()),
                final_before == (count_where(rows@.take(i as int), fin) > 0),
                n_before <= i,
            decreases rows@.len() - i,
        {
            assert(rows@.take(i as int + 1).drop_last() =~= rows@.take(i as int));
            let r = rows[i];
            assert(r.wf());
            if before.holds(&r) {
                n_before = n_before + 1;
                if r.stage == Stage::Final {
                    final_before = true;
                }
            }
            i = i + 1;
        }
        assert(rows@.take(i as int) =~= rows@);
        if n_before == 0 {
            return BadgeDisplay::Metric(BadgeValue::Delta(None));
        }
        let prev_actual = if final_before { ctx.actual_champion_id } else { None };
        let prev = rank_in_window(rows, before, ctx.all_user_ids, ctx.all_special_picks, prev_actual, ctx.user_id);
        let cur = rank_in_window(rows, Window::All, ctx.all_user_ids, ctx.all_special_picks, ctx.actual_champion_id, ctx.user_id);
        match (prev, cur) {
            (Some(p), Some(c)) => {
                BadgeDisplay::Metric(BadgeValue::Delta(Some(p - c)))
            },
            _ => BadgeDisplay::Metric(BadgeValue::Delta(None)),
        }
    }
}

// ─── Registry ────────────────────────────────────────────────────────────────

/// The registered badges, in display order.
#[derive(Debug, Clone, Copy, PartialEq, Eq, Structural)]
pub enum BadgeKind {
    MatchdayWins,
    ExactCount,
    Underdog,
    SoloHit,
    TendencyPct,
    KnockoutPoints,
    DisciplinePct,
    CurrentStreak,
    LongestStreak,
    RankDelta,
    ChampionPick,
}

/// Stable key of a badge.
pub open spec fn key_of(kind: BadgeKind) -> Seq<char> {
    match kind {
        BadgeKind::MatchdayWins => "matchday_wins"@,
        BadgeKind::ExactCount => "exact_count"@,
        BadgeKind::Underdog => "underdog"@,
        BadgeKind::SoloHit => "solo_hit"@,
        BadgeKind::TendencyPct => "tendency_pct"@,
        BadgeKind::KnockoutPoints => "knockout_points"@,
        BadgeKind::DisciplinePct => "discipline_pct"@,
        BadgeKind::CurrentStreak => "current_streak"@,
        BadgeKind::LongestStreak => "longest_streak"@,
        BadgeKind::RankDelta => "rank_delta"@,
        BadgeKind::ChampionPick => "champion_pick"@,
    }
}

/// Icon of a badge.
pub open spec fn icon_of(kind: BadgeKind) -> Seq<char> {
    match kind {
        BadgeKind::MatchdayWins => "🥇"@,
        BadgeKind::ExactCount => "🎯"@,
        BadgeKind::Underdog => "🐺"@,
        BadgeKind::SoloHit => "💎"@,
        BadgeKind::TendencyPct => "📈"@,
        BadgeKind::KnockoutPoints => "🏆"@,
        BadgeKind::DisciplinePct => "📋"@,
        BadgeKind::CurrentStreak => "🔥"@,
        BadgeKind::LongestStreak => "🚀"@,
        BadgeKind::RankDelta => "📊"@,
        BadgeKind::ChampionPick => "👑"@,
    }
}

/// How a badge is earned, as shown on its card.
pub open spec fn how_to_earn_of(kind: BadgeKind) -> Seq<char> {
    match kind {
        BadgeKind::MatchdayWins => "Höchste Tagespunktzahl an einem Spieltag (Berlin-Zeit). Bei Gleichstand teilen sich die Sieger den Tag."@,
        BadgeKind::ExactCount => "Tipp 100% korrekt: gleicher Heim- und Auswärtsscore wie das Endergebnis."@,
        BadgeKind::Underdog => "Exakter Tipp auf ein Match, das weniger als 30% aller Tipper exakt trafen."@,
        BadgeKind::SoloHit => "Du warst als einziger Tipper exakt — pro Match einmal vergeben."@,
        BadgeKind::TendencyPct => "Anteil deiner getippten fertigen Matches mit mindestens einem Punkt."@,
        BadgeKind::KnockoutPoints => "Summe deiner Punkte aus der K.O.-Phase (ab Sechzehntelfinale)."@,
        BadgeKind::DisciplinePct => "Anteil bereits gestarteter Matches, für die du einen Tipp abgegeben hast."@,
        BadgeKind::CurrentStreak => "Folge fertiger Matches mit ≥1 Punkt — bricht beim ersten 0-Punkte-Match ab."@,
        BadgeKind::LongestStreak => "Längste je erreichte Folge fertiger Matches mit ≥1 Punkt."@,
        BadgeKind::RankDelta => "Veränderung deines Rangs seit dem letzten Spieltag (positiv = aufgestiegen)."@,
        BadgeKind::ChampionPick => "Dein Champion-Pick. 10 Punkte, wenn dein Team das Turnier gewinnt."@,
    }
}

/// Accent colour of a badge.
pub open spec fn accent_of(kind: BadgeKind) -> BadgeAccent {
    match kind {
        BadgeKind::MatchdayWins => BadgeAccent::Yellow,
        BadgeKind::ExactCount => BadgeAccent::Yellow,
        BadgeKind::Underdog => BadgeAccent::Blue,
        BadgeKind::SoloHit => BadgeAccent::Green,
        BadgeKind::TendencyPct => BadgeAccent::Default,
        BadgeKind::KnockoutPoints => BadgeAccent::Yellow,
        BadgeKind::DisciplinePct => BadgeAccent::Default,
        BadgeKind::CurrentStreak => BadgeAccent::Green,
        BadgeKind::LongestStreak => BadgeAccent::Default,
        BadgeKind::RankDelta => BadgeAccent::Default,
        BadgeKind::ChampionPick => BadgeAccent::Yellow,
    }
}

/// Display title of a badge.
pub open spec fn title_of(kind: BadgeKind) -> Seq<char> {
    match kind {
        BadgeKind::MatchdayWins => "Tagessieg"@,
        BadgeKind::ExactCount => "Exakter Tipp"@,
        BadgeKind::Underdog => "Underdog"@,
        BadgeKind::SoloHit => "Solo-Treffer"@,
        BadgeKind::TendencyPct => "Tendenz-Quote"@,
        BadgeKind::KnockoutPoints => "K.O.-Punkte"@,
        BadgeKind::DisciplinePct => "Tippmoral"@,
        BadgeKind::CurrentStreak => "Aktuelle Serie"@,
        BadgeKind::LongestStreak => "Längste Serie"@,
        BadgeKind::RankDelta => "Rang-Bewegung"@,
        BadgeKind::ChampionPick => "Weltmeister-Tipp"@,
    }
}

/// What a badge shows for a context.
pub open spec fn display_of(kind: BadgeKind, ctx: BadgeContext<'_>) -> BadgeDisplay {
    let rows = ctx.finished_predictions@;
    let uid = ctx.user_id;
    match kind {
        BadgeKind::MatchdayWins => BadgeDisplay::Achievement { times_earned: matchday_wins_of(rows, uid) as i32 },
        BadgeKind::ExactCount => exact_count_display(rows, uid),
        BadgeKind::Underdog => BadgeDisplay::Achievement { times_earned: underdog_hits_of(rows, uid) as i32 },
        BadgeKind::SoloHit => BadgeDisplay::Achievement { times_earned: solo_hits_of(rows, uid) as i32 },
        BadgeKind::TendencyPct => tendency_pct_display(rows, uid),
        BadgeKind::KnockoutPoints => knockout_points_display(rows, uid),
        BadgeKind::DisciplinePct => discipline_pct_display(ctx.started_matches_total, ctx.user_started_tips),
        BadgeKind::CurrentStreak => BadgeDisplay::Metric(BadgeValue::Streak(current_streak_of(rows, uid) as i32)),
        BadgeKind::LongestStreak => BadgeDisplay::Metric(BadgeValue::Streak(longest_streak_of(rows, uid) as i32)),
        BadgeKind::RankDelta => rank_delta_display(rows, ctx.berlin_today, ctx.all_user_ids@, ctx.all_special_picks@, ctx.actual_champion_id, uid),
        BadgeKind::ChampionPick => match ctx.user_champion {
            Some(c) => BadgeDisplay::Metric(BadgeValue::Champion { team: c.team_name, flag_url: c.flag_url }),
            None => BadgeDisplay::Metric(BadgeValue::Empty),
        },
    }
}

/// The registered badges in display order.
pub open spec fn registry_order() -> Seq<BadgeKind> {
    seq![
        BadgeKind::MatchdayWins,
        BadgeKind::ExactCount,
        BadgeKind::Underdog,
        BadgeKind::SoloHit,
        BadgeKind::TendencyPct,
        BadgeKind::KnockoutPoints,
        BadgeKind::DisciplinePct,
        BadgeKind::CurrentStreak,
        BadgeKind::LongestStreak,
        BadgeKind::RankDelta,
        BadgeKind::ChampionPick,
    ]
}

impl Badge for BadgeKind {
    fn key(&self) -> (k: &'static str)
        ensures
            k@ == key_of(*self),
    {
        match self {
            BadgeKind::MatchdayWins => "matchday_wins",
            BadgeKind::ExactCount => "exact_count",
            BadgeKind::Underdog => "underdog",
            BadgeKind::SoloHit => "solo_hit",
            BadgeKind::TendencyPct => "tendency_pct",
            BadgeKind::KnockoutPoints => "knockout_points",
            BadgeKind::DisciplinePct => "discipline_pct",
            BadgeKind::CurrentStreak => "current_streak",
            BadgeKind::LongestStreak => "longest_streak",
            BadgeKind::RankDelta => "rank_delta",
            BadgeKind::ChampionPick => "champion_pick",
        }
    }

    fn icon(&self) -> (i: &'static str)
        ensures
            i@ == icon_of(*self),
    {
        match self {
            BadgeKind::MatchdayWins => MatchdayWinsBadge.icon(),
            BadgeKind::ExactCount => ExactCountBadge.icon(),
            BadgeKind::Underdog => UnderdogBadge.icon(),
            BadgeKind::SoloHit => SoloHitBadge.icon(),
            BadgeKind::TendencyPct => TendencyPctBadge.icon(),
            BadgeKind::KnockoutPoints => KnockoutPointsBadge.icon(),
            BadgeKind::DisciplinePct => DisciplinePctBadge.icon(),
            BadgeKind::CurrentStreak => CurrentStreakBadge.icon(),
            BadgeKind::LongestStreak => LongestStreakBadge.icon(),
            BadgeKind::RankDelta => RankDeltaBadge.icon(),
            BadgeKind::ChampionPick => ChampionPickBadge.icon(),
        }
    }

    fn title(&self) -> (t: &'static str)
        ensures
            t@ == title_of(*self),
    {
        match self {
            BadgeKind::MatchdayWins => "Tagessieg",
            BadgeKind::ExactCount => "Exakter Tipp",
            BadgeKind::Underdog => "Underdog",
            BadgeKind::SoloHit => "Solo-Treffer",
            BadgeKind::TendencyPct => "Tendenz-Quote",
            BadgeKind::KnockoutPoints => "K.O.-Punkte",
            BadgeKind::DisciplinePct => "Tippmoral",
            BadgeKind::CurrentStreak => "Aktuelle Serie",
            BadgeKind::LongestStreak => "Längste Serie",
            BadgeKind::RankDelta => "Rang-Bewegung",
            BadgeKind::ChampionPick => "Weltmeister-Tipp",
        }
    }

    fn how_to_earn(&self) -> (h: &'static str)
        ensures
            h@ == how_to_earn_of(*self),
    {
        match self {
            BadgeKind::MatchdayWins => MatchdayWinsBadge.how_to_earn(),
            BadgeKind::ExactCount => ExactCountBadge.how_to_earn(),
            BadgeKind::Underdog => UnderdogBadge.how_to_earn(),
            BadgeKind::SoloHit => SoloHitBadge.how_to_earn(),
            BadgeKind::TendencyPct => TendencyPctBadge.how_to_earn(),
            BadgeKind::KnockoutPoints => KnockoutPointsBadge.how_to_earn(),
            BadgeKind::DisciplinePct => DisciplinePctBadge.how_to_earn(),
            BadgeKind::CurrentStreak => CurrentStreakBadge.how_to_earn(),
            BadgeKind::LongestStreak => LongestStreakBadge.how_to_earn(),
            BadgeKind::RankDelta => RankDeltaBadge.how_to_earn(),
            BadgeKind::ChampionPick => ChampionPickBadge.how_to_earn(),
        }
    }

    fn accent(&self) -> (a: BadgeAccent)
        ensures
            a == accent_of(*self),
    {
        match self {
            BadgeKind::MatchdayWins => BadgeAccent::Yellow,
            BadgeKind::ExactCount => BadgeAccent::Yellow,
            BadgeKind::Underdog => BadgeAccent::Blue,
            BadgeKind::SoloHit => BadgeAccent::Green,
            BadgeKind::TendencyPct => BadgeAccent::Default,
            BadgeKind::KnockoutPoints => BadgeAccent::Yellow,
            BadgeKind::DisciplinePct => BadgeAccent::Default,
            BadgeKind::CurrentStreak => BadgeAccent::Green,
            BadgeKind::LongestStreak => BadgeAccent::Default,
            BadgeKind::RankDelta => BadgeAccent::Default,
            BadgeKind::ChampionPick => BadgeAccent::Yellow,
        }
    }

    fn compute(&self, ctx: &BadgeContext<'_>) -> (d: BadgeDisplay)
        ensures
            d == display_of(*self, *ctx),
    {
        match self {
            BadgeKind::MatchdayWins => MatchdayWinsBadge.compute(ctx),
            BadgeKind::ExactCount => ExactCountBadge.compute(ctx),
            BadgeKind::Underdog => UnderdogBadge.compute(ctx),
            BadgeKind::SoloHit => SoloHitBadge.compute(ctx),
            BadgeKind::TendencyPct => TendencyPctBadge.compute(ctx),
            BadgeKind::KnockoutPoints => KnockoutPointsBadge.compute(ctx),
            BadgeKind::DisciplinePct => DisciplinePctBadge.compute(ctx),
            BadgeKind::CurrentStreak => CurrentStreakBadge.compute(ctx),
            BadgeKind::LongestStreak => LongestStreakBadge.compute(ctx),
            BadgeKind::RankDelta => RankDeltaBadge.compute(ctx),
            BadgeKind::ChampionPick => ChampionPickBadge.compute(ctx),
        }
    }
}

/// The registered badges, in display order.
pub fn registry() -> (kinds: Vec<BadgeKind>)
    ensures
        kinds@ == registry_order(),
{
    let kinds = vec![
        BadgeKind::MatchdayWins,
        BadgeKind::ExactCount,
        BadgeKind::Underdog,
        BadgeKind::SoloHit,
        BadgeKind::TendencyPct,
        BadgeKind::KnockoutPoints,
        BadgeKind::DisciplinePct,
        BadgeKind::CurrentStreak,
        BadgeKind::LongestStreak,
        BadgeKind::RankDelta,
        BadgeKind::ChampionPick,
    ];
    assert(kinds@ =~= registry_order());
    kinds
}

/// Every registered badge, computed for the context, in display order.
pub fn compute_all(ctx: &BadgeContext<'_>) -> (views: Vec<BadgeView>)
    requires
        ctx.wf(),
    ensures
        views@.len() == registry_order().len(),
        forall|i: int| 0 <= i < views@.len() ==> {
            &&& (#[trigger] views@[i]).key@ == key_of(registry_order()[i])
            &&& views@[i].title@ == title_of(registry_order()[i])
            &&& views@[i].display == display_of(registry_order()[i], *ctx)
            &&& views@[i].icon@ == icon_of(registry_order()[i])
            &&& views@[i].how_to_earn@ == how_to_earn_of(registry_order()[i])
            &&& views@[i].accent == accent_of(registry_order()[i])
        },
{
    let kinds = registry();
    let mut views: Vec<BadgeView> = Vec::new();
    let mut i: usize = 0;
    while i < kinds.len()
        invariant
            i <= kinds@.len(),
            kinds@ == registry_order(),
            ctx.wf(),
            views@.len() == i,
            forall|j: int| 0 <= j < i ==> {
                &&& (#[trigger] views@[j]).key@ == key_of(registry_order()[j])
                &&& views@[j].title@ == title_of(registry_order()[j])
                &&& views@[j].display == display_of(registry_order()[j], *ctx)
                &&& views@[j].icon@ == icon_of(registry_order()[j])
                &&& views@[j].how_to_earn@ == how_to_earn_of(registry_order()[j])
                &&& views@[j].accent == accent_of(registry_order()[j])
            },
        decreases kinds@.len() - i,
    {
        let b = kinds[i];
        let view = BadgeView {
            key: b.key(),
            icon: b.icon(),
            title: b.title(),
            how_to_earn: b.how_to_earn(),
            display: b.compute(ctx),
            accent: b.accent(),
        };
        views.push(view);
        i = i + 1;
    }
    views
}


/// A share of a whole is a percentage between 0 and 100: none of it is 0,
/// all of it is 100, and a larger part never gives a smaller percentage.
pub proof fn lemma_percent_bounds(part: int, part2: int, whole: int)
    requires
        0 <= part <= whole,
        0 < whole,
    ensures
        0 <= percent_of(part, whole) <= 100,
        part == 0 ==> percent_of(part, whole) == 0,
        part == whole ==> percent_of(part, whole) == 100,
        part <= part2 <= whole ==> percent_of(part, whole) <= percent_of(part2, whole),
{
    assert(0 <= (100 * part) / whole <= 100) by (nonlinear_arith)
        requires
            0 <= part <= whole,
            0 < whole,
    ;
    assert(part == whole ==> (100 * part) / whole == 100) by (nonlinear_arith)
        requires
            0 < whole,
    ;
    assert(part <= part2 <= whole ==> (100 * part) / whole <= (100 * part2) / whole) by (nonlinear_arith)
        requires
            0 <= part,
            0 < whole,
    ;
}

/// The tendency share is a percentage between 0 and 100 of the player's own
/// finished tips, and shows nothing when the player has none.
pub proof fn lemma_tendency_pct_in_range(rows: Seq<PredictionRow>, uid: u128)
    requires
        rows.len() <= MAX_ROWS,
    ensures
        tendency_pct_display(rows, uid) matches BadgeDisplay::Metric(BadgeValue::Percent(Some(p))) ==> 0 <= p <= 100,
        count_where(rows, |r: PredictionRow| r.user_id == uid) == 0
            ==> tendency_pct_display(rows, uid) == BadgeDisplay::Metric(BadgeValue::Percent(None)),
{
    let any = of_user_and(uid, RowFilter::Any.pred());
    let sc = of_user_and(uid, RowFilter::Scoring.pred());
    assert forall|r: PredictionRow| #[trigger] sc(r) implies any(r) by {}
    lemma_count_where_implies(rows, sc, any);
    lemma_count_where_bounds(rows, any);
    let total = count_where(rows, any);
    let part = count_where(rows, sc);
    if total > 0 {
        lemma_percent_bounds(part as int, part as int, total as int);
    }
    assert forall|r: PredictionRow| #[trigger] any(r) implies r.user_id == uid by {}
    assert forall|r: PredictionRow| r.user_id == uid implies #[trigger] any(r) by {}
    lemma_count_where_implies(rows, any, |r: PredictionRow| r.user_id == uid);
}

} // verus!
