//! Provider-agnostic view of the sports data, and the rules that turn the
//! provider's raw fields into it: stage classification from the competition
//! headline and the season slug, group letters, match status and the
//! FIFA-abbreviation → flag-code table.

use vstd::prelude::*;

use crate::stage::Stage;
use crate::text::{
    ascii_upper, ascii_upper_all, chars_of, contains, find, find_from, has_substring, int_in, is_ascii_alpha, is_ascii_alphabetic, lowercase_of,
    parse_i32, parse_i64, starts_with, str_eq, string_of, to_ascii_uppercase,
};

verus! {

/// Lifecycle of a fixture as seen by the upstream provider.
#[derive(Debug, Clone, Copy, PartialEq, Eq, Structural)]
pub enum MatchStatus {
    Scheduled,
    Live,
    Finished,
}

/// Database value of a status.
pub open spec fn status_db_of(s: MatchStatus) -> Seq<char> {
    match s {
        MatchStatus::Scheduled => "scheduled"@,
        MatchStatus::Live => "live"@,
        MatchStatus::Finished => "finished"@,
    }
}

impl MatchStatus {
    /// String representation persisted in the `matches.status` column.
    pub fn as_db_str(self) -> (s: &'static str)
        ensures
            s@ == status_db_of(self),
    {
        match self {
            MatchStatus::Scheduled => "scheduled",
            MatchStatus::Live => "live",
            MatchStatus::Finished => "finished",
        }
    }
}

/// One team as the provider sees it.
#[derive(Debug, Clone)]
pub struct SportsTeam {
    pub provider_team_id: i32,
    pub display_name: String,
    pub short_name: Option<String>,
    /// ISO-3166 alpha-2 (or sub-country) flag code.
    pub flag_code: Option<String>,
}

/// One fixture as the provider sees it, already classified. `kickoff` is in
/// seconds since the Unix epoch.
#[derive(Debug, Clone)]
pub struct SportsEvent {
    pub provider_event_id: i64,
    pub stage: Stage,
    pub group_letter: Option<String>,
    pub home_team: Option<SportsTeam>,
    pub away_team: Option<SportsTeam>,
    pub score_home: Option<i32>,
    pub score_away: Option<i32>,
    pub kickoff: Option<i64>,
    pub status: MatchStatus,
}

// ─── Scoreboard double ────────────────────────────────────────────────────────

fn copy_text(s: &Option<String>) -> (c: Option<String>)
    ensures
        c == *s,
{
    match s {
        Some(x) => Some(x.clone()),
        None => None,
    }
}

fn copy_team(t: &Option<SportsTeam>) -> (c: Option<SportsTeam>)
    ensures
        c == *t,
{
    match t {
        Some(x) => Some(SportsTeam {
            provider_team_id: x.provider_team_id,
            display_name: x.display_name.clone(),
            short_name: copy_text(&x.short_name),
            flag_code: copy_text(&x.flag_code),
        }),
        None => None,
    }
}

fn copy_events(v: &Vec<SportsEvent>) -> (c: Vec<SportsEvent>)
    ensures
        c@ == v@,
{
    let mut c: Vec<SportsEvent> = Vec::new();
    let mut i: usize = 0;
    while i < v.len()
        invariant
            i <= v@.len(),
            c@ == v@.take(i as int),
        decreases v@.len() - i,
    {
        let e = &v[i];
        c.push(SportsEvent {
            provider_event_id: e.provider_event_id,
            stage: e.stage,
            group_letter: copy_text(&e.group_letter),
            home_team: copy_team(&e.home_team),
            away_team: copy_team(&e.away_team),
            score_home: e.score_home,
            score_away: e.score_away,
            kickoff: e.kickoff,
            status: e.status,
        });
        assert(c@ =~= v@.take(i as int + 1));
        i = i + 1;
    }
    assert(v@.take(i as int) =~= v@);
    c
}

/// The events seeded for a day: the latest seeding of that day, else none.
pub open spec fn seeded_for(seeds: Seq<(i32, Vec<SportsEvent>)>, day: i32) -> Seq<SportsEvent>
    decreases seeds.len(),
{
    if seeds.len() == 0 {
        Seq::empty()
    } else if seeds.last().0 == day {
        seeds.last().1@
    } else {
        seeded_for(seeds.drop_last(), day)
    }
}

/// A scoreboard standing in for the provider: events seeded per day (a
/// calendar day counted from the Common Era), and days whose next fetch
/// fails once.
pub struct FakeScoreboardClient {
    events_by_date: Vec<(i32, Vec<SportsEvent>)>,
    fail_once: Vec<i32>,
    call_count: usize,
}

impl FakeScoreboardClient {
    /// The seedings, oldest first.
    pub closed spec fn seeds(&self) -> Seq<(i32, Vec<SportsEvent>)> {
        self.events_by_date@
    }

    /// The days whose next fetch fails.
    pub closed spec fn failing(&self) -> Set<i32> {
        self.fail_once@.to_set()
    }

    /// Number of fetches so far.
    pub closed spec fn calls(&self) -> nat {
        self.call_count as nat
    }

    /// Nothing seeded, nothing failing, no fetch yet.
    pub fn new() -> (c: Self)
        ensures
            c.seeds() == Seq::<(i32, Vec<SportsEvent>)>::empty(),
            c.failing() == Set::<i32>::empty(),
            c.calls() == 0,
    {
        let c = FakeScoreboardClient { events_by_date: Vec::new(), fail_once: Vec::new(), call_count: 0 };
        assert(c.fail_once@.to_set() =~= Set::<i32>::empty());
        c
    }

    /// Seeds the events of a day, replacing earlier ones.
    pub fn seed(&mut self, date: i32, events: Vec<SportsEvent>)
        ensures
            final(self).seeds() == old(self).seeds().push((date, events)),
            final(self).failing() == old(self).failing(),
            final(self).calls() == old(self).calls(),
    {
        self.events_by_date.push((date, events));
    }

    /// Makes the next fetch of the day fail.
    pub fn fail_once(&mut self, date: i32)
        ensures
            final(self).failing() == old(self).failing().insert(date),
            final(self).seeds() == old(self).seeds(),
            final(self).calls() == old(self).calls(),
    {
        self.fail_once.push(date);
        proof {
            old(self).fail_once@.lemma_push_to_set_commute(date);
        }
    }

    /// Number of fetches so far.
    pub fn call_count(&self) -> (n: usize)
        ensures
            n == self.calls(),
    {
        self.call_count
    }

    /// Fetches the events of a day: fails once for a failing day (which
    /// then stops failing), otherwise returns the seeded events.
    pub fn fetch_events(&mut self, date: i32) -> (r: Result<Vec<SportsEvent>, String>)
        requires
            old(self).calls() < usize::MAX,
            crate::clock::valid_day(date),
        ensures
            final(self).calls() == old(self).calls() + 1,
            final(self).seeds() == old(self).seeds(),
            final(self).failing() == old(self).failing().remove(date),
            old(self).failing().contains(date) ==> (r matches Err(e) && e@ == "simulated fetch failure for "@ + crate::clock::iso_date_of(date)),
            !old(self).failing().contains(date) ==> (r matches Ok(v) && v@ == seeded_for(old(self).seeds(), date)),
    {
        self.call_count = self.call_count + 1;
        let ghost before = self.fail_once@;
        let mut kept: Vec<i32> = Vec::new();
        let mut failed = false;
        let mut i: usize = 0;
        while i < self.fail_once.len()
            invariant
                i <= self.fail_once@.len(),
                before == self.fail_once@,
                self.call_count == old(self).call_count + 1,
                self.events_by_date@ == old(self).events_by_date@,
                failed == before.take(i as int).contains(date),
                forall|x: i32| kept@.contains(x) <==> (before.take(i as int).contains(x) && x != date),
            decreases self.fail_once@.len() - i,
        {
            let x = self.fail_once[i];
            let ghost pre = before.take(i as int);
            let ghost kept_before = kept@;
            assert(before.take(i as int + 1) =~= pre.push(x));
            if x == date {
                failed = true;
            } else {
                kept.push(x);
            }
            assert forall|y: i32| pre.push(x).contains(y) <==> (pre.contains(y) || y == x) by {
                if pre.push(x).contains(y) {
                    let k = choose|k: int| 0 <= k < pre.push(x).len() && pre.push(x)[k] == y;
                    if k < pre.len() {
                        assert(pre[k] == y);
                    }
                }
                if pre.contains(y) {
                    let k = choose|k: int| 0 <= k < pre.len() && pre[k] == y;
                    assert(pre.push(x)[k] == y);
                }
                if y == x {
                    assert(pre.push(x)[pre.len() as int] == x);
                }
            }
            assert forall|y: i32| kept@.contains(y) <==> (kept_before.contains(y) || (y == x && x != date)) by {
                if x != date {
                    if kept@.contains(y) {
                        let k = choose|k: int| 0 <= k < kept@.len() && kept@[k] == y;
                        if k < kept_before.len() {
                            assert(kept_before[k] == y);
                        }
                    }
                    if kept_before.contains(y) {
                        let k = choose|k: int| 0 <= k < kept_before.len() && kept_before[k] == y;
                        assert(kept@[k] == y);
                    }
                    if y == x {
                        assert(kept@[kept_before.len() as int] == x);
                    }
                }
            }
            assert forall|y: i32| kept@.contains(y) <==> (before.take(i as int + 1).contains(y) && y != date) by {
                assert(kept_before.contains(y) <==> (pre.contains(y) && y != date));
                assert(pre.push(x).contains(y) <==> (pre.contains(y) || y == x));
            }
            i = i + 1;
        }
        assert(before.take(i as int) =~= before);
        self.fail_once = kept;
        assert(self.fail_once@.to_set() =~= before.to_set().remove(date));
        if failed {
            let mut msg = chars_of("simulated fetch failure for ");
            let day = crate::clock::iso_date(date);
            crate::text::append_str(&mut msg, day.as_str());
            return Err(string_of(&msg));
        }
        let ghost seeds = self.events_by_date@;
        let mut j: usize = self.events_by_date.len();
        assert(seeds.take(j as int) =~= seeds);
        while j > 0
            invariant
                j <= self.events_by_date@.len(),
                seeds == self.events_by_date@,
                seeds == old(self).events_by_date@,
                self.call_count == old(self).call_count + 1,
                self.fail_once@.to_set() == old(self).fail_once@.to_set().remove(date),
                !old(self).fail_once@.contains(date),
                seeded_for(seeds, date) == seeded_for(seeds.take(j as int), date),
            decreases j,
        {
            assert(seeds.take(j as int).drop_last() =~= seeds.take(j as int - 1));
            if self.events_by_date[j - 1].0 == date {
                return Ok(copy_events(&self.events_by_date[j - 1].1));
            }
            j = j - 1;
        }
        Ok(Vec::new())
    }
}

// ─── Stage classification ────────────────────────────────────────────────────

/// Group letter after the first `group ` in a lower-cased headline: the next
/// character, when it is an ASCII letter, upper-cased.
pub open spec fn group_letter_of(lc: Seq<char>) -> Option<char> {
    match find_from(lc, "group "@, 0) {
        Some(i) => if i + 6 < lc.len() && is_ascii_alpha(lc[i + 6]) { Some(ascii_upper(lc[i + 6])) } else { None },
        None => None,
    }
}

/// Stage (and group letter) named by a competition headline, matched
/// case-insensitively: third place before semi-final before quarter-final
/// before final, then round of 16, round of 32, and the group stage.
pub open spec fn headline_stage(headline: Seq<char>) -> (Stage, Option<Seq<char>>) {
    let lc = lowercase_of(headline);
    if has_substring(lc, "third"@) || has_substring(lc, "3rd place"@) {
        (Stage::ThirdPlace, None)
    } else if has_substring(lc, "semifinal"@) || has_substring(lc, "semi-final"@) {
        (Stage::SemiFinal, None)
    } else if has_substring(lc, "quarterfinal"@) || has_substring(lc, "quarter-final"@) {
        (Stage::QuarterFinal, None)
    } else if has_substring(lc, "final"@) {
        (Stage::Final, None)
    } else if has_substring(lc, "round of 16"@) || has_substring(lc, "eighth-final"@) {
        (Stage::RoundOf16, None)
    } else if has_substring(lc, "round of 32"@) || has_substring(lc, "sixteenth"@) {
        (Stage::RoundOf32, None)
    } else {
        match group_letter_of(lc) {
            Some(c) => (Stage::Group, Some(seq![c])),
            None => (Stage::Group, None),
        }
    }
}

/// Stage named by a season slug.
pub open spec fn slug_stage(slug: Seq<char>) -> Option<Stage> {
    if slug == "group-stage"@ {
        Some(Stage::Group)
    } else if slug == "round-of-32"@ {
        Some(Stage::RoundOf32)
    } else if slug == "round-of-16"@ {
        Some(Stage::RoundOf16)
    } else if slug == "quarterfinals"@ {
        Some(Stage::QuarterFinal)
    } else if slug == "semifinals"@ {
        Some(Stage::SemiFinal)
    } else if slug == "3rd-place-match"@ || slug == "third-place-match"@ {
        Some(Stage::ThirdPlace)
    } else if slug == "final"@ {
        Some(Stage::Final)
    } else {
        None
    }
}

/// View of an optional string.
pub open spec fn opt_view(s: Option<String>) -> Option<Seq<char>> {
    match s {
        Some(x) => Some(x@),
        None => None,
    }
}

fn group_letter_in(lc: &Vec<char>) -> (g: Option<String>)
    ensures
        opt_view(g) == match group_letter_of(lc@) {
            Some(c) => Some(seq![c]),
            None => None,
        },
{
    let needle = chars_of("group ");
    match find(lc, &needle) {
        Some(i) => {
            if i < lc.len() && 6 < lc.len() - i {
                let c = lc[i + 6];
                if crate::text::is_ascii_alphabetic(c) {
                    let letter = vec![crate::text::to_ascii_uppercase(c)];
                    assert(letter@ =~= seq![ascii_upper(c)]);
                    return Some(string_of(&letter));
                }
            }
            None
        },
        None => None,
    }
}

/// Group letter in an already lower-cased headline.
pub fn extract_group_letter(lc: &str) -> (g: Option<String>)
    ensures
        opt_view(g) == match group_letter_of(lc@) {
            Some(c) => Some(seq![c]),
            None => None,
        },
{
    let v = chars_of(lc);
    group_letter_in(&v)
}

/// Heuristic stage classification from the competition headline.
pub fn classify_stage(headline: &str) -> (r: (Stage, Option<String>))
    ensures
        (r.0, opt_view(r.1)) == headline_stage(headline@),
{
    let lc = crate::text::to_lowercase(headline);
    if contains(&lc, "third") || contains(&lc, "3rd place") {
        return (Stage::ThirdPlace, None);
    }
    if contains(&lc, "semifinal") || contains(&lc, "semi-final") {
        return (Stage::SemiFinal, None);
    }
    if contains(&lc, "quarterfinal") || contains(&lc, "quarter-final") {
        return (Stage::QuarterFinal, None);
    }
    if contains(&lc, "final") {
        return (Stage::Final, None);
    }
    if contains(&lc, "round of 16") || contains(&lc, "eighth-final") {
        return (Stage::RoundOf16, None);
    }
    if contains(&lc, "round of 32") || contains(&lc, "sixteenth") {
        return (Stage::RoundOf32, None);
    }
    let g = group_letter_in(&lc);
    (Stage::Group, g)
}

/// Stage named by the season slug, which is authoritative when set.
pub fn classify_slug(slug: &str) -> (s: Option<Stage>)
    ensures
        s == slug_stage(slug@),
{
    let v = chars_of(slug);
    if crate::text::chars_eq(&v, &chars_of("group-stage")) {
        Some(Stage::Group)
    } else if crate::text::chars_eq(&v, &chars_of("round-of-32")) {
        Some(Stage::RoundOf32)
    } else if crate::text::chars_eq(&v, &chars_of("round-of-16")) {
        Some(Stage::RoundOf16)
    } else if crate::text::chars_eq(&v, &chars_of("quarterfinals")) {
        Some(Stage::QuarterFinal)
    } else if crate::text::chars_eq(&v, &chars_of("semifinals")) {
        Some(Stage::SemiFinal)
    } else if crate::text::chars_eq(&v, &chars_of("3rd-place-match")) || crate::text::chars_eq(&v, &chars_of("third-place-match")) {
        Some(Stage::ThirdPlace)
    } else if crate::text::chars_eq(&v, &chars_of("final")) {
        Some(Stage::Final)
    } else {
        None
    }
}

/// Group letter of the first standings entry at or after `i` for team `t`.
pub open spec fn group_from(groups: Seq<(i32, String)>, t: i32, i: int) -> Option<Seq<char>>
    decreases groups.len() - i,
{
    if i < 0 || i >= groups.len() {
        None
    } else if groups[i].0 == t {
        Some(groups[i].1@)
    } else {
        group_from(groups, t, i + 1)
    }
}

/// Group letter of a team from the standings table (team id → letter).
pub open spec fn group_of(groups: Seq<(i32, String)>, id: Option<i32>) -> Option<Seq<char>> {
    match id {
        Some(t) => group_from(groups, t, 0),
        None => None,
    }
}

/// Stage and group letter of an event: the slug decides the stage when it is
/// known, the headline otherwise; a group-stage event without a letter in its
/// headline takes the home team's group, else the away team's.
pub open spec fn event_stage_of(slug: Seq<char>, headline: Seq<char>, groups: Seq<(i32, String)>, home_id: Option<i32>, away_id: Option<i32>) -> (Stage, Option<Seq<char>>) {
    let (stage, letter) = match slug_stage(slug) {
        Some(s) => (s, headline_stage(headline).1),
        None => headline_stage(headline),
    };
    if stage == Stage::Group && letter is None {
        (stage, match group_of(groups, home_id) {
            Some(g) => Some(g),
            None => group_of(groups, away_id),
        })
    } else {
        (stage, letter)
    }
}

fn lookup_group(groups: &Vec<(i32, String)>, id: Option<i32>) -> (g: Option<String>)
    ensures
        opt_view(g) == group_of(groups@, id),
{
    match id {
        None => None,
        Some(t) => {
            let mut i: usize = 0;
            while i < groups.len()
                invariant
                    i <= groups@.len(),
                    id == Some(t),
                    group_from(groups@, t, 0) == group_from(groups@, t, i as int),
                decreases groups@.len() - i,
            {
                if groups[i].0 == t {
                    let g = groups[i].1.clone();
                    assert(g@ == groups@[i as int].1@);
                    assert(group_from(groups@, t, i as int) == Some(g@));
                    assert(group_of(groups@, id) == Some(g@));
                    assert(opt_view(Some(g)) == Some(g@));
                    return Some(g);
                }
                i = i + 1;
            }
            None
        },
    }
}

/// Stage and group letter of an event from its season slug, its headline and
/// the team → group table.
pub fn event_stage(slug: &str, headline: &str, groups: &Vec<(i32, String)>, home_id: Option<i32>, away_id: Option<i32>) -> (r: (Stage, Option<String>))
    ensures
        (r.0, opt_view(r.1)) == event_stage_of(slug@, headline@, groups@, home_id, away_id),
{
    let (stage, letter) = match classify_slug(slug) {
        Some(s) => (s, classify_stage(headline).1),
        None => classify_stage(headline),
    };
    if stage == Stage::Group && letter.is_none() {
        let home = lookup_group(groups, home_id);
        if home.is_some() {
            return (stage, home);
        }
        return (stage, lookup_group(groups, away_id));
    }
    (stage, letter)
}

/// Status of a competition from the provider's state field.
pub open spec fn status_of_state(state: Option<Seq<char>>) -> MatchStatus {
    match state {
        Some(s) => if s == "in"@ { MatchStatus::Live } else if s == "post"@ { MatchStatus::Finished } else { MatchStatus::Scheduled },
        None => MatchStatus::Scheduled,
    }
}

/// Match status from the provider's state (`in`, `post`, anything else).
pub fn status_from_state(state: Option<&str>) -> (s: MatchStatus)
    ensures
        s == status_of_state(match state {
            Some(x) => Some(x@),
            None => None,
        }),
{
    match state {
        Some(x) => {
            if crate::text::str_eq(x, "in") {
                MatchStatus::Live
            } else if crate::text::str_eq(x, "post") {
                MatchStatus::Finished
            } else {
                MatchStatus::Scheduled
            }
        },
        None => MatchStatus::Scheduled,
    }
}

// ─── Flags ───────────────────────────────────────────────────────────────────

/// 3-letter FIFA abbreviation → ISO-3166 alpha-2 flag code.
pub open spec fn flag_table() -> Seq<(Seq<char>, Seq<char>)> {
    seq![
        ("ALG"@, "dz"@),
        ("ANG"@, "ao"@),
        ("BEN"@, "bj"@),
        ("BOT"@, "bw"@),
        ("BFA"@, "bf"@),
        ("BDI"@, "bi"@),
        ("CMR"@, "cm"@),
        ("CPV"@, "cv"@),
        ("CAF"@, "cf"@),
        ("CHA"@, "td"@),
        ("COM"@, "km"@),
        ("CGO"@, "cg"@),
        ("COD"@, "cd"@),
        ("CIV"@, "ci"@),
        ("DJI"@, "dj"@),
        ("EGY"@, "eg"@),
        ("EQG"@, "gq"@),
        ("ERI"@, "er"@),
        ("SWZ"@, "sz"@),
        ("ETH"@, "et"@),
        ("GAB"@, "ga"@),
        ("GAM"@, "gm"@),
        ("GHA"@, "gh"@),
        ("GUI"@, "gn"@),
        ("GNB"@, "gw"@),
        ("KEN"@, "ke"@),
        ("LES"@, "ls"@),
        ("LBR"@, "lr"@),
        ("LBY"@, "ly"@),
        ("MAD"@, "mg"@),
        ("MWI"@, "mw"@),
        ("MLI"@, "ml"@),
        ("MTN"@, "mr"@),
        ("MRI"@, "mu"@),
        ("MAR"@, "ma"@),
        ("MOZ"@, "mz"@),
        ("NAM"@, "na"@),
        ("NIG"@, "ne"@),
        ("NGA"@, "ng"@),
        ("RWA"@, "rw"@),
        ("STP"@, "st"@),
        ("SEN"@, "sn"@),
        ("SEY"@, "sc"@),
        ("SLE"@, "sl"@),
        ("SOM"@, "so"@),
        ("RSA"@, "za"@),
        ("SSD"@, "ss"@),
        ("SUD"@, "sd"@),
        ("TAN"@, "tz"@),
        ("TOG"@, "tg"@),
        ("TUN"@, "tn"@),
        ("UGA"@, "ug"@),
        ("ZAM"@, "zm"@),
        ("ZIM"@, "zw"@),
        ("AFG"@, "af"@),
        ("BHR"@, "bh"@),
        ("BAN"@, "bd"@),
        ("BTN"@, "bt"@),
        ("BRU"@, "bn"@),
        ("CAM"@, "kh"@),
        ("CHN"@, "cn"@),
        ("HKG"@, "hk"@),
        ("IND"@, "in"@),
        ("IDN"@, "id"@),
        ("IRN"@, "ir"@),
        ("IRQ"@, "iq"@),
        ("ISR"@, "il"@),
        ("JPN"@, "jp"@),
        ("JOR"@, "jo"@),
        ("KAZ"@, "kz"@),
        ("KUW"@, "kw"@),
        ("KGZ"@, "kg"@),
        ("LAO"@, "la"@),
        ("LBN"@, "lb"@),
        ("MAC"@, "mo"@),
        ("MYS"@, "my"@),
        ("MDV"@, "mv"@),
        ("MNG"@, "mn"@),
        ("MYA"@, "mm"@),
        ("NEP"@, "np"@),
        ("PRK"@, "kp"@),
        ("OMA"@, "om"@),
        ("PAK"@, "pk"@),
        ("PLE"@, "ps"@),
        ("PHI"@, "ph"@),
        ("QAT"@, "qa"@),
        ("KSA"@, "sa"@),
        ("SGP"@, "sg"@),
        ("KOR"@, "kr"@),
        ("LKA"@, "lk"@),
        ("SYR"@, "sy"@),
        ("TWN"@, "tw"@),
        ("TJK"@, "tj"@),
        ("THA"@, "th"@),
        ("TLS"@, "tl"@),
        ("TKM"@, "tm"@),
        ("UAE"@, "ae"@),
        ("UZB"@, "uz"@),
        ("VIE"@, "vn"@),
        ("YEM"@, "ye"@),
        ("ALB"@, "al"@),
        ("AND"@, "ad"@),
        ("ARM"@, "am"@),
        ("AUT"@, "at"@),
        ("AZE"@, "az"@),
        ("BLR"@, "by"@),
        ("BEL"@, "be"@),
        ("BIH"@, "ba"@),
        ("BUL"@, "bg"@),
        ("CRO"@, "hr"@),
        ("CYP"@, "cy"@),
        ("CZE"@, "cz"@),
        ("DEN"@, "dk"@),
        ("ENG"@, "gb-eng"@),
        ("EST"@, "ee"@),
        ("FRO"@, "fo"@),
        ("FIN"@, "fi"@),
        ("FRA"@, "fr"@),
        ("GEO"@, "ge"@),
        ("GER"@, "de"@),
        ("GIB"@, "gi"@),
        ("GRE"@, "gr"@),
        ("HUN"@, "hu"@),
        ("ISL"@, "is"@),
        ("ITA"@, "it"@),
        ("KVX"@, "xk"@),
        ("LVA"@, "lv"@),
        ("LIE"@, "li"@),
        ("LTU"@, "lt"@),
        ("LUX"@, "lu"@),
        ("MLT"@, "mt"@),
        ("MDA"@, "md"@),
        ("MNE"@, "me"@),
        ("NED"@, "nl"@),
        ("MKD"@, "mk"@),
        ("NIR"@, "gb-nir"@),
        ("NOR"@, "no"@),
        ("POL"@, "pl"@),
        ("POR"@, "pt"@),
        ("IRL"@, "ie"@),
        ("ROU"@, "ro"@),
        ("RUS"@, "ru"@),
        ("SMR"@, "sm"@),
        ("SCO"@, "gb-sct"@),
        ("SRB"@, "rs"@),
        ("SVK"@, "sk"@),
        ("SVN"@, "si"@),
        ("ESP"@, "es"@),
        ("SWE"@, "se"@),
        ("SUI"@, "ch"@),
        ("TUR"@, "tr"@),
        ("UKR"@, "ua"@),
        ("WAL"@, "gb-wls"@),
        ("AIA"@, "ai"@),
        ("ATG"@, "ag"@),
        ("ARU"@, "aw"@),
        ("BHS"@, "bs"@),
        ("BRB"@, "bb"@),
        ("BLZ"@, "bz"@),
        ("BMU"@, "bm"@),
        ("VIR"@, "vi"@),
        ("CAN"@, "ca"@),
        ("CAY"@, "ky"@),
        ("CRC"@, "cr"@),
        ("CUB"@, "cu"@),
        ("CUW"@, "cw"@),
        ("DMA"@, "dm"@),
        ("DOM"@, "do"@),
        ("SLV"@, "sv"@),
        ("GUF"@, "gf"@),
        ("GRN"@, "gd"@),
        ("GLP"@, "gp"@),
        ("GUA"@, "gt"@),
        ("GUY"@, "gy"@),
        ("HAI"@, "ht"@),
        ("HON"@, "hn"@),
        ("JAM"@, "jm"@),
        ("MTQ"@, "mq"@),
        ("MEX"@, "mx"@),
        ("MSR"@, "ms"@),
        ("NCA"@, "ni"@),
        ("PAN"@, "pa"@),
        ("PUR"@, "pr"@),
        ("SKN"@, "kn"@),
        ("LCA"@, "lc"@),
        ("VCT"@, "vc"@),
        ("SUR"@, "sr"@),
        ("TTO"@, "tt"@),
        ("USA"@, "us"@),
        ("ARG"@, "ar"@),
        ("BOL"@, "bo"@),
        ("BRA"@, "br"@),
        ("CHI"@, "cl"@),
        ("COL"@, "co"@),
        ("ECU"@, "ec"@),
        ("PAR"@, "py"@),
        ("PER"@, "pe"@),
        ("URU"@, "uy"@),
        ("VEN"@, "ve"@),
        ("AUS"@, "au"@),
        ("FIJ"@, "fj"@),
        ("NZL"@, "nz"@),
        ("PNG"@, "pg"@),
        ("SAM"@, "ws"@),
        ("SOL"@, "sb"@),
        ("TAH"@, "pf"@),
        ("VAN"@, "vu"@)
    ]
}

/// Flag code of the first table entry at or after `i` with the given abbreviation.
pub open spec fn flag_lookup(table: Seq<(Seq<char>, Seq<char>)>, abbr: Seq<char>, i: int) -> Option<Seq<char>>
    decreases table.len() - i,
{
    if i < 0 || i >= table.len() {
        None
    } else if table[i].0 == abbr {
        Some(table[i].1)
    } else {
        flag_lookup(table, abbr, i + 1)
    }
}

/// Flag code of an abbreviation, matched case-insensitively (ASCII).
pub open spec fn flag_code_of(abbr: Seq<char>) -> Option<Seq<char>> {
    flag_lookup(flag_table(), ascii_upper_all(abbr), 0)
}

fn flag_pairs() -> (t: Vec<(&'static str, &'static str)>)
    ensures
        t@.map_values(|p: (&'static str, &'static str)| (p.0@, p.1@)) == flag_table(),
{
    let t = vec![
        ("ALG", "dz"),
        ("ANG", "ao"),
        ("BEN", "bj"),
        ("BOT", "bw"),
        ("BFA", "bf"),
        ("BDI", "bi"),
        ("CMR", "cm"),
        ("CPV", "cv"),
        ("CAF", "cf"),
        ("CHA", "td"),
        ("COM", "km"),
        ("CGO", "cg"),
        ("COD", "cd"),
        ("CIV", "ci"),
        ("DJI", "dj"),
        ("EGY", "eg"),
        ("EQG", "gq"),
        ("ERI", "er"),
        ("SWZ", "sz"),
        ("ETH", "et"),
        ("GAB", "ga"),
        ("GAM", "gm"),
        ("GHA", "gh"),
        ("GUI", "gn"),
        ("GNB", "gw"),
        ("KEN", "ke"),
        ("LES", "ls"),
        ("LBR", "lr"),
        ("LBY", "ly"),
        ("MAD", "mg"),
        ("MWI", "mw"),
        ("MLI", "ml"),
        ("MTN", "mr"),
        ("MRI", "mu"),
        ("MAR", "ma"),
        ("MOZ", "mz"),
        ("NAM", "na"),
        ("NIG", "ne"),
        ("NGA", "ng"),
        ("RWA", "rw"),
        ("STP", "st"),
        ("SEN", "sn"),
        ("SEY", "sc"),
        ("SLE", "sl"),
        ("SOM", "so"),
        ("RSA", "za"),
        ("SSD", "ss"),
        ("SUD", "sd"),
        ("TAN", "tz"),
        ("TOG", "tg"),
        ("TUN", "tn"),
        ("UGA", "ug"),
        ("ZAM", "zm"),
        ("ZIM", "zw"),
        ("AFG", "af"),
        ("BHR", "bh"),
        ("BAN", "bd"),
        ("BTN", "bt"),
        ("BRU", "bn"),
        ("CAM", "kh"),
        ("CHN", "cn"),
        ("HKG", "hk"),
        ("IND", "in"),
        ("IDN", "id"),
        ("IRN", "ir"),
        ("IRQ", "iq"),
        ("ISR", "il"),
        ("JPN", "jp"),
        ("JOR", "jo"),
        ("KAZ", "kz"),
        ("KUW", "kw"),
        ("KGZ", "kg"),
        ("LAO", "la"),
        ("LBN", "lb"),
        ("MAC", "mo"),
        ("MYS", "my"),
        ("MDV", "mv"),
        ("MNG", "mn"),
        ("MYA", "mm"),
        ("NEP", "np"),
        ("PRK", "kp"),
        ("OMA", "om"),
        ("PAK", "pk"),
        ("PLE", "ps"),
        ("PHI", "ph"),
        ("QAT", "qa"),
        ("KSA", "sa"),
        ("SGP", "sg"),
        ("KOR", "kr"),
        ("LKA", "lk"),
        ("SYR", "sy"),
        ("TWN", "tw"),
        ("TJK", "tj"),
        ("THA", "th"),
        ("TLS", "tl"),
        ("TKM", "tm"),
        ("UAE", "ae"),
        ("UZB", "uz"),
        ("VIE", "vn"),
        ("YEM", "ye"),
        ("ALB", "al"),
        ("AND", "ad"),
        ("ARM", "am"),
        ("AUT", "at"),
        ("AZE", "az"),
        ("BLR", "by"),
        ("BEL", "be"),
        ("BIH", "ba"),
        ("BUL", "bg"),
        ("CRO", "hr"),
        ("CYP", "cy"),
        ("CZE", "cz"),
        ("DEN", "dk"),
        ("ENG", "gb-eng"),
        ("EST", "ee"),
        ("FRO", "fo"),
        ("FIN", "fi"),
        ("FRA", "fr"),
        ("GEO", "ge"),
        ("GER", "de"),
        ("GIB", "gi"),
        ("GRE", "gr"),
        ("HUN", "hu"),
        ("ISL", "is"),
        ("ITA", "it"),
        ("KVX", "xk"),
        ("LVA", "lv"),
        ("LIE", "li"),
        ("LTU", "lt"),
        ("LUX", "lu"),
        ("MLT", "mt"),
        ("MDA", "md"),
        ("MNE", "me"),
        ("NED", "nl"),
        ("MKD", "mk"),
        ("NIR", "gb-nir"),
        ("NOR", "no"),
        ("POL", "pl"),
        ("POR", "pt"),
        ("IRL", "ie"),
        ("ROU", "ro"),
        ("RUS", "ru"),
        ("SMR", "sm"),
        ("SCO", "gb-sct"),
        ("SRB", "rs"),
        ("SVK", "sk"),
        ("SVN", "si"),
        ("ESP", "es"),
        ("SWE", "se"),
        ("SUI", "ch"),
        ("TUR", "tr"),
        ("UKR", "ua"),
        ("WAL", "gb-wls"),
        ("AIA", "ai"),
        ("ATG", "ag"),
        ("ARU", "aw"),
        ("BHS", "bs"),
        ("BRB", "bb"),
        ("BLZ", "bz"),
        ("BMU", "bm"),
        ("VIR", "vi"),
        ("CAN", "ca"),
        ("CAY", "ky"),
        ("CRC", "cr"),
        ("CUB", "cu"),
        ("CUW", "cw"),
        ("DMA", "dm"),
        ("DOM", "do"),
        ("SLV", "sv"),
        ("GUF", "gf"),
        ("GRN", "gd"),
        ("GLP", "gp"),
        ("GUA", "gt"),
        ("GUY", "gy"),
        ("HAI", "ht"),
        ("HON", "hn"),
        ("JAM", "jm"),
        ("MTQ", "mq"),
        ("MEX", "mx"),
        ("MSR", "ms"),
        ("NCA", "ni"),
        ("PAN", "pa"),
        ("PUR", "pr"),
        ("SKN", "kn"),
        ("LCA", "lc"),
        ("VCT", "vc"),
        ("SUR", "sr"),
        ("TTO", "tt"),
        ("USA", "us"),
        ("ARG", "ar"),
        ("BOL", "bo"),
        ("BRA", "br"),
        ("CHI", "cl"),
        ("COL", "co"),
        ("ECU", "ec"),
        ("PAR", "py"),
        ("PER", "pe"),
        ("URU", "uy"),
        ("VEN", "ve"),
        ("AUS", "au"),
        ("FIJ", "fj"),
        ("NZL", "nz"),
        ("PNG", "pg"),
        ("SAM", "ws"),
        ("SOL", "sb"),
        ("TAH", "pf"),
        ("VAN", "vu")
    ];
    assert(t@.map_values(|p: (&'static str, &'static str)| (p.0@, p.1@)) =~= flag_table());
    t
}

/// Best-effort 3-letter (FIFA) → ISO-3166 alpha-2 flag lookup; `None` for
/// unknown codes.
pub fn flag_code_for_abbr(abbr: &str) -> (code: Option<&'static str>)
    ensures
        match code {
            Some(c) => flag_code_of(abbr@) == Some(c@),
            None => flag_code_of(abbr@) is None,
        },
{
    let upper = crate::text::ascii_uppercase(abbr);
    let table = flag_pairs();
    let ghost spec_table = flag_table();
    let mut i: usize = 0;
    while i < table.len()
        invariant
            i <= table@.len(),
            table@.map_values(|p: (&'static str, &'static str)| (p.0@, p.1@)) == spec_table,
            spec_table == flag_table(),
            spec_table.len() == table@.len(),
            upper@ == ascii_upper_all(abbr@),
            flag_lookup(spec_table, upper@, 0) == flag_lookup(spec_table, upper@, i as int),
        decreases table@.len() - i,
    {
        let (k, v) = table[i];
        assert(spec_table[i as int] == (k@, v@));
        let kv = chars_of(k);
        if crate::text::chars_eq(&kv, &upper) {
            assert(flag_lookup(spec_table, upper@, i as int) == Some(v@));
            assert(flag_code_of(abbr@) == Some(v@));
            return Some(v);
        }
        i = i + 1;
    }
    None
}

// ─── Kickoff times ───────────────────────────────────────────────────────────

/// The instant an RFC 3339 timestamp names, if it is one.
pub uninterp spec fn rfc3339_instant_of(s: Seq<char>) -> Option<i64>;

/// The instant a `YYYY-MM-DDTHH:MMZ` timestamp names, if it is one.
pub uninterp spec fn minute_instant_of(s: Seq<char>) -> Option<i64>;

/// Parses an RFC 3339 timestamp to seconds since the epoch.
///
/// Trusted: wraps `chrono::DateTime::parse_from_rfc3339` followed by
/// `timestamp`; claims only that the result is the named `rfc3339_instant_of`.
#[verifier::external_body]
fn parse_rfc3339(s: &str) -> (t: Option<i64>)
    ensures
        t == rfc3339_instant_of(s@),
{
    chrono::DateTime::parse_from_rfc3339(s).ok().map(|dt| dt.timestamp())
}

/// Parses a `YYYY-MM-DDTHH:MMZ` timestamp (UTC) to seconds since the epoch.
///
/// Trusted: wraps `chrono::NaiveDateTime::parse_from_str` with the format
/// `%Y-%m-%dT%H:%MZ`, read as UTC; claims only that the result is the named
/// `minute_instant_of`.
#[verifier::external_body]
fn parse_minute_utc(s: &str) -> (t: Option<i64>)
    ensures
        t == minute_instant_of(s@),
{
    chrono::NaiveDateTime::parse_from_str(s, "%Y-%m-%dT%H:%MZ").ok().map(|nd| nd.and_utc().timestamp())
}

/// A provider kickoff time: a full RFC 3339 timestamp, or one without
/// seconds; anything else (a bare date) is no kickoff.
pub fn parse_espn_datetime(s: &str) -> (t: Option<i64>)
    ensures
        t == match rfc3339_instant_of(s@) {
            Some(x) => Some(x),
            None => minute_instant_of(s@),
        },
{
    match parse_rfc3339(s) {
        Some(x) => Some(x),
        None => parse_minute_utc(s),
    }
}

// ─── Provider events ──────────────────────────────────────────────────────────

/// One competitor of a provider competition, as the feed gives it.
#[derive(Debug, Clone)]
pub struct EspnCompetitor {
    /// `home` or `away`.
    pub home_away: String,
    pub team_id: String,
    pub display_name: String,
    pub abbreviation: String,
    pub score: Option<String>,
}

/// One competition of a provider event, as the feed gives it.
#[derive(Debug, Clone)]
pub struct EspnCompetition {
    pub start_date: String,
    pub competitors: Vec<EspnCompetitor>,
    /// The headlines of the competition's notes.
    pub headlines: Vec<String>,
    /// The status state (`pre`, `in`, `post`), if given.
    pub state: Option<String>,
}

/// One provider event, as the feed gives it; `slug` is the season slug
/// (empty when the feed gives none).
#[derive(Debug, Clone)]
pub struct EspnEvent {
    pub id: String,
    pub slug: String,
    pub competitions: Vec<EspnCompetition>,
}

/// The first headline that is not empty; empty when there is none.
pub open spec fn first_headline(hs: Seq<String>) -> Seq<char>
    decreases hs.len(),
{
    if hs.len() == 0 {
        Seq::empty()
    } else if hs[0]@.len() > 0 {
        hs[0]@
    } else {
        first_headline(hs.drop_first())
    }
}

/// Index of the first competitor on that side.
pub open spec fn side_of(cs: Seq<EspnCompetitor>, side: Seq<char>) -> Option<int>
    decreases cs.len(),
{
    if cs.len() == 0 {
        None
    } else {
        match side_of(cs.drop_last(), side) {
            Some(i) => Some(i),
            None => if cs.last().home_away@ == side { Some(cs.len() - 1) } else { None },
        }
    }
}

/// A number the feed wrote, read as an `i32`.
pub open spec fn i32_of(s: Seq<char>) -> Option<i32> {
    match int_in(s, i32::MIN as int, i32::MAX as int) {
        Some(v) => Some(v as i32),
        None => None,
    }
}

/// The competitor on a side, if any.
pub open spec fn competitor(cs: Seq<EspnCompetitor>, side: Seq<char>) -> Option<EspnCompetitor> {
    match side_of(cs, side) {
        Some(k) => Some(cs[k]),
        None => None,
    }
}

/// The team id of a competitor, if it is a number.
pub open spec fn team_id_of(c: Option<EspnCompetitor>) -> Option<i32> {
    match c {
        Some(x) => i32_of(x.team_id@),
        None => None,
    }
}

/// The score of a competitor, if it is a number.
pub open spec fn score_of(c: Option<EspnCompetitor>) -> Option<i32> {
    match c {
        Some(x) => match x.score {
            Some(sc) => i32_of(sc@),
            None => None,
        },
        None => None,
    }
}

/// A team as mapped from a competitor with a numeric id: its name, its
/// abbreviation as short name (none when empty), and the flag of the
/// abbreviation.
pub open spec fn team_fits(t: Option<SportsTeam>, c: Option<EspnCompetitor>, id: Option<i32>) -> bool {
    match (c, id) {
        (Some(x), Some(n)) => t matches Some(team) && {
            &&& team.provider_team_id == n
            &&& team.display_name@ == x.display_name@
            &&& opt_view(team.short_name) == (if x.abbreviation@.len() == 0 { None } else { Some(x.abbreviation@) })
            &&& opt_view(team.flag_code) == flag_code_of(x.abbreviation@)
        },
        _ => t is None,
    }
}

/// The event a provider event is mapped to: none without a competition or
/// without a numeric id; otherwise from the first competition, with the
/// stage and group from the slug, the first non-empty headline and the
/// team → group table.
pub open spec fn event_fits(ev: EspnEvent, groups: Seq<(i32, String)>, r: Option<SportsEvent>) -> bool {
    if ev.competitions@.len() == 0 {
        r is None
    } else {
        match int_in(ev.id@, i64::MIN as int, i64::MAX as int) {
            None => r is None,
            Some(pid) => {
                let comp = ev.competitions@[0];
                let home = competitor(comp.competitors@, "home"@);
                let away = competitor(comp.competitors@, "away"@);
                let home_id = team_id_of(home);
                let away_id = team_id_of(away);
                r matches Some(e) && {
                    &&& e.provider_event_id == pid
                    &&& (e.stage, opt_view(e.group_letter)) == event_stage_of(ev.slug@, first_headline(comp.headlines@), groups, home_id, away_id)
                    &&& team_fits(e.home_team, home, home_id)
                    &&& team_fits(e.away_team, away, away_id)
                    &&& e.score_home == score_of(home)
                    &&& e.score_away == score_of(away)
                    &&& e.kickoff == match rfc3339_instant_of(comp.start_date@) {
                        Some(x) => Some(x),
                        None => minute_instant_of(comp.start_date@),
                    }
                    &&& e.status == status_of_state(opt_view(comp.state))
                }
            },
        }
    }
}

fn first_nonempty_headline(hs: &Vec<String>) -> (h: String)
    ensures
        h@ == first_headline(hs@),
{
    let mut i: usize = 0;
    assert(hs@.subrange(0, hs@.len() as int) =~= hs@);
    while i < hs.len()
        invariant
            i <= hs@.len(),
            first_headline(hs@) == first_headline(hs@.subrange(i as int, hs@.len() as int)),
        decreases hs@.len() - i,
    {
        let ghost rest = hs@.subrange(i as int, hs@.len() as int);
        assert(rest[0] == hs@[i as int]);
        if !hs[i].as_str().is_empty() {
            return hs[i].clone();
        }
        assert(rest.drop_first() =~= hs@.subrange(i as int + 1, hs@.len() as int));
        i = i + 1;
    }
    assert(hs@.subrange(i as int, hs@.len() as int) =~= Seq::<String>::empty());
    String::new()
}

fn find_side(cs: &Vec<EspnCompetitor>, side: &str) -> (r: Option<usize>)
    ensures
        match r {
            Some(i) => i < cs@.len() && side_of(cs@, side@) == Some(i as int),
            None => side_of(cs@, side@) is None,
        },
{
    let mut i: usize = 0;
    while i < cs.len()
        invariant
            i <= cs@.len(),
            side_of(cs@.take(i as int), side@) is None,
        decreases cs@.len() - i,
    {
        assert(cs@.take(i as int + 1).drop_last() =~= cs@.take(i as int));
        if str_eq(cs[i].home_away.as_str(), side) {
            proof { lemma_side_prefix(cs@, side@, i as int + 1); }
            return Some(i);
        }
        i = i + 1;
    }
    assert(cs@.take(i as int) =~= cs@);
    None
}

proof fn lemma_side_prefix(cs: Seq<EspnCompetitor>, side: Seq<char>, n: int)
    requires
        0 <= n <= cs.len(),
        side_of(cs.take(n), side) is Some,
    ensures
        side_of(cs, side) == side_of(cs.take(n), side),
    decreases cs.len() - n,
{
    if n < cs.len() {
        assert(cs.take(n + 1).drop_last() =~= cs.take(n));
        lemma_side_prefix(cs, side, n + 1);
    } else {
        assert(cs.take(n) =~= cs);
    }
}

fn team_from(c: &EspnCompetitor, id: i32) -> (t: SportsTeam)
    ensures
        team_fits(Some(t), Some(*c), Some(id)),
{
    let short_name = if c.abbreviation.as_str().is_empty() { None } else { Some(c.abbreviation.clone()) };
    let flag_code = match flag_code_for_abbr(c.abbreviation.as_str()) {
        Some(f) => Some(crate::text::owned(f)),
        None => None,
    };
    SportsTeam { provider_team_id: id, display_name: c.display_name.clone(), short_name, flag_code }
}

fn score_from(c: Option<&EspnCompetitor>) -> (sc: Option<i32>)
    ensures
        sc == score_of(match c { Some(x) => Some(*x), None => None }),
{
    match c {
        Some(x) => match &x.score {
            Some(text) => parse_i32(text.as_str()),
            None => None,
        },
        None => None,
    }
}

/// Maps a provider event to a fixture; `None` when it has no competition
/// or its id is not a number.
pub fn event_to_sports_event(event: &EspnEvent, groups: &Vec<(i32, String)>) -> (r: Option<SportsEvent>)
    ensures
        event_fits(*event, groups@, r),
{
    if event.competitions.len() == 0 {
        return None;
    }
    let comp = &event.competitions[0];
    let provider_event_id = match parse_i64(event.id.as_str()) {
        Some(v) => v,
        None => {
            return None;
        },
    };
    let headline = first_nonempty_headline(&comp.headlines);
    let home = match find_side(&comp.competitors, "home") {
        Some(i) => Some(&comp.competitors[i]),
        None => None,
    };
    let away = match find_side(&comp.competitors, "away") {
        Some(i) => Some(&comp.competitors[i]),
        None => None,
    };
    let home_id = match home {
        Some(c) => parse_i32(c.team_id.as_str()),
        None => None,
    };
    let away_id = match away {
        Some(c) => parse_i32(c.team_id.as_str()),
        None => None,
    };
    let (stage, group_letter) = event_stage(event.slug.as_str(), headline.as_str(), groups, home_id, away_id);
    let home_team = match (home, home_id) {
        (Some(c), Some(id)) => Some(team_from(c, id)),
        _ => None,
    };
    let away_team = match (away, away_id) {
        (Some(c), Some(id)) => Some(team_from(c, id)),
        _ => None,
    };
    let state = match &comp.state {
        Some(x) => Some(x.as_str()),
        None => None,
    };
    Some(SportsEvent {
        provider_event_id,
        stage,
        group_letter,
        home_team,
        away_team,
        score_home: score_from(home),
        score_away: score_from(away),
        kickoff: parse_espn_datetime(comp.start_date.as_str()),
        status: status_from_state(state),
    })
}

// ─── Group table from the standings ───────────────────────────────────────────

/// A group of the provider's standings: its name and, when the standings
/// are given, the team ids listed in it.
#[derive(Debug, Clone)]
pub struct StandingsGroup {
    pub name: String,
    pub team_ids: Option<Vec<String>>,
}

/// The letter of a group named `Group X`: `X` upper-cased when it is an
/// ASCII letter.
pub open spec fn standings_letter(name: Seq<char>) -> Option<Seq<char>> {
    if name.len() > 6 && name.subrange(0, 6) == "Group "@ && is_ascii_alpha(name[6]) {
        Some(seq![ascii_upper(name[6])])
    } else {
        None
    }
}

/// `(team id, letter)` for each numeric team id of the list.
pub open spec fn id_pairs(ids: Seq<String>, letter: Seq<char>) -> Seq<(i32, Seq<char>)>
    decreases ids.len(),
{
    if ids.len() == 0 {
        Seq::empty()
    } else {
        let r = id_pairs(ids.drop_last(), letter);
        match i32_of(ids.last()@) {
            Some(v) => r.push((v, letter)),
            None => r,
        }
    }
}

/// `(team id, letter)` for every team of every lettered group with
/// standings, in the order given.
pub open spec fn standings_pairs(gs: Seq<StandingsGroup>) -> Seq<(i32, Seq<char>)>
    decreases gs.len(),
{
    if gs.len() == 0 {
        Seq::empty()
    } else {
        let r = standings_pairs(gs.drop_last());
        let g = gs.last();
        match (standings_letter(g.name@), g.team_ids) {
            (Some(l), Some(ids)) => r + id_pairs(ids@, l),
            _ => r,
        }
    }
}

/// Values of a team → group table.
pub open spec fn table_views(t: Seq<(i32, String)>) -> Seq<(i32, Seq<char>)> {
    t.map_values(|p: (i32, String)| (p.0, p.1@))
}

fn letter_of_group(name: &str) -> (l: Option<String>)
    ensures
        match l {
            Some(x) => standings_letter(name@) == Some(x@),
            None => standings_letter(name@) is None,
        },
{
    proof { reveal_strlit("Group "); }
    if !starts_with(name, "Group ") {
        return None;
    }
    let c = chars_of(name);
    if c.len() <= 6 {
        return None;
    }
    let ch = c[6];
    if !is_ascii_alphabetic(ch) {
        return None;
    }
    let mut v: Vec<char> = Vec::new();
    v.push(to_ascii_uppercase(ch));
    assert(v@ =~= seq![ascii_upper(ch)]);
    Some(string_of(&v))
}

/// The team → group table of the standings, the team listed last first, so
/// that looking a team up finds the letter it was listed with last.
pub fn groups_from_standings(gs: &Vec<StandingsGroup>) -> (table: Vec<(i32, String)>)
    ensures
        table_views(table@) == standings_pairs(gs@).reverse(),
{
    let mut pairs: Vec<(i32, String)> = Vec::new();
    let mut i: usize = 0;
    while i < gs.len()
        invariant
            i <= gs@.len(),
            table_views(pairs@) == standings_pairs(gs@.take(i as int)),
        decreases gs@.len() - i,
    {
        assert(gs@.take(i as int + 1).drop_last() =~= gs@.take(i as int));
        let g = &gs[i];
        match (letter_of_group(g.name.as_str()), &g.team_ids) {
            (Some(letter), Some(ids)) => {
                let ghost base = table_views(pairs@);
                let mut k: usize = 0;
                while k < ids.len()
                    invariant
                        k <= ids@.len(),
                        table_views(pairs@) == base + id_pairs(ids@.take(k as int), letter@),
                    decreases ids@.len() - k,
                {
                    assert(ids@.take(k as int + 1).drop_last() =~= ids@.take(k as int));
                    match parse_i32(ids[k].as_str()) {
                        Some(v) => {
                            let ghost before = table_views(pairs@);
                            pairs.push((v, letter.clone()));
                            assert(table_views(pairs@) =~= before.push((v, letter@)));
                            assert(base + id_pairs(ids@.take(k as int + 1), letter@) =~= (base + id_pairs(ids@.take(k as int), letter@)).push((v, letter@)));
                        },
                        None => {},
                    }
                    k = k + 1;
                }
                assert(ids@.take(k as int) =~= ids@);
            },
            _ => {},
        }
        i = i + 1;
    }
    assert(gs@.take(i as int) =~= gs@);
    let ghost fwd = table_views(pairs@);
    let mut table: Vec<(i32, String)> = Vec::new();
    let mut j: usize = pairs.len();
    while j > 0
        invariant
            j <= pairs@.len(),
            fwd == table_views(pairs@),
            table_views(table@) == fwd.subrange(j as int, fwd.len() as int).reverse(),
        decreases j,
    {
        let ghost before = table_views(table@);
        table.push((pairs[j - 1].0, pairs[j - 1].1.clone()));
        assert(table_views(table@) =~= before.push(fwd[j - 1]));
        assert(fwd.subrange(j - 1, fwd.len() as int).reverse() =~= fwd.subrange(j as int, fwd.len() as int).reverse().push(fwd[j - 1]));
        j = j - 1;
    }
    assert(fwd.subrange(0, fwd.len() as int) =~= fwd);
    table
}

/// The letter a team was listed with last.
pub open spec fn last_letter(pairs: Seq<(i32, Seq<char>)>, t: i32) -> Option<Seq<char>>
    decreases pairs.len(),
{
    if pairs.len() == 0 {
        None
    } else if pairs.last().0 == t {
        Some(pairs.last().1)
    } else {
        last_letter(pairs.drop_last(), t)
    }
}

proof fn lemma_group_from_shift(s: Seq<(i32, String)>, t: i32, i: int)
    requires
        0 <= i,
        s.len() > 0,
    ensures
        group_from(s, t, i + 1) == group_from(s.drop_first(), t, i),
    decreases s.len() - i,
{
    if i + 1 < s.len() {
        assert(s[i + 1] == s.drop_first()[i]);
        if s[i + 1].0 != t {
            lemma_group_from_shift(s, t, i + 1);
        }
    }
}

/// Looking a team up in the table built from the standings finds the
/// letter it was listed with last (as when the standings are read into a
/// map entry by entry).
pub proof fn lemma_standings_lookup_last(table: Seq<(i32, String)>, pairs: Seq<(i32, Seq<char>)>, t: i32)
    requires
        table_views(table) == pairs.reverse(),
    ensures
        group_from(table, t, 0) == last_letter(pairs, t),
    decreases pairs.len(),
{
    assert(table_views(table).len() == table.len());
    assert(pairs.reverse().len() == pairs.len());
    if pairs.len() > 0 {
        assert(table.len() == pairs.len());
        assert(table_views(table)[0] == pairs.reverse()[0]);
        assert(table_views(table)[0] == pairs.last());
        assert(table[0].0 == pairs.last().0 && table[0].1@ == pairs.last().1);
        if table[0].0 != t {
            lemma_group_from_shift(table, t, 0);
            let rest = table.drop_first();
            assert(table_views(rest) =~= pairs.drop_last().reverse()) by {
                assert forall|k: int| 0 <= k < rest.len() implies table_views(rest)[k] == pairs.drop_last().reverse()[k] by {
                    assert(rest[k] == table[k + 1]);
                    assert(table_views(table)[k + 1] == pairs.reverse()[k + 1]);
                }
            }
            lemma_standings_lookup_last(rest, pairs.drop_last(), t);
        }
    }
}


/// The provider's states: `in` is a running match, only `post` is a finished
/// one, and anything else, or no state, is a scheduled one.
pub proof fn lemma_provider_states(state: Option<Seq<char>>)
    ensures
        status_of_state(Some("in"@)) == MatchStatus::Live,
        status_of_state(Some("post"@)) == MatchStatus::Finished,
        status_of_state(state) == MatchStatus::Finished ==> state == Some("post"@),
        status_of_state(state) == MatchStatus::Live ==> state == Some("in"@),
        state is None ==> status_of_state(state) == MatchStatus::Scheduled,
{
    reveal_strlit("in");
    reveal_strlit("post");
    assert("in"@ != "post"@) by {
        assert("in"@.len() != "post"@.len());
    }
}


/// A mapped provider event is finished only when its competition's state is
/// `post`, and a competition in progress (`in`) is mapped as running.
pub proof fn lemma_event_status(ev: EspnEvent, groups: Seq<(i32, String)>, r: Option<SportsEvent>)
    requires
        event_fits(ev, groups, r),
        r is Some,
    ensures
        r->0.status == MatchStatus::Finished ==> opt_view(ev.competitions@[0].state) == Some("post"@),
        opt_view(ev.competitions@[0].state) == Some("in"@) ==> r->0.status == MatchStatus::Live,
{
    lemma_provider_states(opt_view(ev.competitions@[0].state));
}

/// A headline naming the third-place match, a semi-final or a quarter-final
/// is never read as the final; a group letter is only read for the group
/// stage.
pub proof fn lemma_headline_rounds(headline: Seq<char>)
    ensures
        (has_substring(lowercase_of(headline), "third"@) || has_substring(lowercase_of(headline), "3rd place"@))
            ==> headline_stage(headline).0 == Stage::ThirdPlace,
        (has_substring(lowercase_of(headline), "semifinal"@) || has_substring(lowercase_of(headline), "semi-final"@))
            ==> headline_stage(headline).0 != Stage::Final && headline_stage(headline).0 != Stage::QuarterFinal,
        (has_substring(lowercase_of(headline), "quarterfinal"@) || has_substring(lowercase_of(headline), "quarter-final"@))
            ==> headline_stage(headline).0 != Stage::Final,
        headline_stage(headline).1 is Some ==> headline_stage(headline).0 == Stage::Group,
{
}

/// The season slugs: `group-stage` is the only slug of the group stage and
/// `final` the only slug of the final.
pub proof fn lemma_slug_rounds(slug: Seq<char>)
    ensures
        slug_stage(slug) == Some(Stage::Group) <==> slug == "group-stage"@,
        slug_stage(slug) == Some(Stage::Final) <==> slug == "final"@,
        slug_stage("round-of-32"@) == Some(Stage::RoundOf32),
        slug_stage("round-of-16"@) == Some(Stage::RoundOf16),
        slug_stage("quarterfinals"@) == Some(Stage::QuarterFinal),
        slug_stage("semifinals"@) == Some(Stage::SemiFinal),
{
    reveal_strlit("group-stage");
    reveal_strlit("round-of-32");
    reveal_strlit("round-of-16");
    reveal_strlit("quarterfinals");
    reveal_strlit("semifinals");
    reveal_strlit("3rd-place-match");
    reveal_strlit("third-place-match");
    reveal_strlit("final");
    assert("group-stage"@ != "final"@) by { assert("group-stage"@.len() != "final"@.len()); }
    assert("round-of-32"@ != "group-stage"@) by { assert("round-of-32"@[0] != "group-stage"@[0]); }
    assert("round-of-16"@ != "group-stage"@) by { assert("round-of-16"@[0] != "group-stage"@[0]); }
    assert("round-of-16"@ != "round-of-32"@) by { assert("round-of-16"@[9] != "round-of-32"@[9]); }
    assert("quarterfinals"@ != "group-stage"@) by { assert("quarterfinals"@.len() != "group-stage"@.len()); }
    assert("quarterfinals"@ != "round-of-32"@) by { assert("quarterfinals"@.len() != "round-of-32"@.len()); }
    assert("quarterfinals"@ != "round-of-16"@) by { assert("quarterfinals"@.len() != "round-of-16"@.len()); }
    assert("semifinals"@ != "group-stage"@) by { assert("semifinals"@.len() != "group-stage"@.len()); }
    assert("semifinals"@ != "round-of-32"@) by { assert("semifinals"@.len() != "round-of-32"@.len()); }
    assert("semifinals"@ != "round-of-16"@) by { assert("semifinals"@.len() != "round-of-16"@.len()); }
    assert("semifinals"@ != "quarterfinals"@) by { assert("semifinals"@.len() != "quarterfinals"@.len()); }
    assert("final"@ != "round-of-32"@) by { assert("final"@.len() != "round-of-32"@.len()); }
    assert("final"@ != "round-of-16"@) by { assert("final"@.len() != "round-of-16"@.len()); }
    assert("final"@ != "quarterfinals"@) by { assert("final"@.len() != "quarterfinals"@.len()); }
    assert("final"@ != "semifinals"@) by { assert("final"@.len() != "semifinals"@.len()); }
    assert("final"@ != "3rd-place-match"@) by { assert("final"@.len() != "3rd-place-match"@.len()); }
    assert("final"@ != "third-place-match"@) by { assert("final"@.len() != "third-place-match"@.len()); }
}

} // verus!
