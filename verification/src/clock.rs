//! Instants, calendar days and time zones.
//!
//! An instant is a count of seconds since the Unix epoch (UTC); a calendar day
//! is the number of days from the Common Era (`0001-01-01` is day `1`). The
//! conversions between them, which depend on the tz database, are made by
//! `chrono` and `chrono-tz`.

use vstd::prelude::*;

verus! {

/// Earliest instant handled: `-262143-01-02T00:00:00Z`, one day after the
/// first instant of the calendar range, so that the local date exists in every
/// zone.
pub const INSTANT_MIN: i64 = -8_334_601_142_400;

/// Latest instant handled: `262142-12-30T23:59:59Z`, one day before the end of
/// the calendar range.
pub const INSTANT_MAX: i64 = 8_210_266_790_399;

/// First calendar day of the calendar range (`-262143-01-01`, the first date
/// `chrono` represents).
pub const DAY_MIN: i32 = -95_746_129;

/// Last calendar day of the calendar range (`262142-12-31`).
pub const DAY_MAX: i32 = 95_745_399;

/// Instants whose local date exists in every zone.
pub open spec fn valid_instant(ts: i64) -> bool {
    INSTANT_MIN <= ts <= INSTANT_MAX
}

/// Days of the calendar range.
pub open spec fn valid_day(day: i32) -> bool {
    DAY_MIN <= day <= DAY_MAX
}

/// Whether the tz database knows a zone of that name.
pub uninterp spec fn zone_known(name: Seq<char>) -> bool;

/// Local calendar day of an instant in a named zone.
pub uninterp spec fn zone_day_of(ts: i64, name: Seq<char>) -> i32;

/// ISO-8601 rendering (`YYYY-MM-DD`) of a calendar day.
pub uninterp spec fn iso_date_of(day: i32) -> Seq<char>;

/// The current instant, in seconds since the Unix epoch.
///
/// Trusted: wraps `chrono::Utc::now` and `timestamp`; the result is the
/// machine's clock, so nothing is claimed of it.
#[verifier::external_body]
pub(crate) fn now_timestamp() -> (ts: i64) {
    chrono::Utc::now().timestamp()
}

/// Whether `name` names a zone of the tz database.
///
/// Trusted: wraps `<chrono_tz::Tz as FromStr>::from_str`; claims only that the
/// answer is the named fact `zone_known`.
#[verifier::external_body]
fn is_known_zone(name: &str) -> (known: bool)
    ensures
        known == zone_known(name@),
{
    name.parse::<chrono_tz::Tz>().is_ok()
}

/// The name of the `Europe/Berlin` zone, which the tz database knows.
///
/// Trusted: wraps `chrono_tz::Tz::name` of `chrono_tz::Europe::Berlin`; claims
/// the name is `Europe/Berlin` and parses back to a known zone (the crate's
/// `FromStr` accepts every name that `Tz::name` returns).
#[verifier::external_body]
fn berlin_zone_name() -> (name: String)
    ensures
        zone_known(name@),
        name@ == "Europe/Berlin"@,
{
    chrono_tz::Europe::Berlin.name().to_string()
}

/// The name of the `America/New_York` zone, which the tz database knows.
///
/// Trusted: wraps `chrono_tz::Tz::name` of `chrono_tz::America::New_York`;
/// claims the name is `America/New_York` and parses back to a known zone.
#[verifier::external_body]
fn new_york_zone_name() -> (name: String)
    ensures
        zone_known(name@),
        name@ == "America/New_York"@,
{
    chrono_tz::America::New_York.name().to_string()
}

/// Local calendar day of an instant in a known zone.
///
/// Trusted: wraps `DateTime::from_timestamp` followed by
/// `with_timezone(..).date_naive().num_days_from_ce()`; claims the result is the
/// named day `zone_day_of` and lies in the calendar range. The instant range
/// keeps `from_timestamp` from failing and the zone is known, so neither
/// `unwrap` can panic.
#[verifier::external_body]
fn zone_day(ts: i64, name: &str) -> (day: i32)
    requires
        zone_known(name@),
        valid_instant(ts),
    ensures
        day == zone_day_of(ts, name@),
        valid_day(day),
{
    let tz: chrono_tz::Tz = name.parse().unwrap();
    let local = chrono::DateTime::from_timestamp(ts, 0).unwrap().with_timezone(&tz);
    chrono::Datelike::num_days_from_ce(&local.date_naive())
}

/// ISO-8601 rendering of a calendar day.
///
/// Trusted: wraps `NaiveDate::from_num_days_from_ce_opt` and the `Display` of
/// `NaiveDate`; claims the text is the named `iso_date_of`. The day range keeps
/// `from_num_days_from_ce_opt` from failing.
#[verifier::external_body]
pub(crate) fn iso_date(day: i32) -> (text: String)
    requires
        valid_day(day),
    ensures
        text@ == iso_date_of(day),
{
    chrono::NaiveDate::from_num_days_from_ce_opt(day).unwrap().to_string()
}

/// UTC calendar day of an instant: whole days since the epoch, rounded down,
/// counted from the Common Era (the epoch's day is `719163`).
pub open spec fn utc_day_of(ts: i64) -> int {
    ts as int / 86400 + 719_163
}

/// UTC calendar day of an instant.
pub fn utc_day(ts: i64) -> (day: i32)
    requires
        valid_instant(ts),
    ensures
        day == utc_day_of(ts),
        valid_day(day),
{
    let shifted: u64 = (ts - INSTANT_MIN) as u64;
    let days: u64 = shifted / 86400;
    proof {
        let t = ts as int;
        assert(shifted as int == t + 96_465_291 * 86400);
        assert((t + 96_465_291 * 86400) / 86400 == t / 86400 + 96_465_291) by (nonlinear_arith);
        assert(days <= 191_491_528) by (nonlinear_arith)
            requires
                days == shifted / 86400,
                shifted <= 8_210_266_790_399 + 8_334_601_142_400,
        ;
    }
    (days as i64 - 96_465_291 + 719_163) as i32
}

/// Berlin wall-clock rendering (`DD.MM.YYYY HH:MM`) of an instant.
pub uninterp spec fn berlin_display_of(ts: i64) -> Seq<char>;

/// Berlin wall-clock rendering of an instant.
///
/// Trusted: wraps `DateTime::from_timestamp`, `with_timezone` to
/// `chrono_tz::Europe::Berlin` and `format("%d.%m.%Y %H:%M")`; claims the text
/// is the named `berlin_display_of`. The instant range keeps `from_timestamp`
/// from failing.
#[verifier::external_body]
fn berlin_display(ts: i64) -> (text: String)
    requires
        valid_instant(ts),
    ensures
        text@ == berlin_display_of(ts),
{
    chrono::DateTime::from_timestamp(ts, 0).unwrap().with_timezone(&chrono_tz::Europe::Berlin).format("%d.%m.%Y %H:%M").to_string()
}

/// How a kickoff is shown: Berlin local time, or `TBD` while unknown.
pub fn format_kickoff(dt: Option<i64>) -> (text: String)
    requires
        dt matches Some(t) ==> valid_instant(t),
    ensures
        text@ == match dt {
            Some(t) => berlin_display_of(t),
            None => "TBD"@,
        },
{
    match dt {
        Some(t) => berlin_display(t),
        None => crate::text::owned("TBD"),
    }
}

/// A time zone of the tz database, held by its name.
pub struct Zone {
    name: String,
}

impl Zone {
    /// The zone's name.
    pub closed spec fn name(&self) -> Seq<char> {
        self.name@
    }

    /// Every `Zone` names a known zone.
    pub closed spec fn wf(&self) -> bool {
        zone_known(self.name@)
    }

    /// The zone of that name, if the tz database knows it.
    pub fn parse(name: &str) -> (zone: Option<Zone>)
        ensures
            zone is Some <==> zone_known(name@),
            zone matches Some(z) ==> z.wf() && z.name() == name@,
    {
        if is_known_zone(name) {
            Some(Zone { name: crate::text::owned(name) })
        } else {
            None
        }
    }

    /// The `Europe/Berlin` zone, in which matchdays of the badges are counted.
    pub fn berlin() -> (zone: Zone)
        ensures
            zone.wf(),
            zone.name() == "Europe/Berlin"@,
    {
        Zone { name: berlin_zone_name() }
    }

    /// The `America/New_York` zone, in which recap matchdays are counted
    /// unless configured otherwise.
    pub fn new_york() -> (zone: Zone)
        ensures
            zone.wf(),
            zone.name() == "America/New_York"@,
    {
        Zone { name: new_york_zone_name() }
    }

    /// Local calendar day of an instant in this zone.
    pub fn day_of(&self, ts: i64) -> (day: i32)
        requires
            self.wf(),
            valid_instant(ts),
        ensures
            day == zone_day_of(ts, self.name()),
            valid_day(day),
    {
        zone_day(ts, self.name.as_str())
    }
}

/// Berlin calendar day of an instant.
pub fn berlin_day(ts: i64) -> (day: i32)
    requires
        valid_instant(ts),
    ensures
        day == zone_day_of(ts, "Europe/Berlin"@),
        valid_day(day),
{
    let zone = Zone::berlin();
    zone.day_of(ts)
}

} // verus!
