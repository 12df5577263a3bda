//! Time zones and the calendar.
//!
//! Converting between UTC and a zone's wall clock needs the tz database, and
//! naming the calendar date of a day needs the Gregorian calendar; both are
//! left to chrono and chrono-tz. A wall-clock date and time ("local time") is
//! represented like an instant, as nanoseconds since 1970-01-01T00:00:00 on
//! that wall clock; a local date as whole days since 1970-01-01.
use vstd::prelude::*;

use chrono::{DateTime, Datelike, NaiveDate, Offset, TimeZone};
use chrono_tz::Tz;

use crate::time::{in_utc_range, floor_div, floor_mod, Timestamp, NANOS_PER_DAY, NANOS_PER_SECOND};

verus! {

/// chrono's number of the day 1970-01-01 (chrono numbers 0001-01-01 as 1).
pub const UNIX_EPOCH_CE_DAY: i64 = 719_163;

/// The first representable date, -262143-01-01, in days since 1970-01-01.
pub const MIN_DAY: i64 = -96_465_292;

/// The last representable date, 262142-12-31, in days since 1970-01-01.
pub const MAX_DAY: i64 = 95_026_236;

/// Whether `day` (days since 1970-01-01) is a representable date.
pub open spec fn in_day_range(day: int) -> bool {
    MIN_DAY <= day <= MAX_DAY
}

/// How a wall-clock time maps to UTC in a zone: to one instant, to two
/// instants (a fold, listed in the order chrono reports them), or to none (a
/// gap). Instants are given as Unix seconds and nanoseconds.
#[derive(Debug, Clone, Copy, PartialEq, Eq, Structural)]
pub enum LocalMapping {
    Single(i64, u32),
    Ambiguous(i64, u32, i64, u32),
    Nonexistent,
}

/// Whether chrono-tz knows a zone of this name.
pub uninterp spec fn zone_is_known(name: Seq<char>) -> bool;

/// The wall clock in zone `zone` at the UTC instant `secs` + `nanos`, as
/// seconds and nanoseconds, if representable.
pub uninterp spec fn zone_wall_clock(zone: Seq<char>, secs: int, nanos: int) -> Option<(int, int)>;

/// How the wall-clock time `secs` + `nanos` maps to UTC in zone `zone`.
pub uninterp spec fn zone_local_mapping(zone: Seq<char>, secs: int, nanos: int) -> LocalMapping;

/// The `(year, month, day)` of chrono's day number `ce_day`.
pub uninterp spec fn civil_from_ce_day(ce_day: int) -> (int, int, int);

/// Whether `year` is a leap year of the proleptic Gregorian calendar.
pub open spec fn is_leap_year(year: int) -> bool {
    year % 4 == 0 && (year % 100 != 0 || year % 400 == 0)
}

/// The number of days in month `month` (1 to 12) of `year`.
pub open spec fn days_in_month(year: int, month: int) -> int {
    if month == 2 {
        if is_leap_year(year) {
            29
        } else {
            28
        }
    } else if month == 4 || month == 6 || month == 9 || month == 11 {
        30
    } else {
        31
    }
}

/// Whether `year-month-day` is a date of the proleptic Gregorian calendar
/// within chrono's years (-262143 to 262142).
pub open spec fn civil_date_exists(year: int, month: int, day: int) -> bool {
    &&& -262_143 <= year <= 262_142
    &&& 1 <= month <= 12
    &&& 1 <= day <= days_in_month(year, month)
}

/// Month lengths of the calendar: February has 29 days exactly in leap
/// years and never 30; April, June, September and November have no 31st;
/// the other months have one.
pub proof fn lemma_month_lengths(year: int)
    requires
        -262_143 <= year <= 262_142,
    ensures
        civil_date_exists(year, 2, 29) <==> is_leap_year(year),
        !civil_date_exists(year, 2, 30),
        forall|m: int| 1 <= m <= 12 ==> (civil_date_exists(year, m, 31) <==> !(m == 2 || m == 4 || m == 6 || m == 9 || m == 11)),
        forall|m: int| 1 <= m <= 12 ==> #[trigger] civil_date_exists(year, m, 28),
{
}

/// Calls `str::parse::<chrono_tz::Tz>`: whether the name is a zone name.
#[verifier::external_body]
fn zone_name_is_known(name: &str) -> (r: bool)
    ensures
        r == zone_is_known(name@),
{
    name.parse::<Tz>().is_ok()
}

/// Calls `DateTime::with_timezone` on the instant and adds the resulting
/// offset to it with `NaiveDateTime::checked_add_offset`: the zone's wall
/// clock at the instant, `None` where that is out of range. chrono keeps the
/// sub-second part and every `NaiveDateTime` in range, and the wall clock is
/// less than a day from the instant, since a `FixedOffset` lies strictly
/// within a day.
#[verifier::external_body]
fn zone_wall_clock_at(zone: &str, secs: i64, nanos: u32) -> (r: Option<(i64, u32)>)
    requires
        zone_is_known(zone@),
        nanos < NANOS_PER_SECOND,
        in_utc_range(secs * NANOS_PER_SECOND + nanos),
    ensures
        r is None <==> zone_wall_clock(zone@, secs as int, nanos as int) is None,
        r matches Some((s, n)) ==> {
            &&& zone_wall_clock(zone@, secs as int, nanos as int) == Some((s as int, n as int))
            &&& n < NANOS_PER_SECOND
            &&& in_utc_range(s * NANOS_PER_SECOND + n)
            &&& within_a_day(s * NANOS_PER_SECOND + n, secs * NANOS_PER_SECOND + nanos)
        },
{
    let tz: Tz = zone.parse().unwrap();
    let local = DateTime::from_timestamp(secs, nanos).unwrap().with_timezone(&tz);
    match local.naive_utc().checked_add_offset(local.offset().fix()) {
        Some(wall) => Some((wall.and_utc().timestamp(), wall.and_utc().timestamp_subsec_nanos())),
        None => None,
    }
}

/// Calls `TimeZone::from_local_datetime` of `chrono_tz::Tz` on the wall-clock
/// time: the instants it maps to. Every instant chrono returns is in range
/// and keeps the sub-second part of the wall-clock time; the two instants of
/// a fold come in the documented order `(earliest, latest)`. Each instant is
/// less than a day from the wall-clock time, since a `FixedOffset` lies
/// strictly within a day.
#[verifier::external_body]
fn zone_local_mapping_at(zone: &str, secs: i64, nanos: u32) -> (r: LocalMapping)
    requires
        zone_is_known(zone@),
        nanos < NANOS_PER_SECOND,
        in_utc_range(secs * NANOS_PER_SECOND + nanos),
    ensures
        r == zone_local_mapping(zone@, secs as int, nanos as int),
        r matches LocalMapping::Single(s, n) ==> n < NANOS_PER_SECOND && in_utc_range(
            s * NANOS_PER_SECOND + n,
        ) && within_a_day(s * NANOS_PER_SECOND + n, secs * NANOS_PER_SECOND + nanos),
        r matches LocalMapping::Ambiguous(s, n, s2, n2) ==> n < NANOS_PER_SECOND && in_utc_range(
            s * NANOS_PER_SECOND + n,
        ) && n2 < NANOS_PER_SECOND && in_utc_range(s2 * NANOS_PER_SECOND + n2) && s
            * NANOS_PER_SECOND + n < s2 * NANOS_PER_SECOND + n2 && within_a_day(
            s * NANOS_PER_SECOND + n,
            secs * NANOS_PER_SECOND + nanos,
        ) && within_a_day(s2 * NANOS_PER_SECOND + n2, secs * NANOS_PER_SECOND + nanos),
{
    let tz: Tz = zone.parse().unwrap();
    let wall = DateTime::from_timestamp(secs, nanos).unwrap().naive_utc();
    match tz.from_local_datetime(&wall) {
        chrono::LocalResult::Single(t) => LocalMapping::Single(t.timestamp(), t.timestamp_subsec_nanos()),
        chrono::LocalResult::Ambiguous(a, b) => LocalMapping::Ambiguous(
            a.timestamp(),
            a.timestamp_subsec_nanos(),
            b.timestamp(),
            b.timestamp_subsec_nanos(),
        ),
        chrono::LocalResult::None => LocalMapping::Nonexistent,
    }
}

/// Calls `NaiveDate::from_num_days_from_ce_opt` and reads the date's
/// `year`, `month` (documented to range over 1 to 12) and `day` (1 to 31):
/// a date that exists, since every `NaiveDate` does.
#[verifier::external_body]
fn civil_from_ce(ce_day: i32) -> (r: (i32, u32, u32))
    requires
        MIN_DAY + UNIX_EPOCH_CE_DAY <= ce_day <= MAX_DAY + UNIX_EPOCH_CE_DAY,
    ensures
        (r.0 as int, r.1 as int, r.2 as int) == civil_from_ce_day(ce_day as int),
        1 <= r.1 <= 12,
        1 <= r.2 <= 31,
        civil_date_exists(r.0 as int, r.1 as int, r.2 as int),
{
    let date = NaiveDate::from_num_days_from_ce_opt(ce_day).unwrap();
    (date.year(), date.month(), date.day())
}

/// Calls `NaiveDate::from_ymd_opt`: whether the date exists. chrono
/// documents `None` for an invalid month or day and for a year out of its
/// range, and follows the proleptic Gregorian leap-year rule.
#[verifier::external_body]
fn ymd_exists(year: i32, month: u32, day: u32) -> (r: bool)
    ensures
        r == civil_date_exists(year as int, month as int, day as int),
{
    NaiveDate::from_ymd_opt(year, month, day).is_some()
}

/// Whether `year-month-day` is a date of the Gregorian calendar.
pub fn date_exists(year: i32, month: u32, day: u32) -> (r: bool)
    ensures
        r == civil_date_exists(year as int, month as int, day as int),
{
    ymd_exists(year, month, day)
}

/// The `(year, month, day)` of `day`, in days since 1970-01-01.
pub open spec fn civil_of_day(day: int) -> (int, int, int) {
    civil_from_ce_day(day + UNIX_EPOCH_CE_DAY)
}

/// The `(year, month, day)` of `day`, in days since 1970-01-01.
pub fn civil_of(day: i64) -> (r: (i32, u32, u32))
    requires
        in_day_range(day as int),
    ensures
        (r.0 as int, r.1 as int, r.2 as int) == civil_of_day(day as int),
        1 <= r.1 <= 12,
        1 <= r.2 <= 31,
{
    civil_from_ce((day + UNIX_EPOCH_CE_DAY) as i32)
}

/// `a` and `b` lie strictly less than a day apart. chrono's offsets lie
/// strictly within a day (`FixedOffset`), so a wall-clock time and the
/// instant it denotes always do.
pub open spec fn within_a_day(a: int, b: int) -> bool {
    b - NANOS_PER_DAY < a < b + NANOS_PER_DAY
}

/// The wall-clock time, in nanoseconds, of the instant `t` in zone `zone`;
/// representable and less than a day from `t`, as the item that reads it
/// states.
pub open spec fn wall_nanos_of(zone: Seq<char>, t: int) -> Option<int> {
    match zone_wall_clock(zone, t / (NANOS_PER_SECOND as int), t % (NANOS_PER_SECOND as int)) {
        Some((s, n)) => if within_a_day(s * NANOS_PER_SECOND + n, t) && in_utc_range(
            s * NANOS_PER_SECOND + n,
        ) {
            Some(s * NANOS_PER_SECOND + n)
        } else {
            None
        },
        None => None,
    }
}

/// The instant a representable wall-clock time `wall` denotes in zone
/// `zone`: the only one, or the first of two in a fold, or none in a gap;
/// less than a day from `wall`, as the item that reads it states.
pub open spec fn localized(zone: Seq<char>, wall: int) -> Option<int> {
    if !in_utc_range(wall) {
        None
    } else {
        match zone_local_mapping(
            zone,
            wall / (NANOS_PER_SECOND as int),
            wall % (NANOS_PER_SECOND as int),
        ) {
            LocalMapping::Single(s, n) => if within_a_day(s * NANOS_PER_SECOND + n, wall) {
                Some(s * NANOS_PER_SECOND + n)
            } else {
                None
            },
            LocalMapping::Ambiguous(s, n, _, _) => if within_a_day(s * NANOS_PER_SECOND + n, wall) {
                Some(s * NANOS_PER_SECOND + n)
            } else {
                None
            },
            LocalMapping::Nonexistent => None,
        }
    }
}

/// A time zone of the tz database, known by its name.
#[derive(Debug, PartialEq, Eq)]
pub struct Zone {
    name: String,
}

impl View for Zone {
    type V = Seq<char>;

    closed spec fn view(&self) -> Seq<char> {
        self.name@
    }
}

impl Clone for Zone {
    fn clone(&self) -> (r: Self)
        ensures
            r@ == self@,
    {
        proof {
            use_type_invariant(self);
        }
        Zone { name: self.name.clone() }
    }
}

impl Zone {
    #[verifier::type_invariant]
    closed spec fn wf(self) -> bool {
        zone_is_known(self.name@)
    }

    /// The zone of this name (such as `"America/New_York"`), if there is one.
    pub fn from_name(name: &str) -> (r: Option<Zone>)
        ensures
            r is Some <==> zone_is_known(name@),
            r matches Some(z) ==> z@ == name@,
    {
        if zone_name_is_known(name) {
            Some(Zone { name: name.to_owned() })
        } else {
            None
        }
    }

    /// The zone's name.
    pub fn name(&self) -> (r: &str)
        ensures
            r@ == self@,
    {
        self.name.as_str()
    }

    /// The wall-clock time, in nanoseconds, of the instant `t` in this zone;
    /// `None` where that is out of range.
    pub fn wall_clock(&self, t: Timestamp) -> (r: Option<i128>)
        ensures
            r is None <==> wall_nanos_of(self@, t@) is None,
            r matches Some(w) ==> wall_nanos_of(self@, t@) == Some(w as int) && in_utc_range(w as int),
    {
        proof {
            use_type_invariant(self);
            use_type_invariant(&t);
            t.lemma_in_range();
        }
        let n = t.unix_nanos();
        let secs = floor_div(n, NANOS_PER_SECOND);
        let nanos = floor_mod(n, NANOS_PER_SECOND);
        proof {
            vstd::arithmetic::div_mod::lemma_fundamental_div_mod(n as int, NANOS_PER_SECOND as int);
        }
        match zone_wall_clock_at(self.name.as_str(), secs as i64, nanos as u32) {
            Some((s, ns)) => Some(s as i128 * NANOS_PER_SECOND + ns as i128),
            None => None,
        }
    }

    /// The instant the wall-clock time `wall` denotes in this zone: the only
    /// one, or the earlier of two in a fold, or `None` in a gap.
    pub fn localize(&self, wall: i128) -> (r: Option<Timestamp>)
        requires
            in_utc_range(wall as int),
        ensures
            match localized(self@, wall as int) {
                Some(t) => r matches Some(x) && x@ == t,
                None => r is None,
            },
            zone_local_mapping(
                self@,
                (wall as int) / (NANOS_PER_SECOND as int),
                (wall as int) % (NANOS_PER_SECOND as int),
            ) matches LocalMapping::Ambiguous(s, n, s2, n2) ==> r matches Some(x) && x@ == s
                * NANOS_PER_SECOND + n && x@ < s2 * NANOS_PER_SECOND + n2,
    {
        proof {
            use_type_invariant(self);
        }
        let secs = floor_div(wall, NANOS_PER_SECOND);
        let nanos = floor_mod(wall, NANOS_PER_SECOND);
        proof {
            vstd::arithmetic::div_mod::lemma_fundamental_div_mod(wall as int, NANOS_PER_SECOND as int);
        }
        match zone_local_mapping_at(self.name.as_str(), secs as i64, nanos as u32) {
            LocalMapping::Single(s, n) => Timestamp::from_unix(s, n),
            LocalMapping::Ambiguous(s, n, _, _) => Timestamp::from_unix(s, n),
            LocalMapping::Nonexistent => None,
        }
    }
}

} // verus!
