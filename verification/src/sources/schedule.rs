//! A source of time-zone-aware recurring schedules.
//!
//! A schedule's rule is evaluated on the wall clock of its zone; each local
//! occurrence is then converted to UTC. An unambiguous local time maps to its
//! instant, an ambiguous one (a fold) to the first of the two instants, and a
//! local time that does not exist (a gap) yields no occurrence.
use vstd::prelude::*;

use crate::sources::grid::{
    first_on_grid_after, is_next_on_grid, lemma_compose, lemma_decompose, lemma_next_on_grid_exists, lemma_next_on_grid_unique,
    lemma_unique_in_block, next_on_grid, on_grid,
};
use crate::sort::{is_stable_sort_of, key_views, seq_lt, stable_sort, stably_sorted_by, takes};
use crate::source::WindowSource;
use crate::sources::interval::{lemma_pair_key_order, lex_lt2, lex_lt4, lists};
use crate::time::{
    trunc_div, MAX_UTC_NANOS, MIN_UTC_NANOS, fits_i64, floor_div, floor_mod, in_utc_range, nanos_of_day, valid_time_of_day, weekday_index_of_day, Duration,
    TimeOfDay, Timestamp, Weekday, NANOS_PER_DAY, NANOS_PER_HOUR, NANOS_PER_MINUTE,
    NANOS_PER_SECOND,
};
use crate::window::Window;
use crate::zone::{
    civil_date_exists, civil_of, civil_of_day, date_exists, in_day_range, localized,
    wall_nanos_of, zone_local_mapping, LocalMapping, Zone, MAX_DAY, MIN_DAY,
};

verus! {

/// A recurrence rule evaluated on a schedule's local wall clock.
///
/// - `Minutely { every }`: local times whose minute is a multiple of
///   `every`, with seconds and sub-seconds taken from `at`.
/// - `Hourly { every }`: local times whose hour is a multiple of `every`,
///   with minutes, seconds and sub-seconds taken from `at`.
/// - `Daily { every }`: every `every` days counted from 1970-01-01.
/// - `Weekly { every, weekdays }`: the listed weekdays of every `every`
///   weeks counted from the Monday of the week of 1970-01-01.
/// - `Monthly { every, day }`: day `day` of every `every` months counted
///   from January 1970; months without that day are skipped.
/// - `Yearly { every, month, day }`: `month`/`day` of every `every` years
///   counted from 1970.
#[derive(Debug, PartialEq, Eq)]
pub enum ScheduleRule {
    Minutely { every: u32 },
    Hourly { every: u32 },
    Daily { every: u32 },
    Weekly { every: u32, weekdays: Vec<Weekday> },
    Monthly { every: u32, day: u32 },
    Yearly { every: u32, month: u32, day: u32 },
}

/// A single recurring schedule entry in one time zone.
#[derive(Debug, PartialEq, Eq)]
pub struct Schedule<M> {
    /// Time zone in which the schedule is interpreted.
    pub timezone: Zone,
    /// Recurrence rule.
    pub rule: ScheduleRule,
    /// Local wall-clock time at which each occurrence starts.
    pub at: TimeOfDay,
    /// Duration of each produced window.
    pub duration: Duration,
    /// Metadata cloned into each produced window.
    pub meta: M,
}

impl Clone for ScheduleRule {
    fn clone(&self) -> (r: Self)
        ensures
            rule_every(r) == rule_every(*self),
            rule_key(r) == rule_key(*self),
            rule_error(r) == rule_error(*self),
            !(r is Weekly) ==> r == *self,
            (r is Weekly) ==> (*self is Weekly),
    {
        match self {
            ScheduleRule::Minutely { every } => ScheduleRule::Minutely { every: *every },
            ScheduleRule::Hourly { every } => ScheduleRule::Hourly { every: *every },
            ScheduleRule::Daily { every } => ScheduleRule::Daily { every: *every },
            ScheduleRule::Weekly { every, weekdays } => ScheduleRule::Weekly {
                every: *every,
                weekdays: weekdays.clone(),
            },
            ScheduleRule::Monthly { every, day } => ScheduleRule::Monthly { every: *every, day: *day },
            ScheduleRule::Yearly { every, month, day } => ScheduleRule::Yearly {
                every: *every,
                month: *month,
                day: *day,
            },
        }
    }
}

impl<M: Clone> Clone for Schedule<M> {
    fn clone(&self) -> (r: Self)
        ensures
            r.timezone@ == self.timezone@,
            rule_error(r.rule) == rule_error(self.rule),
            rule_every(r.rule) == rule_every(self.rule),
            rule_key(r.rule) == rule_key(self.rule),
            r.at == self.at,
            r.duration == self.duration,
            cloned(self.meta, r.meta),
    {
        Schedule {
            timezone: self.timezone.clone(),
            rule: self.rule.clone(),
            at: self.at,
            duration: self.duration,
            meta: self.meta.clone(),
        }
    }
}

impl<M> Schedule<M> {
    /// Creates a new schedule entry.
    pub fn new(timezone: Zone, rule: ScheduleRule, at: TimeOfDay, duration: Duration, meta: M) -> (r:
        Self)
        ensures
            r.timezone == timezone,
            r.rule == rule,
            r.at == at,
            r.duration == duration,
            r.meta == meta,
    {
        Schedule { timezone, rule, at, duration, meta }
    }
}

/// Errors returned when constructing a [`ScheduleSource`].
#[derive(Debug, Clone, Copy, PartialEq, Eq, Structural)]
pub enum ScheduleSourceError {
    /// The source was constructed with no schedules.
    EmptySchedules,
    /// A schedule duration was zero or negative.
    NonPositiveDuration,
    /// A schedule duration could not be represented in nanoseconds.
    DurationOutOfRange,
    /// A rule had an invalid recurrence parameter such as `every == 0`.
    InvalidRule,
    /// A weekly rule had no weekdays.
    EmptyWeekdays,
    /// A monthly rule used an invalid day-of-month.
    InvalidDayOfMonth,
    /// A yearly rule used an invalid month.
    InvalidMonth,
    /// A yearly rule used an invalid day or impossible month/day combination.
    InvalidDayOfYear,
}

/// The `every` of a rule.
pub open spec fn rule_every(rule: ScheduleRule) -> int {
    match rule {
        ScheduleRule::Minutely { every } => every as int,
        ScheduleRule::Hourly { every } => every as int,
        ScheduleRule::Daily { every } => every as int,
        ScheduleRule::Weekly { every, .. } => every as int,
        ScheduleRule::Monthly { every, .. } => every as int,
        ScheduleRule::Yearly { every, .. } => every as int,
    }
}

/// The first check a rule fails: `every != 0`, then a non-empty weekday list,
/// a day of month in `1..=31`, or a month in `1..=12` and a day in `1..=31`
/// that together name a date of the leap year 2000.
pub open spec fn rule_error(rule: ScheduleRule) -> Option<ScheduleSourceError> {
    if rule_every(rule) == 0 {
        Some(ScheduleSourceError::InvalidRule)
    } else {
        match rule {
            ScheduleRule::Weekly { weekdays, .. } => if weekdays@.len() == 0 {
                Some(ScheduleSourceError::EmptyWeekdays)
            } else {
                None
            },
            ScheduleRule::Monthly { day, .. } => if !(1 <= day <= 31) {
                Some(ScheduleSourceError::InvalidDayOfMonth)
            } else {
                None
            },
            ScheduleRule::Yearly { month, day, .. } => if !(1 <= month <= 12) {
                Some(ScheduleSourceError::InvalidMonth)
            } else if !(1 <= day <= 31) {
                Some(ScheduleSourceError::InvalidDayOfYear)
            } else if !civil_date_exists(2000, month as int, day as int) {
                Some(ScheduleSourceError::InvalidDayOfYear)
            } else {
                None
            },
            _ => None,
        }
    }
}

/// The first check a schedule fails: a positive duration that fits in `i64`
/// nanoseconds, then the rule's checks.
pub open spec fn schedule_error<M>(s: Schedule<M>) -> Option<ScheduleSourceError> {
    if s.duration@ <= 0 {
        Some(ScheduleSourceError::NonPositiveDuration)
    } else if !fits_i64(s.duration@) {
        Some(ScheduleSourceError::DurationOutOfRange)
    } else {
        rule_error(s.rule)
    }
}

/// A schedule that passes every check.
pub open spec fn schedule_valid<M>(s: Schedule<M>) -> bool {
    schedule_error(s) is None
}

/// The error of the first schedule of `ss` that fails a check.
pub open spec fn first_schedule_error<M>(ss: Seq<Schedule<M>>) -> Option<ScheduleSourceError>
    decreases ss.len(),
{
    if ss.len() == 0 {
        None
    } else {
        match schedule_error(ss[0]) {
            Some(e) => Some(e),
            None => first_schedule_error(ss.drop_first()),
        }
    }
}

/// The rule part of the order of schedules: the rule's kind in declaration
/// order, then its parameters (the number of weekdays for a weekly rule,
/// truncated to `u32`).
pub open spec fn rule_key(rule: ScheduleRule) -> (int, int, int, int) {
    match rule {
        ScheduleRule::Minutely { every } => (0, every as int, 0, 0),
        ScheduleRule::Hourly { every } => (1, every as int, 0, 0),
        ScheduleRule::Daily { every } => (2, every as int, 0, 0),
        ScheduleRule::Weekly { every, weekdays } => (3, every as int, (weekdays@.len() as u32) as int, 0),
        ScheduleRule::Monthly { every, day } => (4, every as int, day as int, 0),
        ScheduleRule::Yearly { every, month, day } => (5, every as int, month as int, day as int),
    }
}

/// Returns the sort key of a rule.
fn rule_sort_key(rule: &ScheduleRule) -> (r: (u8, u32, u32, u32))
    ensures
        (r.0 as int, r.1 as int, r.2 as int, r.3 as int) == rule_key(*rule),
{
    match rule {
        ScheduleRule::Minutely { every } => (0, *every, 0, 0),
        ScheduleRule::Hourly { every } => (1, *every, 0, 0),
        ScheduleRule::Daily { every } => (2, *every, 0, 0),
        ScheduleRule::Weekly { every, weekdays } => (3, *every, weekdays.len() as u32, 0),
        ScheduleRule::Monthly { every, day } => (4, *every, *day, 0),
        ScheduleRule::Yearly { every, month, day } => (5, *every, *month, *day),
    }
}

/// A zone name as a sort key: its UTF-8 bytes, each plus one, so that with a
/// following `0` a name sorts before every longer name it begins.
pub open spec fn name_key(name: Seq<char>) -> Seq<i128> {
    vstd::utf8::encode_utf8(name).map_values(|b: u8| (b + 1) as i128)
}

/// The order of schedules: by zone name (bytewise), then rule key, then
/// local start time, then duration.
pub open spec fn schedule_key<M>(s: Schedule<M>) -> Seq<i128> {
    let r = rule_key(s.rule);
    name_key(s.timezone@) + seq![
        0i128,
        r.0 as i128,
        r.1 as i128,
        r.2 as i128,
        r.3 as i128,
        nanos_of_day(s.at@) as i128,
        s.duration@ as i128,
    ]
}

/// The sort keys of a list of schedules.
pub open spec fn schedule_keys<M>(ss: Seq<Schedule<M>>) -> Seq<Seq<i128>> {
    ss.map_values(|s: Schedule<M>| schedule_key(s))
}

impl<M: Clone> Clone for ScheduleSource<M> {
    /// A copy of the source whose schedules are clones of this one's.
    fn clone(&self) -> (r: Self)
        ensures
            r.spec_schedules().len() == self.spec_schedules().len(),
            forall|i: int|
                0 <= i < r.spec_schedules().len() ==> cloned(
                    #[trigger] self.spec_schedules()[i],
                    r.spec_schedules()[i],
                ),
    {
        proof {
            use_type_invariant(self);
        }
        let schedules = self.schedules.clone();
        proof {
            assert forall|i: int| 0 <= i < schedules@.len() implies schedule_valid(
                #[trigger] schedules@[i],
            ) by {
                assert(cloned(self.schedules@[i], schedules@[i]));
                assert(schedule_valid(self.schedules@[i]));
            }
        }
        ScheduleSource { schedules }
    }
}

/// The Monday of the week of `day` (days since 1970-01-01).
pub open spec fn weekly_monday(day: int) -> int {
    day - weekday_index_of_day(day)
}

/// Whether a date-based rule has an occurrence on local date `day` (days
/// since 1970-01-01); clock-based rules have none.
pub open spec fn day_matches(rule: ScheduleRule, day: int) -> bool {
    match rule {
        ScheduleRule::Daily { every } => day >= 0 && day % (every as int) == 0,
        ScheduleRule::Weekly { every, weekdays } => {
            let weeks = (weekly_monday(day) - weekly_monday(0)) / 7;
            &&& exists|i: int|
                0 <= i < weekdays@.len() && (#[trigger] weekdays@[i]).index()
                    == weekday_index_of_day(day)
            &&& weeks >= 0
            &&& weeks % (every as int) == 0
        },
        ScheduleRule::Monthly { every, day: dom } => {
            let (y, m, d) = civil_of_day(day);
            let months = y * 12 + m - 1 - 1970 * 12;
            &&& d == dom
            &&& months >= 0
            &&& months % (every as int) == 0
        },
        ScheduleRule::Yearly { every, month, day: dom } => {
            let (y, m, d) = civil_of_day(day);
            &&& m == month
            &&& d == dom
            &&& y - 1970 >= 0
            &&& (y - 1970) % (every as int) == 0
        },
        _ => false,
    }
}

/// Position of a minutely occurrence within its minute: `at`'s second and
/// sub-second.
pub open spec fn minutely_offset(at: (int, int, int, int)) -> int {
    at.2 * NANOS_PER_SECOND + at.3
}

/// Position of an hourly occurrence within its hour: `at`'s minute, second
/// and sub-second.
pub open spec fn hourly_offset(at: (int, int, int, int)) -> int {
    at.1 * NANOS_PER_MINUTE + at.2 * NANOS_PER_SECOND + at.3
}

/// The window `[s, s + duration)` of an occurrence at local time `wall`: `s`
/// is the instant `wall` denotes in the zone; none in a gap, when the end is
/// not representable, or for a non-positive duration.
pub open spec fn local_window(zone: Seq<char>, duration: int, wall: int) -> Option<(int, int)> {
    match localized(zone, wall) {
        Some(s) => if in_utc_range(s + duration) && duration > 0 {
            Some((s, s + duration))
        } else {
            None
        },
        None => None,
    }
}

/// The window of the occurrence at local time `wall` if it starts strictly
/// after `after`.
pub open spec fn window_after(zone: Seq<char>, duration: int, after: int, wall: int) -> Option<
    (int, int),
> {
    match local_window(zone, duration, wall) {
        Some((s, e)) => if s > after {
            Some((s, e))
        } else {
            None
        },
        None => None,
    }
}

/// The next window of a clock-based schedule from the local grid time `c`
/// on: the first grid time from `c` whose local time denotes an instant
/// strictly after `after`. Grid times in a gap, or denoting an instant not
/// after `after`, are skipped; there is none past the representable range.
pub open spec fn grid_scan<M>(s: Schedule<M>, period: int, unit: int, off: int, after: int, c: int) -> Option<
    (int, int),
>
    decreases MAX_UTC_NANOS - c,
{
    if !in_utc_range(c) {
        None
    } else if localized(s.timezone@, c) matches Some(st) && st > after {
        local_window(s.timezone@, s.duration@, c)
    } else {
        let n = next_on_grid(period, unit, rule_every(s.rule), off, c);
        if c < n <= MAX_UTC_NANOS {
            grid_scan(s, period, unit, off, after, n)
        } else {
            None
        }
    }
}

/// The next window of a clock-based schedule after `after`: scanning the
/// local grid times strictly after the wall clock at `after`.
pub open spec fn grid_next<M>(s: Schedule<M>, period: int, unit: int, off: int, after: int) -> Option<
    (int, int),
> {
    match wall_nanos_of(s.timezone@, after) {
        None => None,
        Some(la) => grid_scan(
            s,
            period,
            unit,
            off,
            after,
            next_on_grid(period, unit, rule_every(s.rule), off, la),
        ),
    }
}

/// The next window of a date-based schedule, scanning the local dates from
/// `d` to the end of the representable range: the first matching date whose
/// occurrence starts strictly after `after`.
pub open spec fn daily_scan<M>(s: Schedule<M>, after: int, d: int) -> Option<(int, int)>
    decreases MAX_DAY - d,
{
    if !in_day_range(d) {
        None
    } else if day_matches(s.rule, d) && (localized(
        s.timezone@,
        d * NANOS_PER_DAY + nanos_of_day(s.at@),
    ) matches Some(st) && st > after) {
        local_window(s.timezone@, s.duration@, d * NANOS_PER_DAY + nanos_of_day(s.at@))
    } else if d < MAX_DAY {
        daily_scan(s, after, d + 1)
    } else {
        None
    }
}

/// The next window of one schedule strictly after `after`, as its
/// `(start, end)`.
pub open spec fn schedule_next<M>(s: Schedule<M>, after: int) -> Option<(int, int)> {
    match s.rule {
        ScheduleRule::Minutely { .. } => grid_next(
            s,
            NANOS_PER_HOUR as int,
            NANOS_PER_MINUTE as int,
            minutely_offset(s.at@),
            after,
        ),
        ScheduleRule::Hourly { .. } => grid_next(
            s,
            NANOS_PER_DAY as int,
            NANOS_PER_HOUR as int,
            hourly_offset(s.at@),
            after,
        ),
        _ => match wall_nanos_of(s.timezone@, after) {
            None => None,
            Some(la) => daily_scan(s, after, la / (NANOS_PER_DAY as int)),
        },
    }
}

/// The length of the blocks in which a schedule has at most one
/// occurrence: a minute, an hour or a day.
pub open spec fn occurrence_unit<M>(s: Schedule<M>) -> int {
    match s.rule {
        ScheduleRule::Minutely { .. } => NANOS_PER_MINUTE as int,
        ScheduleRule::Hourly { .. } => NANOS_PER_HOUR as int,
        _ => NANOS_PER_DAY as int,
    }
}

/// Where in its block an occurrence of a schedule lies.
pub open spec fn occurrence_offset<M>(s: Schedule<M>) -> int {
    match s.rule {
        ScheduleRule::Minutely { .. } => minutely_offset(s.at@),
        ScheduleRule::Hourly { .. } => hourly_offset(s.at@),
        _ => nanos_of_day(s.at@),
    }
}

/// The schedule has an occurrence at local time `w`.
pub open spec fn occurs_at<M>(s: Schedule<M>, w: int) -> bool {
    match s.rule {
        ScheduleRule::Minutely { every } => on_grid(
            NANOS_PER_HOUR as int,
            NANOS_PER_MINUTE as int,
            every as int,
            minutely_offset(s.at@),
            w,
        ),
        ScheduleRule::Hourly { every } => on_grid(
            NANOS_PER_DAY as int,
            NANOS_PER_HOUR as int,
            every as int,
            hourly_offset(s.at@),
            w,
        ),
        _ => w % (NANOS_PER_DAY as int) == nanos_of_day(s.at@) && day_matches(
            s.rule,
            w / (NANOS_PER_DAY as int),
        ),
    }
}

/// How many local days before today are searched for windows still active:
/// the duration's whole days (at least one) plus 370, which covers sparse
/// calendar rules.
pub open spec fn lookback_days(duration: int) -> int {
    let d = trunc_div(duration, NANOS_PER_DAY as int);
    (if d < 1 {
        1
    } else {
        d
    }) + 370
}

/// The occurrence of schedule `s` at local time `w` is active at `now`: its
/// window starts at or before `now` and ends after it. Where the wall clock
/// at `now` is out of range, none is.
pub open spec fn active_local_occurrence<M>(s: Schedule<M>, now: int, w: int) -> bool {
    &&& wall_nanos_of(s.timezone@, now) is Some
    &&& occurs_at(s, w)
    &&& local_window(s.timezone@, s.duration@, w) matches Some((st, en)) && st <= now < en
}

/// A source composed of one or more independent schedules, whose windows
/// may overlap freely.
#[derive(Debug, PartialEq, Eq)]
pub struct ScheduleSource<M> {
    schedules: Vec<Schedule<M>>,
}


/// `r` is what building a source from `schedules` gives: an error for an
/// empty list or for the first invalid schedule, otherwise a source whose
/// schedules are `schedules` stably sorted by key.
pub open spec fn built_from_schedules<M>(
    schedules: Seq<Schedule<M>>,
    r: Result<ScheduleSource<M>, ScheduleSourceError>,
) -> bool {
    &&& schedules.len() == 0 ==> r == Err::<ScheduleSource<M>, ScheduleSourceError>(
        ScheduleSourceError::EmptySchedules,
    )
    &&& schedules.len() > 0 ==> match first_schedule_error(schedules) {
        Some(e) => r == Err::<ScheduleSource<M>, ScheduleSourceError>(e),
        None => r is Ok,
    }
    &&& r matches Ok(s) ==> {
        &&& is_stable_sort_of(s.spec_schedules(), schedules, schedule_keys(schedules))
        &&& s.spec_schedules().len() > 0
        &&& forall|i: int|
            0 <= i < s.spec_schedules().len() ==> schedule_valid(#[trigger] s.spec_schedules()[i])
    }
}

/// `r` is what building a source from the one schedule `schedule` gives: its
/// error, or a source with that schedule alone.
pub open spec fn built_from_schedule<M>(
    schedule: Schedule<M>,
    r: Result<ScheduleSource<M>, ScheduleSourceError>,
) -> bool {
    &&& match schedule_error(schedule) {
        Some(e) => r == Err::<ScheduleSource<M>, ScheduleSourceError>(e),
        None => r is Ok,
    }
    &&& r matches Ok(s) ==> s.spec_schedules() == seq![schedule]
}

/// A source built with `single` is the source built with `new` from the
/// one-schedule list: the same error, or the same schedules.
pub proof fn lemma_single_schedule_is_new<M>(
    schedule: Schedule<M>,
    r1: Result<ScheduleSource<M>, ScheduleSourceError>,
    r2: Result<ScheduleSource<M>, ScheduleSourceError>,
)
    requires
        built_from_schedule(schedule, r1),
        built_from_schedules(seq![schedule], r2),
    ensures
        r1 is Ok <==> r2 is Ok,
        r1 is Err ==> r1 == r2,
        r1 matches Ok(s1) ==> r2 matches Ok(s2) && s1.spec_schedules() == s2.spec_schedules(),
{
    assert(seq![schedule].drop_first() =~= Seq::<Schedule<M>>::empty());
    assert(first_schedule_error(seq![schedule].drop_first()) is None);
    assert(first_schedule_error(seq![schedule]) == schedule_error(schedule));
    if r2 is Ok {
        let s = r2->Ok_0;
        let perm = choose|perm: Seq<int>|
            stably_sorted_by(s.spec_schedules(), seq![schedule], schedule_keys(seq![schedule]), perm);
        assert(s.spec_schedules() =~= seq![schedule]);
    }
}

impl<M> ScheduleSource<M> {
    #[verifier::type_invariant]
    closed spec fn wf(self) -> bool {
        &&& self.schedules@.len() > 0
        &&& forall|i: int|
            0 <= i < self.schedules@.len() ==> schedule_valid(#[trigger] self.schedules@[i])
    }

    /// The schedules, in key order.
    pub closed spec fn spec_schedules(&self) -> Seq<Schedule<M>> {
        self.schedules@
    }

    fn schedule_key(schedule: &Schedule<M>) -> (r: Vec<i128>)
        requires
            fits_i64(schedule.duration@),
        ensures
            r@ == schedule_key(*schedule),
    {
        let bytes = schedule.timezone.name().as_bytes();
        let ghost name_bytes = vstd::utf8::encode_utf8(schedule.timezone@);
        let mut key: Vec<i128> = Vec::new();
        let mut i: usize = 0;
        while i < bytes.len()
            invariant
                i <= bytes@.len(),
                bytes@ == name_bytes,
                key@ =~= name_bytes.take(i as int).map_values(|b: u8| (b + 1) as i128),
            decreases bytes@.len() - i,
        {
            key.push(bytes[i] as i128 + 1);
            assert(name_bytes.take(i + 1) =~= name_bytes.take(i as int).push(name_bytes[i as int]));
            i = i + 1;
        }
        assert(name_bytes.take(i as int) =~= name_bytes);
        let (a, b, c, d) = rule_sort_key(&schedule.rule);
        key.push(0);
        key.push(a as i128);
        key.push(b as i128);
        key.push(c as i128);
        key.push(d as i128);
        key.push(schedule.at.nanos_since_midnight());
        key.push(schedule.duration.as_nanos());
        key
    }

    /// Creates a source from a non-empty list of valid schedules, kept in key
    /// order (zone name, rule, local start time, duration), schedules with
    /// equal keys in their given order.
    pub fn new(schedules: Vec<Schedule<M>>) -> (r: Result<Self, ScheduleSourceError>)
        ensures
            built_from_schedules(schedules@, r),
    {
        if schedules.len() == 0 {
            return Err(ScheduleSourceError::EmptySchedules);
        }
        let mut keys: Vec<Vec<i128>> = Vec::new();
        let mut i: usize = 0;
        assert(schedules@.skip(0) =~= schedules@);
        while i < schedules.len()
            invariant
                i <= schedules.len(),
                keys.len() == i,
                first_schedule_error(schedules@) == first_schedule_error(schedules@.skip(i as int)),
                forall|j: int| 0 <= j < i ==> schedule_valid(#[trigger] schedules@[j]),
                forall|j: int| 0 <= j < i ==> #[trigger] keys@[j]@ == schedule_key(schedules@[j]),
            decreases schedules.len() - i,
        {
            let schedule = &schedules[i];
            let ghost rest = schedules@.skip(i as int);
            assert(rest[0] == schedules@[i as int]);
            assert(rest.drop_first() =~= schedules@.skip(i + 1));
            if schedule.duration.as_nanos() <= 0 {
                return Err(ScheduleSourceError::NonPositiveDuration);
            }
            if schedule.duration.num_nanoseconds().is_none() {
                return Err(ScheduleSourceError::DurationOutOfRange);
            }
            match &schedule.rule {
                ScheduleRule::Minutely { every }
                | ScheduleRule::Hourly { every }
                | ScheduleRule::Daily { every }
                | ScheduleRule::Monthly { every, .. }
                | ScheduleRule::Yearly { every, .. } => {
                    if *every == 0 {
                        return Err(ScheduleSourceError::InvalidRule);
                    }
                },
                ScheduleRule::Weekly { every, weekdays } => {
                    if *every == 0 {
                        return Err(ScheduleSourceError::InvalidRule);
                    }
                    if weekdays.len() == 0 {
                        return Err(ScheduleSourceError::EmptyWeekdays);
                    }
                },
            }
            match &schedule.rule {
                ScheduleRule::Monthly { day, .. } => {
                    if !(1 <= *day && *day <= 31) {
                        return Err(ScheduleSourceError::InvalidDayOfMonth);
                    }
                },
                ScheduleRule::Yearly { month, day, .. } => {
                    if !(1 <= *month && *month <= 12) {
                        return Err(ScheduleSourceError::InvalidMonth);
                    }
                    if !(1 <= *day && *day <= 31) {
                        return Err(ScheduleSourceError::InvalidDayOfYear);
                    }
                    if !date_exists(2000, *month, *day) {
                        return Err(ScheduleSourceError::InvalidDayOfYear);
                    }
                },
                _ => {},
            }
            let key = Self::schedule_key(schedule);
            keys.push(key);
            i = i + 1;
        }
        proof {
            assert(key_views(keys@) =~= schedule_keys(schedules@));
        }
        let ghost input = schedules@;
        let sorted = stable_sort(schedules, keys);
        proof {
            let perm = choose|perm: Seq<int>|
                stably_sorted_by(sorted@, input, schedule_keys(input), perm);
            assert forall|j: int| 0 <= j < sorted@.len() implies schedule_valid(
                #[trigger] sorted@[j],
            ) by {
                assert(sorted@[j] == input[perm[j]]);
            }
        }
        Ok(ScheduleSource { schedules: sorted })
    }

    /// Convenience constructor for a source containing a single schedule.
    pub fn single(schedule: Schedule<M>) -> (r: Result<Self, ScheduleSourceError>)
        ensures
            built_from_schedule(schedule, r),
    {
        let ghost e = schedule;
        let mut schedules: Vec<Schedule<M>> = Vec::new();
        schedules.push(schedule);
        proof {
            assert(schedules@ =~= seq![e]);
            assert(schedules@.drop_first() =~= Seq::<Schedule<M>>::empty());
            assert(first_schedule_error(schedules@.drop_first()) is None);
            assert(first_schedule_error(schedules@) == schedule_error(e));
        }
        let r = Self::new(schedules);
        proof {
            if r is Ok {
                let s = r->Ok_0;
                let perm = choose|perm: Seq<int>|
                    stably_sorted_by(s.spec_schedules(), seq![e], schedule_keys(seq![e]), perm);
                assert(s.spec_schedules() =~= seq![e]);
            }
        }
        r
    }

    /// Fixed anchor date of daily recurrence phase: 1970-01-01.
    fn fixed_daily_anchor() -> (r: i64)
        ensures
            r == 0,
    {
        0
    }

    /// Fixed anchor week of weekly recurrence phase: the Monday of the week
    /// containing 1970-01-01.
    fn fixed_weekly_anchor_monday() -> (r: i64)
        ensures
            r == weekly_monday(0),
    {
        let epoch = Self::fixed_daily_anchor();
        Self::weekly_anchor_monday(epoch)
    }

    /// Whether `date` matches a daily cadence of `every` days anchored at
    /// `anchor`.
    fn matches_daily_anchor(date: i64, every: u32, anchor: i64) -> (r: bool)
        requires
            every > 0,
            in_day_range(date as int),
            in_day_range(anchor as int),
        ensures
            r == (date - anchor >= 0 && (date - anchor) % (every as int) == 0),
    {
        let delta_days = date - anchor;
        delta_days >= 0 && delta_days % (every as i64) == 0
    }

    /// The Monday of the week containing `date`.
    fn weekly_anchor_monday(date: i64) -> (r: i64)
        requires
            in_day_range(date as int),
        ensures
            r == weekly_monday(date as int),
    {
        let days_from_monday = floor_mod(date as i128 + 3, 7);
        (date as i128 - days_from_monday) as i64
    }

    /// Whether `date` falls on one of `weekdays` in a week that matches a
    /// cadence of `every` weeks anchored at the week of `anchor_monday`.
    fn matches_weekly_anchor(date: i64, every: u32, anchor_monday: i64, weekdays: &Vec<Weekday>) -> (r:
        bool)
        requires
            every > 0,
            in_day_range(date as int),
            anchor_monday == weekly_monday(0),
        ensures
            r == ((exists|i: int|
                0 <= i < weekdays@.len() && (#[trigger] weekdays@[i]).index()
                    == weekday_index_of_day(date as int)) && (weekly_monday(date as int)
                - anchor_monday) / 7 >= 0 && ((weekly_monday(date as int) - anchor_monday) / 7) % (
            every as int) == 0),
    {
        let wd = floor_mod(date as i128 + 3, 7);
        let mut found = false;
        let mut i: usize = 0;
        while i < weekdays.len()
            invariant
                i <= weekdays@.len(),
                wd == weekday_index_of_day(date as int),
                found == exists|j: int|
                    0 <= j < i && (#[trigger] weekdays@[j]).index() == weekday_index_of_day(
                        date as int,
                    ),
            decreases weekdays@.len() - i,
        {
            if weekdays[i].num_days_from_monday() as i128 == wd {
                found = true;
            }
            i = i + 1;
        }
        if !found {
            return false;
        }
        let this_monday = Self::weekly_anchor_monday(date);
        let delta_weeks = floor_div((this_monday - anchor_monday) as i128, 7);
        delta_weeks >= 0 && delta_weeks % (every as i128) == 0
    }

    /// A linear month index for `(year, month)`.
    fn month_index(year: i32, month: u32) -> (r: i64)
        requires
            month <= 12,
        ensures
            r == year * 12 + month - 1,
    {
        year as i64 * 12 + month as i64 - 1
    }

    /// Whether `date` is day `day` of a month matching a cadence of `every`
    /// months anchored at January 1970.
    fn matches_monthly_anchor(date: i64, every: u32, day: u32) -> (r: bool)
        requires
            every > 0,
            in_day_range(date as int),
        ensures
            r == ({
                let (y, m, d) = civil_of_day(date as int);
                d == day && y * 12 + m - 1 - 1970 * 12 >= 0 && (y * 12 + m - 1 - 1970 * 12) % (
                every as int) == 0
            }),
    {
        let (year, month, dom) = civil_of(date);
        if dom != day {
            return false;
        }
        let anchor: i64 = 1970 * 12;
        let current = Self::month_index(year, month);
        let delta = current - anchor;
        delta >= 0 && delta % (every as i64) == 0
    }

    /// Whether `date` is `month`/`day` of a year matching a cadence of
    /// `every` years anchored at 1970.
    fn matches_yearly_anchor(date: i64, every: u32, month: u32, day: u32) -> (r: bool)
        requires
            every > 0,
            in_day_range(date as int),
        ensures
            r == ({
                let (y, m, d) = civil_of_day(date as int);
                m == month && d == day && y - 1970 >= 0 && (y - 1970) % (every as int) == 0
            }),
    {
        let (year, m, dom) = civil_of(date);
        if m != month || dom != day {
            return false;
        }
        let delta_years = year as i64 - 1970;
        delta_years >= 0 && delta_years % (every as i64) == 0
    }

    /// Whether the schedule's date-based rule has an occurrence on `date`
    /// (never for minutely and hourly rules).
    fn rule_matches_on_date(schedule: &Schedule<M>, date: i64) -> (r: bool)
        requires
            schedule_valid(*schedule),
            in_day_range(date as int),
        ensures
            r == day_matches(schedule.rule, date as int),
    {
        match &schedule.rule {
            ScheduleRule::Daily { every } => Self::matches_daily_anchor(
                date,
                *every,
                Self::fixed_daily_anchor(),
            ),
            ScheduleRule::Weekly { every, weekdays } => Self::matches_weekly_anchor(
                date,
                *every,
                Self::fixed_weekly_anchor_monday(),
                weekdays,
            ),
            ScheduleRule::Monthly { every, day } => Self::matches_monthly_anchor(date, *every, *day),
            ScheduleRule::Yearly { every, month, day } => Self::matches_yearly_anchor(
                date,
                *every,
                *month,
                *day,
            ),
            ScheduleRule::Minutely { .. } | ScheduleRule::Hourly { .. } => false,
        }
    }

    /// Builds the window of an occurrence starting at local time `local`.
    fn window_for_local_start(schedule: &Schedule<M>, local: i128) -> (r: Option<Window<M>>) where
        M: Clone,

        requires
            in_utc_range(local as int),
        ensures
            match local_window(schedule.timezone@, schedule.duration@, local as int) {
                Some((s, e)) => r matches Some(w) && w.start@ == s && w.end@ == e && cloned(
                    schedule.meta,
                    w.meta,
                ),
                None => r is None,
            },
    {
        let start = schedule.timezone.localize(local)?;
        let end = start.checked_add_signed(schedule.duration)?;
        Window::new(start, end, schedule.meta.clone())
    }

    /// Builds the window of a date-based occurrence on `local_date`.
    fn window_for_occurrence(schedule: &Schedule<M>, local_date: i64) -> (r: Option<Window<M>>) where
        M: Clone,

        requires
            in_day_range(local_date as int),
        ensures
            match local_window(
                schedule.timezone@,
                schedule.duration@,
                local_date * NANOS_PER_DAY + nanos_of_day(schedule.at@),
            ) {
                Some((s, e)) => r matches Some(w) && w.start@ == s && w.end@ == e && cloned(
                    schedule.meta,
                    w.meta,
                ),
                None => r is None,
            },
    {
        Self::window_for_local_start(
            schedule,
            local_date as i128 * NANOS_PER_DAY + schedule.at.nanos_since_midnight(),
        )
    }

    /// The next window of a clock-based schedule on the grid `count` units
    /// per period, every `every` units, at `off` within the unit: grid times
    /// after the wall clock at `after` are tried in turn, skipping those in a
    /// gap and those that denote an instant not after `after`.
    fn grid_next_after(
        schedule: &Schedule<M>,
        after: Timestamp,
        count: i128,
        unit: i128,
        every: u32,
        off: i128,
    ) -> (r: Option<Window<M>>) where M: Clone
        requires
            schedule_valid(*schedule),
            rule_every(schedule.rule) == every,
            (count == 60 && unit == NANOS_PER_MINUTE) || (count == 24 && unit == NANOS_PER_HOUR),
            0 <= off < unit,
        ensures
            match grid_next(*schedule, count * unit, unit as int, off as int, after@) {
                Some((s, e)) => r matches Some(w) && w.start@ == s && w.end@ == e && cloned(
                    schedule.meta,
                    w.meta,
                ),
                None => r is None,
            },
    {
        let local_after = match schedule.timezone.wall_clock(after) {
            Some(w) => w,
            None => {
                return None;
            },
        };
        let mut candidate = first_on_grid_after(count, unit, every as i128, off, local_after);
        let ghost sch = *schedule;
        let ghost (period, u, o) = (count * unit, unit as int, off as int);
        proof {
            lemma_next_on_grid_unique(period, u, every as int, o, local_after as int, candidate as int);
            assert(grid_next(sch, period, u, o, after@) == grid_scan(sch, period, u, o, after@, candidate as int));
        }
        loop
            invariant
                sch == *schedule,
                schedule_valid(sch),
                rule_every(sch.rule) == every,
                period == count * unit,
                u == unit,
                o == off,
                (count == 60 && unit == NANOS_PER_MINUTE) || (count == 24 && unit == NANOS_PER_HOUR),
                0 <= off < unit,
                MIN_UTC_NANOS <= candidate <= MAX_UTC_NANOS + 2 * 24 * NANOS_PER_HOUR,
                grid_next(sch, period, u, o, after@) == grid_scan(sch, period, u, o, after@, candidate as int),
            decreases MAX_UTC_NANOS + 2 * 24 * NANOS_PER_HOUR - candidate,
        {
            if candidate > MAX_UTC_NANOS {
                return None;
            }
            match schedule.timezone.localize(candidate) {
                Some(start) => {
                    if start.unix_nanos() > after.unix_nanos() {
                        return Self::window_for_local_start(schedule, candidate);
                    }
                },
                None => {},
            }
            let next = first_on_grid_after(count, unit, every as i128, off, candidate);
            proof {
                lemma_next_on_grid_unique(period, u, every as int, o, candidate as int, next as int);
                assert(grid_scan(sch, period, u, o, after@, candidate as int) == grid_scan(
                    sch,
                    period,
                    u,
                    o,
                    after@,
                    next as int,
                ));
            }
            candidate = next;
        }
    }

    /// Returns the next window of a minutely schedule strictly after `after`:
    /// among the local times after the wall clock at `after` whose minute is
    /// a multiple of `every`, with `at`'s second and sub-second, the first
    /// that denotes an instant strictly after `after`.
    fn minutely_next_after(schedule: &Schedule<M>, after: Timestamp) -> (r: Option<Window<M>>) where
        M: Clone,

        requires
            schedule_valid(*schedule),
            schedule.rule is Minutely,
        ensures
            match schedule_next(*schedule, after@) {
                Some((s, e)) => r matches Some(w) && w.start@ == s && w.end@ == e && cloned(
                    schedule.meta,
                    w.meta,
                ),
                None => r is None,
            },
    {
        let every = match schedule.rule {
            ScheduleRule::Minutely { every } => every,
            _ => {
                return None;
            },
        };
        let off = schedule.at.second() as i128 * NANOS_PER_SECOND + schedule.at.nanosecond() as i128;
        Self::grid_next_after(schedule, after, 60, NANOS_PER_MINUTE, every, off)
    }

    /// Returns the next window of an hourly schedule strictly after `after`:
    /// among the local times after the wall clock at `after` whose hour is a
    /// multiple of `every`, with `at`'s minute, second and sub-second, the
    /// first that denotes an instant strictly after `after`.
    fn hourly_next_after(schedule: &Schedule<M>, after: Timestamp) -> (r: Option<Window<M>>) where
        M: Clone,

        requires
            schedule_valid(*schedule),
            schedule.rule is Hourly,
        ensures
            match schedule_next(*schedule, after@) {
                Some((s, e)) => r matches Some(w) && w.start@ == s && w.end@ == e && cloned(
                    schedule.meta,
                    w.meta,
                ),
                None => r is None,
            },
    {
        let every = match schedule.rule {
            ScheduleRule::Hourly { every } => every,
            _ => {
                return None;
            },
        };
        let off = schedule.at.minute() as i128 * NANOS_PER_MINUTE + schedule.at.second() as i128
            * NANOS_PER_SECOND + schedule.at.nanosecond() as i128;
        Self::grid_next_after(schedule, after, 24, NANOS_PER_HOUR, every, off)
    }

    /// Returns the next window of a date-based rule strictly after `after`,
    /// scanning local dates forward from the date of the wall clock at
    /// `after` to the end of the representable range.
    fn daily_like_next_after(schedule: &Schedule<M>, after: Timestamp) -> (r: Option<Window<M>>) where
        M: Clone,

        requires
            schedule_valid(*schedule),
            !(schedule.rule is Minutely),
            !(schedule.rule is Hourly),
        ensures
            match schedule_next(*schedule, after@) {
                Some((s, e)) => r matches Some(w) && w.start@ == s && w.end@ == e && cloned(
                    schedule.meta,
                    w.meta,
                ),
                None => r is None,
            },
    {
        let local_after = match schedule.timezone.wall_clock(after) {
            Some(w) => w,
            None => {
                return None;
            },
        };
        let start_date = floor_div(local_after, NANOS_PER_DAY) as i64;
        let ghost d0 = start_date as int;
        let ghost sch = *schedule;
        proof {
            assert(local_after / NANOS_PER_DAY == d0);
            assert(schedule_next(sch, after@) == daily_scan(sch, after@, d0));
            assert(in_day_range(d0)) by {
                assert(MIN_DAY * NANOS_PER_DAY == MIN_UTC_NANOS);
                assert(MAX_DAY * NANOS_PER_DAY + NANOS_PER_DAY - 1 == MAX_UTC_NANOS);
                vstd::arithmetic::div_mod::lemma_fundamental_div_mod(local_after as int, NANOS_PER_DAY as int);
            }
        }
        let mut date: i64 = start_date;
        while date <= MAX_DAY
            invariant
                MIN_DAY <= date <= MAX_DAY + 1,
                sch == *schedule,
                schedule_valid(sch),
                schedule_next(sch, after@) == daily_scan(sch, after@, date as int),
            decreases MAX_DAY + 1 - date,
        {
            if Self::rule_matches_on_date(schedule, date) {
                let wall = date as i128 * NANOS_PER_DAY + schedule.at.nanos_since_midnight();
                match schedule.timezone.localize(wall) {
                    Some(start) => {
                        if start.unix_nanos() > after.unix_nanos() {
                            assert(daily_scan(sch, after@, date as int) == local_window(
                                sch.timezone@,
                                sch.duration@,
                                wall as int,
                            ));
                            return Self::window_for_occurrence(schedule, date);
                        }
                    },
                    None => {},
                }
            }
            date = date + 1;
        }
        None
    }

    /// Whether the schedule has an occurrence at local time `wall`.
    fn occurs_at_local(schedule: &Schedule<M>, wall: i128) -> (r: bool)
        requires
            schedule_valid(*schedule),
            in_utc_range(wall as int),
        ensures
            r == occurs_at(*schedule, wall as int),
    {
        match &schedule.rule {
            ScheduleRule::Minutely { every } => {
                let off = schedule.at.second() as i128 * NANOS_PER_SECOND
                    + schedule.at.nanosecond() as i128;
                floor_mod(wall, NANOS_PER_MINUTE) == off && (floor_mod(wall, NANOS_PER_HOUR)
                    / NANOS_PER_MINUTE) % (*every as i128) == 0
            },
            ScheduleRule::Hourly { every } => {
                let off = schedule.at.minute() as i128 * NANOS_PER_MINUTE + schedule.at.second() as i128
                    * NANOS_PER_SECOND + schedule.at.nanosecond() as i128;
                floor_mod(wall, NANOS_PER_HOUR) == off && (floor_mod(wall, NANOS_PER_DAY)
                    / NANOS_PER_HOUR) % (*every as i128) == 0
            },
            _ => {
                if floor_mod(wall, NANOS_PER_DAY) != schedule.at.nanos_since_midnight() {
                    return false;
                }
                let date = floor_div(wall, NANOS_PER_DAY);
                proof {
                    assert(MIN_DAY * NANOS_PER_DAY == MIN_UTC_NANOS);
                    assert(MAX_DAY * NANOS_PER_DAY + NANOS_PER_DAY - 1 == MAX_UTC_NANOS);
                    vstd::arithmetic::div_mod::lemma_fundamental_div_mod(
                        wall as int,
                        NANOS_PER_DAY as int,
                    );
                }
                Self::rule_matches_on_date(schedule, date as i64)
            },
        }
    }

    /// The window of the occurrence at local time `wall`, if there is one on
    /// a representable date and it is active at `now`.
    fn active_window_at(schedule: &Schedule<M>, now: Timestamp, wall: i128) -> (r: Option<
        Window<M>,
    >) where M: Clone
        requires
            schedule_valid(*schedule),
            -100_000_000_000_000_000_000_000 <= wall <= 100_000_000_000_000_000_000_000,
        ensures
            r is Some <==> {
                &&& in_day_range(wall / NANOS_PER_DAY)
                &&& occurs_at(*schedule, wall as int)
                &&& local_window(schedule.timezone@, schedule.duration@, wall as int) matches Some(
                    (st, en),
                ) && st <= now@ < en
            },
            r matches Some(w) ==> local_window(schedule.timezone@, schedule.duration@, wall as int)
                == Some((w.start@, w.end@)) && cloned(schedule.meta, w.meta),
    {
        let date = floor_div(wall, NANOS_PER_DAY);
        if !(MIN_DAY as i128 <= date && date <= MAX_DAY as i128) {
            return None;
        }
        proof {
            assert(MIN_DAY * NANOS_PER_DAY == MIN_UTC_NANOS);
            assert(MAX_DAY * NANOS_PER_DAY + NANOS_PER_DAY - 1 == MAX_UTC_NANOS);
            vstd::arithmetic::div_mod::lemma_fundamental_div_mod(wall as int, NANOS_PER_DAY as int);
        }
        if !Self::occurs_at_local(schedule, wall) {
            return None;
        }
        match Self::window_for_local_start(schedule, wall) {
            Some(w) => {
                if w.is_active(now) {
                    Some(w)
                } else {
                    None
                }
            },
            None => None,
        }
    }

    /// Returns all active windows of one schedule at `now`, by local start
    /// time, with their `(start, end)` sort keys and local start times.
    ///
    /// Windows may last past the next occurrences, so the search covers the
    /// local dates from [`lookback_days`] before the local date of `now` to
    /// two days after it, block by block (minute, hour or day); every active
    /// occurrence lies there.
    fn active_windows_for_schedule(schedule: &Schedule<M>, now: Timestamp) -> (r: (
        Vec<Window<M>>,
        Vec<Vec<i128>>,
        Ghost<Seq<int>>,
    )) where M: Clone
        requires
            schedule_valid(*schedule),
        ensures
            r.0.len() == r.1.len(),
            r.1.len() == r.2@.len(),
            forall|j: int|
                0 <= j < r.0.len() ==> {
                    &&& active_local_occurrence(*schedule, now@, #[trigger] r.2@[j])
                    &&& local_window(schedule.timezone@, schedule.duration@, r.2@[j]) == Some(
                        (r.0@[j].start@, r.0@[j].end@),
                    )
                    &&& cloned(schedule.meta, r.0@[j].meta)
                    &&& r.1@[j]@ == seq![r.0@[j].start@ as i128, r.0@[j].end@ as i128]
                },
            forall|j1: int, j2: int| 0 <= j1 < j2 < r.2@.len() ==> r.2@[j1] < r.2@[j2],
            forall|w: int| #[trigger] active_local_occurrence(*schedule, now@, w) ==> r.2@.contains(w),
    {
        let mut windows: Vec<Window<M>> = Vec::new();
        let mut keys: Vec<Vec<i128>> = Vec::new();
        let ghost mut walls: Seq<int> = Seq::empty();
        let ghost sch = *schedule;
        let local_now = match schedule.timezone.wall_clock(now) {
            Some(w) => w,
            None => {
                return (windows, keys, Ghost(walls));
            },
        };
        let d0 = floor_div(local_now, NANOS_PER_DAY);
        let days = schedule.duration.num_days();
        let lookback: i128 = if days < 1 {
            1
        } else {
            days as i128
        } + 370;
        let (unit, off): (i128, i128) = match &schedule.rule {
            ScheduleRule::Minutely { .. } => (
                NANOS_PER_MINUTE,
                schedule.at.second() as i128 * NANOS_PER_SECOND + schedule.at.nanosecond() as i128,
            ),
            ScheduleRule::Hourly { .. } => (
                NANOS_PER_HOUR,
                schedule.at.minute() as i128 * NANOS_PER_MINUTE + schedule.at.second() as i128
                    * NANOS_PER_SECOND + schedule.at.nanosecond() as i128,
            ),
            _ => (NANOS_PER_DAY, schedule.at.nanos_since_midnight()),
        };
        let per_day = NANOS_PER_DAY / unit;
        let ghost day_i = NANOS_PER_DAY as int;
        proof {
            use_type_invariant(&now);
            now.lemma_in_range();
            assert(MIN_DAY * NANOS_PER_DAY == MIN_UTC_NANOS);
            assert(MAX_DAY * NANOS_PER_DAY + NANOS_PER_DAY - 1 == MAX_UTC_NANOS);
            vstd::arithmetic::div_mod::lemma_fundamental_div_mod(local_now as int, day_i);
            assert(in_day_range(d0 as int));
            if unit == NANOS_PER_MINUTE {
                vstd::arithmetic::div_mod::lemma_fundamental_div_mod_converse(
                    day_i,
                    NANOS_PER_MINUTE as int,
                    1440,
                    0,
                );
            } else if unit == NANOS_PER_HOUR {
                vstd::arithmetic::div_mod::lemma_fundamental_div_mod_converse(
                    day_i,
                    NANOS_PER_HOUR as int,
                    24,
                    0,
                );
            } else {
                vstd::arithmetic::div_mod::lemma_fundamental_div_mod_converse(day_i, day_i, 1, 0);
            }
            assert(per_day * unit == NANOS_PER_DAY);
            assert(1 <= per_day <= 1440);
            assert(days <= 200_000) by {
                assert(sch.duration@ <= i64::MAX);
                vstd::arithmetic::div_mod::lemma_div_is_ordered(
                    sch.duration@,
                    i64::MAX as int,
                    day_i,
                );
            }
        }
        proof {
            assert(-200_000_000 <= d0 - lookback <= d0 + 3 <= 200_000_000);
            assert(-300_000_000_000 <= (d0 - lookback) * per_day <= 300_000_000_000) by (
            nonlinear_arith)
                requires
                    -200_000_000 <= d0 - lookback <= 200_000_000,
                    1 <= per_day <= 1440,
            ;
            assert(-300_000_000_000 <= (d0 + 3) * per_day <= 300_000_000_000) by (nonlinear_arith)
                requires
                    -200_000_000 <= d0 + 3 <= 200_000_000,
                    1 <= per_day <= 1440,
            ;
        }
        let first_block = (d0 - lookback) * per_day;
        let end_block = (d0 + 3) * per_day;
        let ghost (fb, eb, ui, oi) = (first_block as int, end_block as int, unit as int, off as int);
        proof {
            assert(fb * ui == (d0 - lookback) * day_i) by (nonlinear_arith)
                requires
                    fb == (d0 - lookback) * per_day,
                    per_day * ui == day_i,
            ;
            assert(eb * ui == (d0 + 3) * day_i) by (nonlinear_arith)
                requires
                    eb == (d0 + 3) * per_day,
                    per_day * ui == day_i,
            ;
            assert(fb <= eb) by (nonlinear_arith)
                requires
                    fb == (d0 - lookback) * per_day,
                    eb == (d0 + 3) * per_day,
                    per_day > 0,
                    lookback > 0,
            ;
        }
        proof {
            assert forall|w: int|
                w < fb * ui && #[trigger] active_local_occurrence(sch, now@, w) implies walls.contains(
                w,
            ) by {
                lemma_active_occurrence_in_range(sch, now@, local_now as int, lookback as int, w);
            }
        }
        let mut b = first_block;
        while b < end_block
            invariant
                sch == *schedule,
                schedule_valid(sch),
                ui == occurrence_unit(sch),
                ui == unit,
                oi == off,
                oi == occurrence_offset(sch),
                0 <= oi < ui,
                ui == NANOS_PER_MINUTE || ui == NANOS_PER_HOUR || ui == NANOS_PER_DAY,
                day_i == NANOS_PER_DAY,
                in_day_range(d0 as int),
                371 <= lookback <= 200_370,
                fb == first_block,
                eb == end_block,
                fb * ui == (d0 - lookback) * day_i,
                eb * ui == (d0 + 3) * day_i,
                wall_nanos_of(sch.timezone@, now@) == Some(local_now as int),
                d0 == (local_now as int) / day_i,
                lookback == lookback_days(sch.duration@),
                first_block <= b <= end_block,
                windows.len() == keys.len(),
                keys.len() == walls.len(),
                forall|j: int|
                    0 <= j < windows.len() ==> {
                        &&& active_local_occurrence(sch, now@, #[trigger] walls[j])
                        &&& local_window(sch.timezone@, sch.duration@, walls[j]) == Some(
                            (windows@[j].start@, windows@[j].end@),
                        )
                        &&& cloned(sch.meta, windows@[j].meta)
                        &&& keys@[j]@ == seq![windows@[j].start@ as i128, windows@[j].end@ as i128]
                        &&& walls[j] < b * unit
                    },
                forall|j1: int, j2: int| 0 <= j1 < j2 < walls.len() ==> walls[j1] < walls[j2],
                forall|w: int|
                    w < b * unit && #[trigger] active_local_occurrence(sch, now@, w) ==> walls.contains(
                        w,
                    ),
            decreases end_block - b,
        {
            proof {
                assert(fb * ui <= b * ui < eb * ui) by (nonlinear_arith)
                    requires
                        fb <= b < eb,
                        ui > 0,
                ;
                assert((b + 1) * ui == b * ui + ui) by (nonlinear_arith);
                assert(b * ui + ui <= eb * ui) by (nonlinear_arith)
                    requires
                        b + 1 <= eb,
                        ui > 0,
                ;
            }
            let wall = b * unit + off;
            let ghost old_walls = walls;
            match Self::active_window_at(schedule, now, wall) {
                Some(w) => {
                    keys.push(vec![w.start.unix_nanos(), w.end.unix_nanos()]);
                    windows.push(w);
                    proof {
                        walls = walls.push(wall as int);
                        assert(keys@[keys.len() - 1]@ =~= seq![w.start@ as i128, w.end@ as i128]);
                    }
                },
                None => {},
            }
            proof {
                assert forall|w2: int|
                    w2 < (b + 1) * unit && #[trigger] active_local_occurrence(
                        sch,
                        now@,
                        w2,
                    ) implies walls.contains(w2) by {
                    if w2 < b * unit {
                        assert(old_walls.contains(w2));
                        let j = choose|j: int| 0 <= j < old_walls.len() && old_walls[j] == w2;
                        assert(walls[j] == w2);
                    } else {
                        lemma_occurrence_in_block(sch, now@, b as int, w2);
                        lemma_day_of_wall_in_range(w2);
                        assert(walls[walls.len() - 1] == w2);
                    }
                }
            }
            b = b + 1;
        }
        proof {
            assert forall|w2: int| #[trigger] active_local_occurrence(sch, now@, w2) implies walls.contains(
                w2,
            ) by {
                lemma_active_occurrence_in_range(sch, now@, local_now as int, lookback as int, w2);
            }
        }
        (windows, keys, Ghost(walls))
    }

    /// Returns the schedules contained in this source, in key order.
    pub fn schedules(&self) -> (r: &[Schedule<M>])
        ensures
            r@ == self.spec_schedules(),
    {
        self.schedules.as_slice()
    }
}


/// A representable local time has a representable local date.
proof fn lemma_day_of_wall_in_range(wall: int)
    requires
        in_utc_range(wall),
    ensures
        in_day_range(wall / (NANOS_PER_DAY as int)),
{
    assert(MIN_DAY * NANOS_PER_DAY == MIN_UTC_NANOS);
    assert(MAX_DAY * NANOS_PER_DAY + NANOS_PER_DAY - 1 == MAX_UTC_NANOS);
    vstd::arithmetic::div_mod::lemma_fundamental_div_mod(wall, NANOS_PER_DAY as int);
}

/// An occurrence active at `now` lies on a local date from `lookback_days`
/// before the local date of `now` to two days after it: a window that
/// started before `now` began less than its duration earlier, and wall
/// clocks lie less than a day from the instants they denote.
proof fn lemma_active_occurrence_in_range<M>(s: Schedule<M>, now: int, ln: int, lookback: int, w: int)
    requires
        s.duration@ > 0,
        wall_nanos_of(s.timezone@, now) == Some(ln),
        lookback == lookback_days(s.duration@),
        active_local_occurrence(s, now, w),
    ensures
        (ln / (NANOS_PER_DAY as int) - lookback) * NANOS_PER_DAY <= w,
        w < (ln / (NANOS_PER_DAY as int) + 3) * NANOS_PER_DAY,
{
    let day = NANOS_PER_DAY as int;
    let d0 = ln / day;
    let dur = s.duration@;
    let k = trunc_div(dur, day);
    vstd::arithmetic::div_mod::lemma_fundamental_div_mod(ln, day);
    vstd::arithmetic::div_mod::lemma_fundamental_div_mod(dur, day);
    assert(k == dur / day);
    assert(k * day > dur - day) by (nonlinear_arith)
        requires
            dur == day * (dur / day) + dur % day,
            0 <= dur % day < day,
            k == dur / day,
    ;
    assert(lookback * day >= dur + 2 * day) by (nonlinear_arith)
        requires
            lookback >= k + 370,
            lookback >= 371,
            k * day > dur - day,
            day > 0,
    ;
    assert((d0 - lookback) * day == d0 * day - lookback * day) by (nonlinear_arith);
    assert((d0 + 3) * day == d0 * day + 3 * day) by (nonlinear_arith);
}

/// An occurrence in block `b` is the block's candidate time.
proof fn lemma_occurrence_in_block<M>(s: Schedule<M>, now: int, b: int, w: int)
    requires
        b * occurrence_unit(s) <= w < b * occurrence_unit(s) + occurrence_unit(s),
        0 <= occurrence_offset(s) < occurrence_unit(s),
        active_local_occurrence(s, now, w),
    ensures
        w == b * occurrence_unit(s) + occurrence_offset(s),
{
    assert(w % occurrence_unit(s) == occurrence_offset(s));
    lemma_unique_in_block(occurrence_unit(s), b, occurrence_offset(s), w);
}


/// `r[j]` is the window of the occurrence of schedule `src[j].0` at local
/// time `src[j].1`, active at `now`, with the schedule's metadata cloned;
/// `r` is ordered by start, end, schedule index and local time; and every
/// active occurrence of every schedule is listed.
pub open spec fn schedule_listing<M: Clone>(
    ss: Seq<Schedule<M>>,
    now: int,
    r: Seq<Window<M>>,
    src: Seq<(int, int)>,
) -> bool {
    &&& src.len() == r.len()
    &&& forall|j: int|
        0 <= j < r.len() ==> {
            &&& 0 <= (#[trigger] src[j]).0 < ss.len()
            &&& active_local_occurrence(ss[src[j].0], now, src[j].1)
            &&& local_window(ss[src[j].0].timezone@, ss[src[j].0].duration@, src[j].1) == Some(
                (r[j].start@, r[j].end@),
            )
            &&& cloned(ss[src[j].0].meta, r[j].meta)
        }
    &&& forall|j1: int, j2: int|
        0 <= j1 < j2 < r.len() ==> lex_lt4(
            (r[j1].start@, r[j1].end@, (#[trigger] src[j1]).0, src[j1].1),
            (r[j2].start@, r[j2].end@, (#[trigger] src[j2]).0, src[j2].1),
        )
    &&& forall|i: int, w: int|
        0 <= i < ss.len() && #[trigger] active_local_occurrence(ss[i], now, w) ==> lists(src, i, w)
}

/// `w` is the next window of schedule `i` after `after` and has the least
/// `(start, end, schedule index)` of all schedules' next windows.
pub open spec fn earliest_schedule<M: Clone>(
    ss: Seq<Schedule<M>>,
    after: int,
    w: Window<M>,
    i: int,
) -> bool {
    &&& 0 <= i < ss.len()
    &&& schedule_next(ss[i], after) == Some((w.start@, w.end@))
    &&& cloned(ss[i].meta, w.meta)
    &&& forall|i2: int|
        0 <= i2 < ss.len() && #[trigger] schedule_next(ss[i2], after) is Some ==> {
            let (s2, e2) = schedule_next(ss[i2], after)->0;
            lex_lt2((w.start@, w.end@), (s2, e2)) || (w.start@ == s2 && w.end@ == e2 && i <= i2)
        }
}

impl<M: Clone> WindowSource for ScheduleSource<M> {
    type Meta = M;

    /// All windows active at `now`, ordered by `(start, end)`; windows with
    /// equal bounds come in schedule order.
    fn active_windows(&self, now: Timestamp) -> (r: Vec<Window<M>>)
        ensures
            exists|src: Seq<(int, int)>| schedule_listing(self.spec_schedules(), now@, r@, src),
    {
        proof {
            use_type_invariant(self);
        }
        let ghost ss = self.spec_schedules();
        let mut windows: Vec<Window<M>> = Vec::new();
        let mut keys: Vec<Vec<i128>> = Vec::new();
        let ghost mut src: Seq<(int, int)> = Seq::empty();
        let mut si: usize = 0;
        while si < self.schedules.len()
            invariant
                ss == self.spec_schedules(),
                ss.len() == self.schedules.len(),
                forall|i: int| 0 <= i < ss.len() ==> schedule_valid(#[trigger] ss[i]),
                si <= ss.len(),
                windows.len() == keys.len(),
                keys.len() == src.len(),
                forall|j: int|
                    0 <= j < windows.len() ==> {
                        &&& 0 <= (#[trigger] src[j]).0 < si
                        &&& active_local_occurrence(ss[src[j].0], now@, src[j].1)
                        &&& local_window(ss[src[j].0].timezone@, ss[src[j].0].duration@, src[j].1)
                            == Some((windows@[j].start@, windows@[j].end@))
                        &&& cloned(ss[src[j].0].meta, windows@[j].meta)
                        &&& keys@[j]@ == seq![windows@[j].start@ as i128, windows@[j].end@ as i128]
                    },
                forall|j1: int, j2: int|
                    0 <= j1 < j2 < src.len() ==> lex_lt2(#[trigger] src[j1], #[trigger] src[j2]),
                forall|i: int, w: int|
                    0 <= i < si && #[trigger] active_local_occurrence(ss[i], now@, w) ==> lists(
                        src,
                        i,
                        w,
                    ),
            decreases ss.len() - si,
        {
            assert(schedule_valid(ss[si as int]));
            let (mut w, mut kv, Ghost(ws)) = Self::active_windows_for_schedule(
                &self.schedules[si],
                now,
            );
            let ghost old_src = src;
            let ghost old_windows = windows@;
            let ghost old_keys = keys@;
            let ghost old_w = w@;
            let ghost old_kv = kv@;
            windows.append(&mut w);
            keys.append(&mut kv);
            proof {
                let added = ws.map_values(|x: int| (si as int, x));
                src = old_src + added;
                let n0 = old_src.len();
                assert forall|j: int| 0 <= j < windows.len() implies {
                    &&& 0 <= (#[trigger] src[j]).0 < si + 1
                    &&& active_local_occurrence(ss[src[j].0], now@, src[j].1)
                    &&& local_window(ss[src[j].0].timezone@, ss[src[j].0].duration@, src[j].1)
                        == Some((windows@[j].start@, windows@[j].end@))
                    &&& cloned(ss[src[j].0].meta, windows@[j].meta)
                    &&& keys@[j]@ == seq![windows@[j].start@ as i128, windows@[j].end@ as i128]
                } by {
                    if j < n0 {
                        assert(src[j] == old_src[j]);
                        assert(windows@[j] == old_windows[j]);
                        assert(keys@[j] == old_keys[j]);
                    } else {
                        let jj = j - n0;
                        assert(src[j] == (si as int, ws[jj]));
                        assert(windows@[j] == old_w[jj]);
                        assert(keys@[j] == old_kv[jj]);
                    }
                }
                assert forall|j1: int, j2: int| 0 <= j1 < j2 < src.len() implies lex_lt2(
                    #[trigger] src[j1],
                    #[trigger] src[j2],
                ) by {
                    if j2 < n0 {
                        assert(src[j1] == old_src[j1]);
                        assert(src[j2] == old_src[j2]);
                    } else if j1 < n0 {
                        assert(src[j1] == old_src[j1]);
                        assert(src[j2] == (si as int, ws[j2 - n0]));
                    } else {
                        assert(src[j1] == (si as int, ws[j1 - n0]));
                        assert(src[j2] == (si as int, ws[j2 - n0]));
                    }
                }
                assert forall|i: int, x: int|
                    0 <= i < si + 1 && #[trigger] active_local_occurrence(ss[i], now@, x) implies lists(
                        src,
                        i,
                        x,
                    ) by {
                    if i < si {
                        let j = choose|j: int| 0 <= j < old_src.len() && old_src[j] == (i, x);
                        assert(src[j] == (i, x));
                    } else {
                        assert(ws.contains(x));
                        let jj = choose|jj: int| 0 <= jj < ws.len() && ws[jj] == x;
                        assert(src[n0 + jj] == (i, x));
                    }
                }
            }
            si = si + 1;
        }
        let ghost pre = windows@;
        let ghost pre_src = src;
        let ghost pre_keys = key_views(keys@);
        proof {
            assert forall|j: int| 0 <= j < pre.len() implies #[trigger] pre_keys[j] == seq![
                pre[j].start@ as i128,
                pre[j].end@ as i128,
            ] by {
                assert(src[j] == pre_src[j]);
                assert(pre_keys[j] == keys@[j]@);
            }
        }
        let sorted = stable_sort(windows, keys);
        proof {
            let perm = choose|perm: Seq<int>| stably_sorted_by(sorted@, pre, pre_keys, perm);
            let fin = perm.map_values(|x: int| pre_src[x]);
            let r = sorted@;
            assert forall|j: int| 0 <= j < r.len() implies {
                &&& 0 <= (#[trigger] fin[j]).0 < ss.len()
                &&& active_local_occurrence(ss[fin[j].0], now@, fin[j].1)
                &&& local_window(ss[fin[j].0].timezone@, ss[fin[j].0].duration@, fin[j].1) == Some(
                    (r[j].start@, r[j].end@),
                )
                &&& cloned(ss[fin[j].0].meta, r[j].meta)
            } by {
                assert(r[j] == pre[perm[j]]);
                assert(fin[j] == pre_src[perm[j]]);
            }
            assert forall|j1: int, j2: int| 0 <= j1 < j2 < r.len() implies lex_lt4(
                (r[j1].start@, r[j1].end@, (#[trigger] fin[j1]).0, fin[j1].1),
                (r[j2].start@, r[j2].end@, (#[trigger] fin[j2]).0, fin[j2].1),
            ) by {
                let x1 = perm[j1];
                let x2 = perm[j2];
                assert(r[j1] == pre[x1]);
                assert(r[j2] == pre[x2]);
                assert(fin[j1] == pre_src[x1]);
                assert(fin[j2] == pre_src[x2]);
                assert(pre_keys[x1] == seq![pre[x1].start@ as i128, pre[x1].end@ as i128]);
                assert(pre_keys[x2] == seq![pre[x2].start@ as i128, pre[x2].end@ as i128]);
                lemma_pair_key_order(
                    pre[x1].start@ as i128,
                    pre[x1].end@ as i128,
                    pre[x2].start@ as i128,
                    pre[x2].end@ as i128,
                );
                if !seq_lt(pre_keys[x1], pre_keys[x2]) {
                    assert(x1 < x2);
                    assert(lex_lt2(pre_src[x1], pre_src[x2]));
                }
            }
            assert forall|i: int, x: int|
                0 <= i < ss.len() && #[trigger] active_local_occurrence(ss[i], now@, x) implies lists(
                    fin,
                    i,
                    x,
                ) by {
                let y = choose|y: int| 0 <= y < pre_src.len() && pre_src[y] == (i, x);
                assert(takes(perm, y));
                let j = choose|j: int| 0 <= j < perm.len() && perm[j] == y;
                assert(fin[j] == (i, x));
            }
            assert(schedule_listing(ss, now@, r, fin));
        }
        sorted
    }

    /// The next window after `after` with the least `(start, end)` among the
    /// schedules' next windows; among equal bounds, the one of the earlier
    /// schedule.
    fn next_window(&self, after: Timestamp) -> (r: Option<Window<M>>)
        ensures
            r is None <==> forall|i: int|
                0 <= i < self.spec_schedules().len() ==> #[trigger] schedule_next(
                    self.spec_schedules()[i],
                    after@,
                ) is None,
            r matches Some(w) ==> exists|i: int| #[trigger]
                earliest_schedule(self.spec_schedules(), after@, w, i),
    {
        proof {
            use_type_invariant(self);
        }
        let ghost ss = self.spec_schedules();
        let mut best: Option<Window<M>> = None;
        let ghost mut bi: int = 0;
        let mut si: usize = 0;
        while si < self.schedules.len()
            invariant
                ss == self.spec_schedules(),
                ss.len() == self.schedules.len(),
                forall|i: int| 0 <= i < ss.len() ==> schedule_valid(#[trigger] ss[i]),
                si <= ss.len(),
                best is None ==> forall|i2: int|
                    0 <= i2 < si ==> #[trigger] schedule_next(ss[i2], after@) is None,
                best matches Some(w) ==> {
                    &&& 0 <= bi < si
                    &&& schedule_next(ss[bi], after@) == Some((w.start@, w.end@))
                    &&& cloned(ss[bi].meta, w.meta)
                    &&& forall|i2: int|
                        0 <= i2 < si && #[trigger] schedule_next(ss[i2], after@) is Some ==> {
                            let (s2, e2) = schedule_next(ss[i2], after@)->0;
                            lex_lt2((w.start@, w.end@), (s2, e2)) || (w.start@ == s2 && w.end@ == e2
                                && bi <= i2)
                        }
                },
            decreases ss.len() - si,
        {
            let schedule = &self.schedules[si];
            assert(schedule_valid(ss[si as int]));
            let candidate = match schedule.rule {
                ScheduleRule::Minutely { .. } => Self::minutely_next_after(schedule, after),
                ScheduleRule::Hourly { .. } => Self::hourly_next_after(schedule, after),
                ScheduleRule::Daily { .. }
                | ScheduleRule::Weekly { .. }
                | ScheduleRule::Monthly { .. }
                | ScheduleRule::Yearly { .. } => Self::daily_like_next_after(schedule, after),
            };
            let ghost old_best = best;
            let ghost sii = si as int;
            if let Some(window) = candidate {
                let keep = match &best {
                    Some(current) => current.start.unix_nanos() < window.start.unix_nanos() || (
                    current.start.unix_nanos() == window.start.unix_nanos()
                        && current.end.unix_nanos() <= window.end.unix_nanos()),
                    None => false,
                };
                if !keep {
                    proof {
                        bi = sii;
                    }
                    best = Some(window);
                }
            }
            proof {
                assert(schedule_next(ss[sii], after@) is Some <==> candidate is Some);
            }
            si = si + 1;
        }
        proof {
            if best is Some {
                assert(earliest_schedule(ss, after@, best->Some_0, bi));
            }
        }
        best
    }
}


/// Scanning dates for a date-based schedule only yields a window that
/// starts strictly after `after` and is non-empty.
proof fn lemma_daily_scan_progress<M>(s: Schedule<M>, after: int, d: int)
    ensures
        daily_scan(s, after, d) matches Some((st, en)) ==> st > after && st < en,
    decreases MAX_DAY - d,
{
    if in_day_range(d) && d < MAX_DAY {
        if !(day_matches(s.rule, d) && (localized(
            s.timezone@,
            d * NANOS_PER_DAY + nanos_of_day(s.at@),
        ) matches Some(st) && st > after)) {
            lemma_daily_scan_progress(s, after, d + 1);
        }
    }
}

/// Scanning grid times for a clock-based schedule only yields a window that
/// starts strictly after `after` and is non-empty.
proof fn lemma_grid_scan_progress<M>(s: Schedule<M>, period: int, unit: int, off: int, after: int, c: int)
    ensures
        grid_scan(s, period, unit, off, after, c) matches Some((st, en)) ==> st > after && st < en,
    decreases MAX_UTC_NANOS - c,
{
    if in_utc_range(c) {
        if !(localized(s.timezone@, c) matches Some(st) && st > after) {
            let n = next_on_grid(period, unit, rule_every(s.rule), off, c);
            if c < n <= MAX_UTC_NANOS {
                lemma_grid_scan_progress(s, period, unit, off, after, n);
            }
        }
    }
}

/// The date scan of a date-based schedule from local date `d` stops at the
/// first matching date `e` whose occurrence denotes an instant strictly after
/// `after`, and yields that occurrence's window; every matching date before
/// `e` has no such occurrence.
pub proof fn lemma_daily_scan_is_least<M>(s: Schedule<M>, after: int, d: int) -> (e: int)
    requires
        daily_scan(s, after, d) is Some,
    ensures
        d <= e,
        in_day_range(e),
        day_matches(s.rule, e),
        localized(s.timezone@, e * NANOS_PER_DAY + nanos_of_day(s.at@)) matches Some(st) && st
            > after,
        daily_scan(s, after, d) == local_window(
            s.timezone@,
            s.duration@,
            e * NANOS_PER_DAY + nanos_of_day(s.at@),
        ),
        forall|e2: int|
            d <= e2 < e && #[trigger] day_matches(s.rule, e2) ==> !(localized(
                s.timezone@,
                e2 * NANOS_PER_DAY + nanos_of_day(s.at@),
            ) matches Some(x) && x > after),
    decreases MAX_DAY - d,
{
    if day_matches(s.rule, d) && (localized(
        s.timezone@,
        d * NANOS_PER_DAY + nanos_of_day(s.at@),
    ) matches Some(st) && st > after) {
        d
    } else {
        lemma_daily_scan_is_least(s, after, d + 1)
    }
}

/// The grid scan of a clock-based schedule from grid time `c` stops at the
/// first grid time `w` from `c` whose local time denotes an instant strictly
/// after `after`, and yields that occurrence's window; every grid time
/// between `c` and `w` has no such instant (it lies in a gap, or denotes an
/// instant not after `after`).
pub proof fn lemma_grid_scan_is_least<M>(
    s: Schedule<M>,
    count: int,
    unit: int,
    off: int,
    after: int,
    c: int,
) -> (w: int)
    requires
        count > 0,
        unit > 0,
        rule_every(s.rule) > 0,
        0 <= off < unit,
        on_grid(count * unit, unit, rule_every(s.rule) as int, off, c),
        grid_scan(s, count * unit, unit, off, after, c) is Some,
    ensures
        c <= w,
        in_utc_range(w),
        on_grid(count * unit, unit, rule_every(s.rule) as int, off, w),
        localized(s.timezone@, w) matches Some(st) && st > after,
        grid_scan(s, count * unit, unit, off, after, c) == local_window(s.timezone@, s.duration@, w),
        forall|c2: int|
            c <= c2 < w && #[trigger] on_grid(count * unit, unit, rule_every(s.rule) as int, off, c2)
                ==> !(localized(s.timezone@, c2) matches Some(x) && x > after),
    decreases MAX_UTC_NANOS - c,
{
    let period = count * unit;
    let every = rule_every(s.rule) as int;
    if localized(s.timezone@, c) matches Some(st) && st > after {
        c
    } else {
        let n = next_on_grid(period, unit, every, off, c);
        lemma_next_on_grid_exists(count, unit, every, off, c);
        let w = lemma_grid_scan_is_least(s, count, unit, off, after, n);
        assert forall|c2: int|
            c <= c2 < w && #[trigger] on_grid(period, unit, every, off, c2) implies !(localized(
                s.timezone@,
                c2,
            ) matches Some(x) && x > after) by {
            if c < c2 && c2 < n {
                assert(n <= c2);
            }
        }
        w
    }
}

/// Every schedule's next window starts strictly after `after` and is
/// non-empty.
pub proof fn lemma_schedule_next_progress<M>(s: Schedule<M>, after: int)
    ensures
        schedule_next(s, after) matches Some((st, en)) ==> st > after && st < en,
{
    match wall_nanos_of(s.timezone@, after) {
        Some(la) => {
            lemma_daily_scan_progress(s, after, la / (NANOS_PER_DAY as int));
            let every = rule_every(s.rule);
            let day = NANOS_PER_DAY as int;
            let hour = NANOS_PER_HOUR as int;
            let minute = NANOS_PER_MINUTE as int;
            lemma_grid_scan_progress(s, hour, minute, minutely_offset(s.at@), after,
                next_on_grid(hour, minute, every, minutely_offset(s.at@), la));
            lemma_grid_scan_progress(s, day, hour, hourly_offset(s.at@), after,
                next_on_grid(day, hour, every, hourly_offset(s.at@), la));
        },
        None => {},
    }
}

/// Every window `active_windows` lists is active at `now`, and the list is
/// ordered by start, then end.
pub proof fn lemma_schedule_listed_windows_are_active_and_ordered<M: Clone>(
    ss: Seq<Schedule<M>>,
    now: int,
    r: Seq<Window<M>>,
    src: Seq<(int, int)>,
)
    requires
        schedule_listing(ss, now, r, src),
    ensures
        forall|j: int| 0 <= j < r.len() ==> (#[trigger] r[j]).active_at(now),
        forall|j1: int, j2: int|
            0 <= j1 < j2 < r.len() ==> (#[trigger] r[j1]).start@ < (#[trigger] r[j2]).start@ || (
            r[j1].start@ == r[j2].start@ && r[j1].end@ <= r[j2].end@),
{
    assert forall|j: int| 0 <= j < r.len() implies (#[trigger] r[j]).active_at(now) by {
        assert(active_local_occurrence(ss[src[j].0], now, src[j].1));
    }
    assert forall|j1: int, j2: int| 0 <= j1 < j2 < r.len() implies (#[trigger] r[j1]).start@ < (
    #[trigger] r[j2]).start@ || (r[j1].start@ == r[j2].start@ && r[j1].end@ <= r[j2].end@) by {
        assert(lex_lt4(
            (r[j1].start@, r[j1].end@, src[j1].0, src[j1].1),
            (r[j2].start@, r[j2].end@, src[j2].0, src[j2].1),
        ));
    }
}

/// A local time that does not exist in the zone (a gap) has no window; an
/// ambiguous one (a fold) starts at the first of the two instants.
pub proof fn lemma_dst_handling(zone: Seq<char>, duration: int, wall: int)
    ensures
        zone_local_mapping(zone, wall / (NANOS_PER_SECOND as int), wall % (NANOS_PER_SECOND as int))
            is Nonexistent ==> local_window(zone, duration, wall) is None,
        zone_local_mapping(zone, wall / (NANOS_PER_SECOND as int), wall % (NANOS_PER_SECOND as int))
            matches LocalMapping::Ambiguous(s1, n1, s2, n2) ==> (local_window(zone, duration, wall)
            matches Some((st, en)) ==> st == s1 * NANOS_PER_SECOND + n1),
{
}

/// A source keeps its schedules ordered by zone name, rule, local start time
/// and duration.
pub proof fn lemma_schedules_kept_in_key_order<M>(out: Seq<Schedule<M>>, inp: Seq<Schedule<M>>)
    requires
        is_stable_sort_of(out, inp, schedule_keys(inp)),
    ensures
        forall|j1: int, j2: int|
            0 <= j1 < j2 < out.len() ==> crate::sort::seq_le(
                schedule_key(#[trigger] out[j1]),
                schedule_key(#[trigger] out[j2]),
            ),
{
    let perm = choose|perm: Seq<int>| stably_sorted_by(out, inp, schedule_keys(inp), perm);
    assert forall|j1: int, j2: int| 0 <= j1 < j2 < out.len() implies crate::sort::seq_le(
        schedule_key(#[trigger] out[j1]),
        schedule_key(#[trigger] out[j2]),
    ) by {
        assert(schedule_keys(inp)[perm[j1]] == schedule_key(out[j1]));
        assert(schedule_keys(inp)[perm[j2]] == schedule_key(out[j2]));
    }
}

/// When a schedule has an occurrence, stated directly on the local time `w`
/// (nanoseconds since 1970-01-01T00:00 on the wall clock):
/// - minutely: at `at`'s second within the minute, in minutes of the hour
///   that are multiples of `every`;
/// - hourly: at `at`'s minute and second within the hour, in hours of the
///   day that are multiples of `every`;
/// - the other rules: at `at` within the day, on local dates counted from
///   1970-01-01 (a Thursday), namely every `every`-th day; any weekday of
///   the whole list in every `every`-th week since the week of 1970-01-01;
///   day `day` of every `every`-th month since January 1970; `month`/`day`
///   of every `every`-th year since 1970.
pub proof fn lemma_occurrence_times<M>(s: Schedule<M>, w: int)
    requires
        rule_every(s.rule) > 0,
    ensures
        occurs_at(s, w) <==> {
            let at = s.at@;
            let minute = NANOS_PER_MINUTE as int;
            let hour = NANOS_PER_HOUR as int;
            let day = NANOS_PER_DAY as int;
            let d = w / day;
            let (y, mo, dom) = civil_of_day(d);
            match s.rule {
                ScheduleRule::Minutely { every } => w % minute == at.2 * NANOS_PER_SECOND + at.3
                    && ((w % hour) / minute) % (every as int) == 0,
                ScheduleRule::Hourly { every } => w % hour == at.1 * NANOS_PER_MINUTE + at.2
                    * NANOS_PER_SECOND + at.3 && ((w % day) / hour) % (every as int) == 0,
                ScheduleRule::Daily { every } => w % day == nanos_of_day(at) && d >= 0 && d % (
                every as int) == 0,
                ScheduleRule::Weekly { every, weekdays } => {
                    &&& w % day == nanos_of_day(at)
                    &&& exists|i: int|
                        0 <= i < weekdays@.len() && (#[trigger] weekdays@[i]).index() == (d + 3) % 7
                    &&& d + 3 >= 0
                    &&& ((d + 3) / 7) % (every as int) == 0
                },
                ScheduleRule::Monthly { every, day: md } => {
                    &&& w % day == nanos_of_day(at)
                    &&& dom == md
                    &&& 12 * (y - 1970) + (mo - 1) >= 0
                    &&& (12 * (y - 1970) + (mo - 1)) % (every as int) == 0
                },
                ScheduleRule::Yearly { every, month, day: yd } => {
                    &&& w % day == nanos_of_day(at)
                    &&& mo == month
                    &&& dom == yd
                    &&& y >= 1970
                    &&& (y - 1970) % (every as int) == 0
                },
            }
        },
{
    let d = w / (NANOS_PER_DAY as int);
    if s.rule is Weekly {
        vstd::arithmetic::div_mod::lemma_fundamental_div_mod(d + 3, 7);
        assert(weekly_monday(d) - weekly_monday(0) == 7 * ((d + 3) / 7));
        vstd::arithmetic::div_mod::lemma_div_multiples_vanish((d + 3) / 7, 7);
    }
}

/// A clock-based scan from a grid time `c` no later than a grid time `w`
/// whose local time denotes an instant after `after` stops at such a grid
/// time no later than `w`.
proof fn lemma_grid_scan_reaches<M>(
    s: Schedule<M>,
    count: int,
    unit: int,
    off: int,
    after: int,
    c: int,
    w: int,
) -> (w2: int)
    requires
        count > 0,
        unit > 0,
        rule_every(s.rule) > 0,
        0 <= off < unit,
        on_grid(count * unit, unit, rule_every(s.rule), off, c),
        on_grid(count * unit, unit, rule_every(s.rule), off, w),
        MIN_UTC_NANOS <= c <= w,
        localized(s.timezone@, w) matches Some(st) && st > after,
    ensures
        c <= w2 <= w,
        on_grid(count * unit, unit, rule_every(s.rule), off, w2),
        localized(s.timezone@, w2) matches Some(x) && x > after,
        grid_scan(s, count * unit, unit, off, after, c) == local_window(s.timezone@, s.duration@, w2),
    decreases w - c,
{
    if localized(s.timezone@, c) matches Some(x) && x > after {
        c
    } else {
        let every = rule_every(s.rule);
        let n = next_on_grid(count * unit, unit, every, off, c);
        lemma_next_on_grid_exists(count, unit, every, off, c);
        assert(n <= w);
        lemma_grid_scan_reaches(s, count, unit, off, after, n, w)
    }
}

/// A date scan from local date `d` no later than a matching date `e` whose
/// occurrence denotes an instant after `after` stops at such a date no later
/// than `e`.
proof fn lemma_daily_scan_reaches<M>(s: Schedule<M>, after: int, d: int, e: int) -> (e2: int)
    requires
        MIN_DAY <= d <= e,
        0 <= nanos_of_day(s.at@) < NANOS_PER_DAY,
        day_matches(s.rule, e),
        localized(s.timezone@, e * NANOS_PER_DAY + nanos_of_day(s.at@)) matches Some(st) && st
            > after,
    ensures
        d <= e2 <= e,
        day_matches(s.rule, e2),
        localized(s.timezone@, e2 * NANOS_PER_DAY + nanos_of_day(s.at@)) matches Some(x) && x
            > after,
        daily_scan(s, after, d) == local_window(
            s.timezone@,
            s.duration@,
            e2 * NANOS_PER_DAY + nanos_of_day(s.at@),
        ),
    decreases e - d,
{
    assert(e <= MAX_DAY) by {
        assert(MAX_DAY * NANOS_PER_DAY + NANOS_PER_DAY - 1 == MAX_UTC_NANOS);
        assert(e * NANOS_PER_DAY + nanos_of_day(s.at@) <= MAX_UTC_NANOS);
        if e > MAX_DAY {
            assert(e * NANOS_PER_DAY >= (MAX_DAY + 1) * NANOS_PER_DAY) by (nonlinear_arith)
                requires
                    e >= MAX_DAY + 1,
            ;
        }
    }
    if day_matches(s.rule, d) && (localized(
        s.timezone@,
        d * NANOS_PER_DAY + nanos_of_day(s.at@),
    ) matches Some(x) && x > after) {
        d
    } else {
        lemma_daily_scan_reaches(s, after, d + 1, e)
    }
}

/// The next window of a schedule is the window of its first occurrence:
/// for any occurrence at a local time `w` after the wall clock at `after`
/// whose instant is after `after`, the next window is that of an occurrence
/// at a local time no later than `w` whose instant is after `after`. So
/// `next_window` and `active_windows` go by the same occurrences.
pub proof fn lemma_next_window_is_first_occurrence<M>(s: Schedule<M>, after: int, w: int) -> (w2: int)
    requires
        schedule_valid(s),
        valid_time_of_day(s.at@.0, s.at@.1, s.at@.2, s.at@.3),
        wall_nanos_of(s.timezone@, after) matches Some(la) && la < w,
        occurs_at(s, w),
        localized(s.timezone@, w) matches Some(st) && st > after,
    ensures
        w2 <= w,
        occurs_at(s, w2),
        localized(s.timezone@, w2) matches Some(x) && x > after,
        schedule_next(s, after) == local_window(s.timezone@, s.duration@, w2),
{
    let la = wall_nanos_of(s.timezone@, after)->Some_0;
    let every = rule_every(s.rule);
    let minute = NANOS_PER_MINUTE as int;
    let hour = NANOS_PER_HOUR as int;
    let day = NANOS_PER_DAY as int;
    match s.rule {
        ScheduleRule::Minutely { .. } => {
            let off = minutely_offset(s.at@);
            assert(60 * minute == hour);
            lemma_next_on_grid_exists(60, minute, every, off, la);
            let c0 = next_on_grid(hour, minute, every, off, la);
            lemma_grid_scan_reaches(s, 60, minute, off, after, c0, w)
        },
        ScheduleRule::Hourly { .. } => {
            let off = hourly_offset(s.at@);
            assert(24 * hour == day);
            lemma_next_on_grid_exists(24, hour, every, off, la);
            let c0 = next_on_grid(day, hour, every, off, la);
            lemma_grid_scan_reaches(s, 24, hour, off, after, c0, w)
        },
        _ => {
            let nod = nanos_of_day(s.at@);
            let d0 = la / day;
            let e = w / day;
            vstd::arithmetic::div_mod::lemma_fundamental_div_mod(la, day);
            vstd::arithmetic::div_mod::lemma_fundamental_div_mod(w, day);
            assert(w == e * day + nod);
            assert(d0 <= e) by {
                if d0 > e {
                    assert(d0 * day >= (e + 1) * day) by (nonlinear_arith)
                        requires
                            d0 >= e + 1,
                            day > 0,
                    ;
                }
            }
            assert(MIN_DAY <= d0) by {
                assert(MIN_DAY * NANOS_PER_DAY == MIN_UTC_NANOS);
                if d0 < MIN_DAY {
                    assert((d0 + 1) * day <= MIN_DAY * day) by (nonlinear_arith)
                        requires
                            d0 + 1 <= MIN_DAY,
                            day > 0,
                    ;
                }
            }
            let e2 = lemma_daily_scan_reaches(s, after, d0, e);
            let w2 = e2 * day + nod;
            vstd::arithmetic::div_mod::lemma_fundamental_div_mod_converse(w2, day, e2, nod);
            assert(w2 <= w) by (nonlinear_arith)
                requires
                    e2 <= e,
                    w == e * day + nod,
                    w2 == e2 * day + nod,
                    day > 0,
            ;
            w2
        },
    }
}

/// A source accepts a schedule with a positive duration that fits in `i64`
/// nanoseconds exactly when its rule is sound: `every` is not zero, and a
/// weekly rule lists at least one weekday, a monthly rule names a day from
/// 1 to 31, and a yearly rule names a month and day that form a date of the
/// leap year 2000 (so that 29 February is accepted and 30 February not).
pub proof fn lemma_schedule_accepted<M>(s: Schedule<M>, r: Result<ScheduleSource<M>, ScheduleSourceError>)
    requires
        built_from_schedule(s, r),
        0 < s.duration@ <= i64::MAX,
    ensures
        r is Ok <==> match s.rule {
            ScheduleRule::Weekly { every, weekdays } => every != 0 && weekdays@.len() > 0,
            ScheduleRule::Monthly { every, day } => every != 0 && 1 <= day <= 31,
            ScheduleRule::Yearly { every, month, day } => every != 0 && civil_date_exists(
                2000,
                month as int,
                day as int,
            ),
            ScheduleRule::Minutely { every } => every != 0,
            ScheduleRule::Hourly { every } => every != 0,
            ScheduleRule::Daily { every } => every != 0,
        },
{
}

} // verus!
