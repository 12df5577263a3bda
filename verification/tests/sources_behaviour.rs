use chrono::{TimeZone, Utc};
use timewindow::sort::stable_sort;
use timewindow::sources::grid::first_on_grid_after;
use timewindow::zone::date_exists;
use timewindow::{
    DerivedWindowSource, Duration, IntervalPattern, IntervalSource, IntervalSourceError,
    NextWindows, Schedule, ScheduleRule, ScheduleSource, ScheduleSourceError, TimeOfDay, Timestamp,
    Weekday, Window, WindowSource, WindowSourceExt, Zone,
};

fn dt(y: i32, m: u32, d: u32, hh: u32, mm: u32, ss: u32) -> Timestamp {
    let t = Utc.with_ymd_and_hms(y, m, d, hh, mm, ss).unwrap();
    Timestamp::from_unix(t.timestamp(), t.timestamp_subsec_nanos()).unwrap()
}

fn time(h: u32, m: u32, s: u32) -> TimeOfDay {
    TimeOfDay::from_hms_opt(h, m, s).unwrap()
}

fn zone(name: &str) -> Zone {
    Zone::from_name(name).unwrap()
}

fn pattern(at: Duration, offset: Duration, every: Duration, duration: Duration) -> IntervalSourceError {
    IntervalSource::new(dt(2026, 3, 20, 0, 0, 0), vec![IntervalPattern::new(at, offset, every, duration, ())])
        .unwrap_err()
}

#[test]
fn interval_errors_for_out_of_range_fields() {
    let big = Duration::days(200_000);
    assert_eq!(pattern(big, Duration::zero(), Duration::hours(1), Duration::hours(1)), IntervalSourceError::AtOutOfRange);
    assert_eq!(pattern(Duration::zero(), big, Duration::hours(1), Duration::hours(1)), IntervalSourceError::OffsetOutOfRange);
    assert_eq!(pattern(Duration::zero(), Duration::zero(), big, Duration::hours(1)), IntervalSourceError::EveryOutOfRange);
    assert_eq!(pattern(Duration::zero(), Duration::zero(), Duration::hours(1), big), IntervalSourceError::DurationOutOfRange);
    assert_eq!(IntervalSourceError::EmptyPattern.to_string(), "pattern must not be empty");
    assert_eq!(
        IntervalSourceError::DurationOutOfRange.to_string(),
        "pattern duration is out of range for nanosecond precision"
    );
}

#[test]
fn interval_entries_are_kept_in_key_order() {
    let src = IntervalSource::new(
        dt(2026, 3, 20, 0, 0, 0),
        vec![
            IntervalPattern::new(Duration::hours(2), Duration::zero(), Duration::days(1), Duration::hours(1), "late"),
            IntervalPattern::new(Duration::hours(1), Duration::zero(), Duration::days(1), Duration::hours(1), "early"),
            IntervalPattern::new(Duration::hours(1), Duration::zero(), Duration::days(1), Duration::hours(1), "early-2"),
        ],
    )
    .unwrap();
    let metas: Vec<&str> = src.pattern().iter().map(|p| p.meta).collect();
    assert_eq!(metas, vec!["early", "early-2", "late"]);
    assert_eq!(src.anchor(), dt(2026, 3, 20, 0, 0, 0));
}

#[test]
fn equal_windows_keep_entry_order() {
    let src = IntervalSource::new(
        dt(2026, 3, 20, 0, 0, 0),
        vec![
            IntervalPattern::new(Duration::hours(1), Duration::zero(), Duration::days(1), Duration::hours(1), "first"),
            IntervalPattern::new(Duration::hours(1), Duration::zero(), Duration::days(1), Duration::hours(1), "second"),
        ],
    )
    .unwrap();
    let active = src.active_windows(dt(2026, 3, 21, 1, 30, 0));
    assert_eq!(active.iter().map(|w| w.meta).collect::<Vec<_>>(), vec!["first", "second"]);
    let next = src.next_window(dt(2026, 3, 21, 0, 0, 0)).unwrap();
    assert_eq!(next.meta, "first");
}

#[test]
fn walk_yields_strictly_increasing_starts() {
    let src = IntervalSource::single(
        dt(2026, 3, 20, 0, 0, 0),
        Duration::zero(),
        Duration::zero(),
        Duration::hours(1),
        Duration::hours(3),
        "x",
    )
    .unwrap();
    let mut walk = src.next_windows_from(dt(2026, 3, 20, 0, 30, 0));
    let a = walk.next().unwrap();
    let b = walk.next().unwrap();
    let c = walk.next().unwrap();
    assert_eq!(a.start, dt(2026, 3, 20, 1, 0, 0));
    assert_eq!(b.start, dt(2026, 3, 20, 2, 0, 0));
    assert_eq!(c.start, dt(2026, 3, 20, 3, 0, 0));
    assert_eq!(walk.current_cursor(), c.start);
}

#[test]
fn walk_stops_on_non_progressing_window() {
    let src = IntervalSource::single(
        dt(2026, 3, 20, 0, 0, 0),
        Duration::zero(),
        Duration::zero(),
        Duration::hours(1),
        Duration::hours(1),
        (),
    )
    .unwrap();
    let from = dt(2026, 3, 20, 5, 0, 0);
    let mut walk = NextWindows::new(&src, from);
    let stale = Window::new(from, dt(2026, 3, 20, 6, 0, 0), ()).unwrap();
    assert!(walk.advance_with(Some(stale)).is_none());
    assert_eq!(walk.current_cursor(), from);
    assert!(walk.advance_with(None).is_none());
}

struct Labelled {
    inner: IntervalSource<&'static str>,
}

impl DerivedWindowSource for Labelled {
    type Source = IntervalSource<&'static str>;
    type Meta = String;

    fn source(&self) -> &Self::Source {
        &self.inner
    }

    fn map_window(&self, window: Window<&'static str>) -> Window<String> {
        Window { start: window.start, end: window.end, meta: format!("label:{}", window.meta) }
    }
}

#[test]
fn derived_source_maps_windows() {
    let derived = Labelled {
        inner: IntervalSource::single(
            dt(2026, 3, 20, 0, 0, 0),
            Duration::hours(9),
            Duration::zero(),
            Duration::days(1),
            Duration::hours(3),
            "m",
        )
        .unwrap(),
    };
    let next = derived.next_window(dt(2026, 3, 20, 0, 0, 0)).unwrap();
    assert_eq!(next.meta, "label:m");
    assert_eq!(next.start, dt(2026, 3, 20, 9, 0, 0));
    let active = derived.active_windows(dt(2026, 3, 20, 10, 0, 0));
    assert_eq!(active.len(), 1);
    assert_eq!(active[0].meta, "label:m");
}

fn schedule_error(rule: ScheduleRule, duration: Duration) -> ScheduleSourceError {
    ScheduleSource::single(Schedule::new(zone("UTC"), rule, time(12, 0, 0), duration, ())).unwrap_err()
}

#[test]
fn schedule_errors_for_each_rule_check() {
    assert_eq!(schedule_error(ScheduleRule::Daily { every: 1 }, Duration::days(200_000)), ScheduleSourceError::DurationOutOfRange);
    assert_eq!(schedule_error(ScheduleRule::Hourly { every: 0 }, Duration::hours(1)), ScheduleSourceError::InvalidRule);
    assert_eq!(schedule_error(ScheduleRule::Monthly { every: 1, day: 32 }, Duration::hours(1)), ScheduleSourceError::InvalidDayOfMonth);
    assert_eq!(schedule_error(ScheduleRule::Yearly { every: 1, month: 13, day: 1 }, Duration::hours(1)), ScheduleSourceError::InvalidMonth);
    assert_eq!(schedule_error(ScheduleRule::Yearly { every: 1, month: 4, day: 0 }, Duration::hours(1)), ScheduleSourceError::InvalidDayOfYear);
    assert!(ScheduleSource::single(Schedule::new(
        zone("UTC"),
        ScheduleRule::Yearly { every: 1, month: 2, day: 29 },
        time(12, 0, 0),
        Duration::hours(1),
        (),
    ))
    .is_ok());
    assert!(Zone::from_name("Not/AZone").is_none());
    assert_eq!(zone("Europe/Berlin").name(), "Europe/Berlin");
}

#[test]
fn minutely_occurrences_fall_on_multiples_of_every() {
    let source = ScheduleSource::single(Schedule::new(
        zone("UTC"),
        ScheduleRule::Minutely { every: 15 },
        time(0, 0, 30),
        Duration::minutes(1),
        (),
    ))
    .unwrap();
    let next = source.next_window(dt(2026, 3, 20, 10, 7, 10)).unwrap();
    assert_eq!(next.start, dt(2026, 3, 20, 10, 15, 30));
    let next = source.next_window(dt(2026, 3, 20, 10, 45, 30)).unwrap();
    assert_eq!(next.start, dt(2026, 3, 20, 11, 0, 30));
    let active = source.active_windows(dt(2026, 3, 20, 10, 15, 45));
    assert_eq!(active.len(), 1);
    assert_eq!(active[0].start, dt(2026, 3, 20, 10, 15, 30));
}

#[test]
fn hourly_occurrences_fall_on_multiples_of_every() {
    let source = ScheduleSource::single(Schedule::new(
        zone("UTC"),
        ScheduleRule::Hourly { every: 6 },
        time(0, 10, 0),
        Duration::hours(7),
        (),
    ))
    .unwrap();
    let next = source.next_window(dt(2026, 3, 20, 19, 0, 0)).unwrap();
    assert_eq!(next.start, dt(2026, 3, 21, 0, 10, 0));
    let active = source.active_windows(dt(2026, 3, 20, 12, 30, 0));
    assert_eq!(active.iter().map(|w| w.start).collect::<Vec<_>>(), vec![dt(2026, 3, 20, 6, 10, 0), dt(2026, 3, 20, 12, 10, 0)]);
}

#[test]
fn yearly_rule_recurs_every_n_years() {
    let source = ScheduleSource::single(Schedule::new(
        zone("UTC"),
        ScheduleRule::Yearly { every: 2, month: 7, day: 4 },
        time(9, 0, 0),
        Duration::hours(1),
        (),
    ))
    .unwrap();
    let next = source.next_window(dt(2026, 3, 20, 0, 0, 0)).unwrap();
    assert_eq!(next.start, dt(2026, 7, 4, 9, 0, 0));
    let next = source.next_window(dt(2026, 7, 4, 9, 0, 0)).unwrap();
    assert_eq!(next.start, dt(2028, 7, 4, 9, 0, 0));
}

#[test]
fn nonexistent_local_time_is_skipped() {
    // 2026-03-08 02:30 does not exist in New York.
    let source = ScheduleSource::single(Schedule::new(
        zone("America/New_York"),
        ScheduleRule::Daily { every: 1 },
        time(2, 30, 0),
        Duration::minutes(10),
        (),
    ))
    .unwrap();
    let next = source.next_window(dt(2026, 3, 8, 0, 0, 0)).unwrap();
    assert_eq!(next.start, dt(2026, 3, 9, 6, 30, 0));
}

#[test]
fn ambiguous_local_time_takes_the_earlier_instant() {
    // 2026-11-01 01:30 happens twice in New York; the first is 05:30 UTC.
    let source = ScheduleSource::single(Schedule::new(
        zone("America/New_York"),
        ScheduleRule::Daily { every: 1 },
        time(1, 30, 0),
        Duration::minutes(10),
        (),
    ))
    .unwrap();
    let next = source.next_window(dt(2026, 11, 1, 0, 0, 0)).unwrap();
    assert_eq!(next.start, dt(2026, 11, 1, 5, 30, 0));
}

#[test]
fn long_windows_are_found_from_earlier_days() {
    let source = ScheduleSource::single(Schedule::new(
        zone("UTC"),
        ScheduleRule::Weekly { every: 1, weekdays: vec![Weekday::Mon] },
        time(0, 0, 0),
        Duration::days(3),
        "long",
    ))
    .unwrap();
    let active = source.active_windows(dt(2026, 3, 18, 12, 0, 0));
    assert_eq!(active.len(), 1);
    assert_eq!(active[0].start, dt(2026, 3, 16, 0, 0, 0));
    assert_eq!(source.schedules().len(), 1);
}

#[test]
fn grid_search_finds_the_first_time_after() {
    let minute = 60_000_000_000i128;
    // grid: minutes 0, 20, 40 of every hour at second 5
    let off = 5_000_000_000i128;
    assert_eq!(first_on_grid_after(60, minute, 20, off, 0), off);
    assert_eq!(first_on_grid_after(60, minute, 20, off, off), 20 * minute + off);
    assert_eq!(first_on_grid_after(60, minute, 20, off, 41 * minute), 60 * minute + off);
    assert_eq!(first_on_grid_after(60, minute, 20, off, -1), off);
}

#[test]
fn stable_sort_orders_by_key_and_keeps_ties() {
    let items = vec!["c", "a1", "b", "a2"];
    let keys = vec![vec![3i128], vec![1], vec![2], vec![1]];
    assert_eq!(stable_sort(items, keys), vec!["a1", "a2", "b", "c"]);
    let items = vec!["long", "short"];
    let keys = vec![vec![5i128, 1], vec![5i128]];
    assert_eq!(stable_sort(items, keys), vec!["short", "long"]);
}

#[test]
fn cloned_sources_behave_alike() {
    let src = IntervalSource::single(
        dt(2026, 3, 20, 0, 0, 0),
        Duration::hours(9),
        Duration::zero(),
        Duration::days(1),
        Duration::hours(3),
        String::from("m"),
    )
    .unwrap();
    let copy = src.clone();
    assert_eq!(copy, src);
    let after = dt(2026, 3, 20, 0, 0, 0);
    assert_eq!(copy.next_window(after), src.next_window(after));

    let sched = ScheduleSource::single(Schedule::new(
        zone("Europe/Berlin"),
        ScheduleRule::Weekly { every: 1, weekdays: vec![Weekday::Wed] },
        time(8, 0, 0),
        Duration::hours(1),
        String::from("w"),
    ))
    .unwrap();
    let copy = sched.clone();
    assert_eq!(copy, sched);
    assert_eq!(copy.next_window(after), sched.next_window(after));
}

#[test]
fn yearly_rule_finds_occurrences_many_years_ahead() {
    let source = ScheduleSource::single(Schedule::new(
        zone("UTC"),
        ScheduleRule::Yearly { every: 12, month: 1, day: 1 },
        time(12, 0, 0),
        Duration::hours(1),
        "y",
    ))
    .unwrap();
    let next = source.next_window(dt(2030, 1, 1, 12, 0, 0)).unwrap();
    assert_eq!(next, Window::new(dt(2042, 1, 1, 12, 0, 0), dt(2042, 1, 1, 13, 0, 0), "y").unwrap());
}

#[test]
fn hourly_rule_skips_a_nonexistent_local_time() {
    // 2026-03-08 02:30 does not exist in New York; 03:30 EDT is 07:30 UTC.
    let source = ScheduleSource::single(Schedule::new(
        zone("America/New_York"),
        ScheduleRule::Hourly { every: 1 },
        time(0, 30, 0),
        Duration::minutes(10),
        "h",
    ))
    .unwrap();
    let next = source.next_window(dt(2026, 3, 8, 6, 45, 0)).unwrap();
    assert_eq!(next.start, dt(2026, 3, 8, 7, 30, 0));
}

#[test]
fn hourly_rule_moves_past_a_repeated_local_time() {
    // At 01:10 EST (06:10 UTC) on 2026-11-01 the local 01:30 of the fold maps
    // to 05:30 UTC, before `after`; the next occurrence is 02:30 EST.
    let source = ScheduleSource::single(Schedule::new(
        zone("America/New_York"),
        ScheduleRule::Hourly { every: 1 },
        time(0, 30, 0),
        Duration::minutes(10),
        "h",
    ))
    .unwrap();
    let next = source.next_window(dt(2026, 11, 1, 6, 10, 0)).unwrap();
    assert_eq!(next.start, dt(2026, 11, 1, 7, 30, 0));
}

#[test]
fn single_builds_what_new_builds_from_one_entry() {
    let anchor = dt(2026, 3, 20, 0, 0, 0);
    let ok = IntervalSource::single(anchor, Duration::hours(1), Duration::zero(), Duration::days(1), Duration::hours(2), "a");
    let ok_new = IntervalSource::new(
        anchor,
        vec![IntervalPattern::new(Duration::hours(1), Duration::zero(), Duration::days(1), Duration::hours(2), "a")],
    );
    assert_eq!(ok, ok_new);
    let err = IntervalSource::single(anchor, Duration::zero(), Duration::zero(), Duration::zero(), Duration::hours(1), "a");
    let err_new = IntervalSource::new(
        anchor,
        vec![IntervalPattern::new(Duration::zero(), Duration::zero(), Duration::zero(), Duration::hours(1), "a")],
    );
    assert_eq!(err, err_new);
    assert!(err.is_err());

    let schedule = || Schedule::new(zone("UTC"), ScheduleRule::Daily { every: 1 }, time(9, 0, 0), Duration::hours(1), "s");
    assert_eq!(ScheduleSource::single(schedule()), ScheduleSource::new(vec![schedule()]));
    let bad = || Schedule::new(zone("UTC"), ScheduleRule::Daily { every: 0 }, time(9, 0, 0), Duration::hours(1), "s");
    assert_eq!(ScheduleSource::single(bad()), ScheduleSource::new(vec![bad()]));
    assert!(ScheduleSource::single(bad()).is_err());
}

#[test]
fn calendar_dates_follow_the_gregorian_rules() {
    assert!(date_exists(2024, 2, 29));
    assert!(!date_exists(2023, 2, 29));
    assert!(!date_exists(1900, 2, 29));
    assert!(date_exists(2000, 2, 29));
    assert!(!date_exists(2024, 2, 30));
    assert!(!date_exists(2024, 4, 31));
    assert!(date_exists(2024, 12, 31));
    assert!(!date_exists(2024, 13, 1));
    assert!(!date_exists(2024, 1, 0));
    assert!(!date_exists(400_000, 1, 1));
}

#[test]
fn long_window_started_days_ago_is_listed_once() {
    let source = ScheduleSource::single(Schedule::new(
        zone("America/New_York"),
        ScheduleRule::Monthly { every: 1, day: 1 },
        time(0, 0, 0),
        Duration::days(50),
        "m",
    ))
    .unwrap();
    let active = source.active_windows(dt(2026, 3, 20, 12, 0, 0));
    let starts: Vec<Timestamp> = active.iter().map(|w| w.start).collect();
    assert_eq!(starts, vec![dt(2026, 2, 1, 5, 0, 0), dt(2026, 3, 1, 5, 0, 0)]);
}
