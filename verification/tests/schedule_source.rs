use chrono::{TimeZone, Utc};
use timewindow::{
    Duration, Schedule, ScheduleRule, ScheduleSource, ScheduleSourceError, TimeOfDay, Timestamp,
    Weekday, WindowSource, Zone,
};

fn dt(y: i32, m: u32, d: u32, hh: u32, mm: u32, ss: u32) -> Timestamp {
    let t = Utc.with_ymd_and_hms(y, m, d, hh, mm, ss).unwrap();
    Timestamp::from_unix(t.timestamp(), t.timestamp_subsec_nanos()).unwrap()
}

fn time(h: u32, m: u32, s: u32) -> TimeOfDay {
    TimeOfDay::from_hms_opt(h, m, s).unwrap()
}

fn zone(name: &str) -> Zone {
    Zone::from_name(name).unwrap()
}

#[test]
fn rejects_empty_schedules() {
    let err = ScheduleSource::<()>::new(vec![]).unwrap_err();
    assert_eq!(err, ScheduleSourceError::EmptySchedules);
}

#[test]
fn rejects_zero_duration() {
    let err = ScheduleSource::single(Schedule::new(
        zone("America/New_York"),
        ScheduleRule::Daily { every: 1 },
        time(12, 0, 0),
        Duration::zero(),
        (),
    ))
    .unwrap_err();

    assert_eq!(err, ScheduleSourceError::NonPositiveDuration);
}

#[test]
fn rejects_empty_weekdays() {
    let err = ScheduleSource::single(Schedule::new(
        zone("America/New_York"),
        ScheduleRule::Weekly {
            every: 1,
            weekdays: vec![],
        },
        time(12, 0, 0),
        Duration::hours(1),
        (),
    ))
    .unwrap_err();

    assert_eq!(err, ScheduleSourceError::EmptyWeekdays);
}

#[test]
fn rejects_impossible_yearly_date() {
    let err = ScheduleSource::single(Schedule::new(
        zone("UTC"),
        ScheduleRule::Yearly {
            every: 1,
            month: 2,
            day: 30,
        },
        time(12, 0, 0),
        Duration::hours(1),
        (),
    ))
    .unwrap_err();

    assert_eq!(err, ScheduleSourceError::InvalidDayOfYear);
}

#[test]
fn weekly_next_window_works_in_timezone() {
    let source = ScheduleSource::single(Schedule::new(
        zone("America/New_York"),
        ScheduleRule::Weekly {
            every: 1,
            weekdays: vec![Weekday::Tue, Weekday::Fri],
        },
        time(12, 0, 0),
        Duration::hours(2),
        "lunch",
    ))
    .unwrap();

    let after = dt(2026, 3, 23, 0, 0, 0);
    let next = source.next_window(after).unwrap();

    assert_eq!(next.meta, "lunch");
    assert_eq!(next.start, dt(2026, 3, 24, 16, 0, 0));
    assert_eq!(next.end, dt(2026, 3, 24, 18, 0, 0));
}

#[test]
fn daily_next_window_respects_dst_offset() {
    let source = ScheduleSource::single(Schedule::new(
        zone("America/New_York"),
        ScheduleRule::Daily { every: 1 },
        time(12, 0, 0),
        Duration::hours(1),
        "noon",
    ))
    .unwrap();

    let before_dst = source.next_window(dt(2026, 3, 7, 18, 0, 0)).unwrap();
    let after_dst = source.next_window(dt(2026, 3, 8, 18, 0, 0)).unwrap();

    assert_eq!(before_dst.start, dt(2026, 3, 8, 16, 0, 0));
    assert_eq!(after_dst.start, dt(2026, 3, 9, 16, 0, 0));
}

#[test]
fn active_windows_can_overlap_across_schedules() {
    let source = ScheduleSource::new(vec![
        Schedule::new(
            zone("Europe/Berlin"),
            ScheduleRule::Daily { every: 1 },
            time(10, 0, 0),
            Duration::hours(3),
            "a",
        ),
        Schedule::new(
            zone("Europe/Berlin"),
            ScheduleRule::Daily { every: 1 },
            time(11, 0, 0),
            Duration::hours(3),
            "b",
        ),
    ])
    .unwrap();

    let berlin = chrono_tz::Europe::Berlin
        .with_ymd_and_hms(2026, 3, 20, 11, 30, 0)
        .unwrap()
        .with_timezone(&Utc);
    let now = Timestamp::from_unix(berlin.timestamp(), berlin.timestamp_subsec_nanos()).unwrap();

    let active = source.active_windows(now);
    assert_eq!(active.len(), 2);
    assert_eq!(active[0].meta, "a");
    assert_eq!(active[1].meta, "b");
}

#[test]
fn monthly_skips_missing_days() {
    let source = ScheduleSource::single(Schedule::new(
        zone("UTC"),
        ScheduleRule::Monthly { every: 1, day: 31 },
        time(12, 0, 0),
        Duration::hours(1),
        "month-end-ish",
    ))
    .unwrap();

    let next = source.next_window(dt(2026, 4, 1, 0, 0, 0)).unwrap();
    assert_eq!(next.start, dt(2026, 5, 31, 12, 0, 0));
}

#[test]
fn next_window_chooses_earliest_across_multiple_schedules() {
    let source = ScheduleSource::new(vec![
        Schedule::new(
            zone("America/New_York"),
            ScheduleRule::Weekly {
                every: 1,
                weekdays: vec![Weekday::Fri],
            },
            time(12, 0, 0),
            Duration::hours(1),
            "fri",
        ),
        Schedule::new(
            zone("Europe/Berlin"),
            ScheduleRule::Daily { every: 1 },
            time(9, 0, 0),
            Duration::hours(1),
            "daily",
        ),
    ])
    .unwrap();

    let next = source.next_window(dt(2026, 3, 19, 12, 0, 0)).unwrap();
    assert_eq!(next.meta, "daily");
}

#[test]
fn daily_every_two_has_stable_phase() {
    let source = ScheduleSource::single(Schedule::new(
        zone("UTC"),
        ScheduleRule::Daily { every: 2 },
        time(12, 0, 0),
        Duration::hours(1),
        "x",
    ))
    .unwrap();

    let next1 = source.next_window(dt(2026, 3, 20, 11, 0, 0)).unwrap();
    let next2 = source.next_window(dt(2026, 3, 21, 11, 0, 0)).unwrap();

    assert_eq!(next1.start, dt(2026, 3, 20, 12, 0, 0));
    assert_eq!(next2.start, dt(2026, 3, 22, 12, 0, 0));
}

#[test]
fn weekly_every_two_has_stable_phase() {
    let source = ScheduleSource::single(Schedule::new(
        zone("UTC"),
        ScheduleRule::Weekly {
            every: 2,
            weekdays: vec![Weekday::Mon],
        },
        time(12, 0, 0),
        Duration::hours(1),
        "x",
    ))
    .unwrap();

    let next1 = source.next_window(dt(2026, 3, 16, 0, 0, 0)).unwrap();
    let next2 = source.next_window(dt(2026, 3, 17, 0, 0, 0)).unwrap();

    assert!(next2.start >= next1.start);
    assert_eq!(next1.start.weekday(), Weekday::Mon);
    assert_eq!(next2.start.weekday(), Weekday::Mon);
}

#[test]
fn minutely_rolls_over_midnight_correctly() {
    let source = ScheduleSource::single(Schedule::new(
        zone("UTC"),
        ScheduleRule::Minutely { every: 30 },
        time(0, 0, 5),
        Duration::minutes(1),
        "tick",
    ))
    .unwrap();

    let next = source.next_window(dt(2026, 3, 20, 23, 59, 10)).unwrap();
    assert_eq!(next.start, dt(2026, 3, 21, 0, 0, 5));
}
