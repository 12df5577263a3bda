use chrono::{TimeZone, Utc};
use timewindow::{Duration, IntervalPattern, IntervalSource, IntervalSourceError, Timestamp, WindowSource};

fn dt(y: i32, m: u32, d: u32, hh: u32, mm: u32, ss: u32) -> Timestamp {
    let t = Utc.with_ymd_and_hms(y, m, d, hh, mm, ss).unwrap();
    Timestamp::from_unix(t.timestamp(), t.timestamp_subsec_nanos()).unwrap()
}

#[test]
fn rejects_empty_pattern() {
    let anchor = dt(2026, 3, 20, 0, 0, 0);
    let err = IntervalSource::<()>::new(anchor, vec![]).unwrap_err();

    assert_eq!(err, IntervalSourceError::EmptyPattern);
}

#[test]
fn rejects_negative_at() {
    let anchor = dt(2026, 3, 20, 0, 0, 0);
    let err = IntervalSource::new(
        anchor,
        vec![IntervalPattern::new(
            Duration::hours(-1),
            Duration::zero(),
            Duration::days(1),
            Duration::hours(1),
            (),
        )],
    )
    .unwrap_err();

    assert_eq!(err, IntervalSourceError::NegativeAt);
}

#[test]
fn rejects_non_positive_every() {
    let anchor = dt(2026, 3, 20, 0, 0, 0);
    let err = IntervalSource::new(
        anchor,
        vec![IntervalPattern::new(
            Duration::hours(1),
            Duration::zero(),
            Duration::zero(),
            Duration::hours(1),
            (),
        )],
    )
    .unwrap_err();

    assert_eq!(err, IntervalSourceError::NonPositiveEvery);
}

#[test]
fn rejects_non_positive_duration() {
    let anchor = dt(2026, 3, 20, 0, 0, 0);
    let err = IntervalSource::new(
        anchor,
        vec![IntervalPattern::new(
            Duration::hours(1),
            Duration::zero(),
            Duration::days(1),
            Duration::zero(),
            (),
        )],
    )
    .unwrap_err();

    assert_eq!(err, IntervalSourceError::NonPositiveDuration);
}

#[test]
fn next_window_chooses_earliest_across_patterns() {
    let anchor = dt(2026, 3, 20, 0, 0, 0);
    let src = IntervalSource::new(
        anchor,
        vec![
            IntervalPattern::new(
                Duration::hours(9),
                Duration::zero(),
                Duration::days(1),
                Duration::hours(3),
                "morning",
            ),
            IntervalPattern::new(
                Duration::hours(13),
                Duration::zero(),
                Duration::days(1),
                Duration::hours(4),
                "afternoon",
            ),
        ],
    )
    .unwrap();

    let after = dt(2026, 3, 20, 10, 0, 0);
    let next = src.next_window(after).unwrap();

    assert_eq!(next.start, dt(2026, 3, 20, 13, 0, 0));
    assert_eq!(next.end, dt(2026, 3, 20, 17, 0, 0));
    assert_eq!(next.meta, "afternoon");
}

#[test]
fn next_window_moves_to_later_occurrence() {
    let anchor = dt(2026, 3, 20, 0, 0, 0);
    let src = IntervalSource::new(
        anchor,
        vec![IntervalPattern::new(
            Duration::hours(9),
            Duration::zero(),
            Duration::days(1),
            Duration::hours(3),
            "morning",
        )],
    )
    .unwrap();

    let after = dt(2026, 3, 20, 23, 0, 0);
    let next = src.next_window(after).unwrap();

    assert_eq!(next.start, dt(2026, 3, 21, 9, 0, 0));
    assert_eq!(next.meta, "morning");
}

#[test]
fn active_windows_finds_multiple_entries() {
    let anchor = dt(2026, 3, 20, 0, 0, 0);
    let src = IntervalSource::new(
        anchor,
        vec![
            IntervalPattern::new(
                Duration::hours(9),
                Duration::zero(),
                Duration::days(1),
                Duration::hours(4),
                "a",
            ),
            IntervalPattern::new(
                Duration::hours(11),
                Duration::zero(),
                Duration::days(1),
                Duration::hours(4),
                "b",
            ),
        ],
    )
    .unwrap();

    let now = dt(2026, 3, 20, 11, 30, 0);
    let active = src.active_windows(now);

    assert_eq!(active.len(), 2);
    assert_eq!(active[0].meta, "a");
    assert_eq!(active[1].meta, "b");
}

#[test]
fn active_windows_finds_overlap_from_same_pattern() {
    let anchor = dt(2026, 3, 20, 0, 0, 0);
    let src = IntervalSource::new(
        anchor,
        vec![IntervalPattern::new(
            Duration::hours(23),
            Duration::zero(),
            Duration::days(1),
            Duration::hours(3),
            "late",
        )],
    )
    .unwrap();

    let now = dt(2026, 3, 21, 1, 0, 0);
    let active = src.active_windows(now);

    assert_eq!(active.len(), 1);
    assert_eq!(active[0].start, dt(2026, 3, 20, 23, 0, 0));
    assert_eq!(active[0].end, dt(2026, 3, 21, 2, 0, 0));
    assert_eq!(active[0].meta, "late");
}

#[test]
fn active_windows_finds_multiple_overlapping_occurrences_of_same_pattern() {
    let anchor = dt(2026, 3, 20, 0, 0, 0);
    let src = IntervalSource::new(
        anchor,
        vec![IntervalPattern::new(
            Duration::minutes(0),
            Duration::zero(),
            Duration::hours(1),
            Duration::hours(3),
            "x",
        )],
    )
    .unwrap();

    let now = dt(2026, 3, 20, 2, 30, 0);
    let active = src.active_windows(now);

    assert_eq!(active.len(), 3);
    assert_eq!(active[0].start, dt(2026, 3, 20, 0, 0, 0));
    assert_eq!(active[1].start, dt(2026, 3, 20, 1, 0, 0));
    assert_eq!(active[2].start, dt(2026, 3, 20, 2, 0, 0));
}

#[test]
fn single_constructor_works() {
    let anchor = dt(2026, 3, 20, 0, 0, 0);
    let src = IntervalSource::single(
        anchor,
        Duration::minutes(10),
        Duration::zero(),
        Duration::hours(1),
        Duration::minutes(20),
        "x",
    )
    .unwrap();

    let next = src.next_window(dt(2026, 3, 20, 0, 15, 0)).unwrap();
    assert_eq!(next.start, dt(2026, 3, 20, 1, 10, 0));
    assert_eq!(next.end, dt(2026, 3, 20, 1, 30, 0));
    assert_eq!(next.meta, "x");
}

#[test]
fn supports_different_cadences_in_same_source() {
    let anchor = dt(2026, 3, 20, 0, 0, 0);
    let src = IntervalSource::new(
        anchor,
        vec![
            IntervalPattern::new(
                Duration::minutes(15),
                Duration::zero(),
                Duration::hours(2),
                Duration::minutes(20),
                "fast",
            ),
            IntervalPattern::new(
                Duration::hours(9),
                Duration::zero(),
                Duration::days(1),
                Duration::hours(1),
                "daily",
            ),
        ],
    )
    .unwrap();

    let next = src.next_window(dt(2026, 3, 20, 8, 0, 0)).unwrap();
    assert_eq!(next.start, dt(2026, 3, 20, 8, 15, 0));
    assert_eq!(next.meta, "fast");
}

#[test]
fn negative_offset_can_start_window_before_anchor() {
    let anchor = dt(2026, 3, 20, 0, 0, 0);
    let src = IntervalSource::single(
        anchor,
        Duration::zero(),
        Duration::minutes(-1),
        Duration::minutes(5),
        Duration::minutes(7),
        "x",
    )
    .unwrap();

    let next = src.next_window(dt(2026, 3, 19, 23, 58, 0)).unwrap();
    assert_eq!(next.start, dt(2026, 3, 19, 23, 59, 0));
    assert_eq!(next.end, dt(2026, 3, 20, 0, 6, 0));
    assert_eq!(next.meta, "x");
}

#[test]
fn negative_offset_overlaps_front_and_back() {
    let anchor = dt(2026, 3, 20, 0, 0, 0);
    let src = IntervalSource::single(
        anchor,
        Duration::zero(),
        Duration::minutes(-1),
        Duration::minutes(5),
        Duration::minutes(7),
        "x",
    )
    .unwrap();

    let active = src.active_windows(dt(2026, 3, 20, 0, 5, 30));
    assert_eq!(active.len(), 2);

    assert_eq!(active[0].start, dt(2026, 3, 19, 23, 59, 0));
    assert_eq!(active[0].end, dt(2026, 3, 20, 0, 6, 0));

    assert_eq!(active[1].start, dt(2026, 3, 20, 0, 4, 0));
    assert_eq!(active[1].end, dt(2026, 3, 20, 0, 11, 0));
}

#[test]
fn next_window_respects_negative_offset_phase() {
    let anchor = dt(2026, 3, 20, 0, 0, 0);
    let src = IntervalSource::single(
        anchor,
        Duration::zero(),
        Duration::minutes(-1),
        Duration::minutes(5),
        Duration::minutes(7),
        "x",
    )
    .unwrap();

    let next = src.next_window(dt(2026, 3, 20, 0, 6, 0)).unwrap();
    assert_eq!(next.start, dt(2026, 3, 20, 0, 9, 0));
    assert_eq!(next.end, dt(2026, 3, 20, 0, 16, 0));
}
