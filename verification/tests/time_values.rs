use chrono::{DateTime, Datelike, NaiveDate, TimeZone, Utc};
use timewindow::{Duration, TimeOfDay, Timestamp, Weekday};

#[test]
fn representable_range_matches_chrono() {
    let min = DateTime::<Utc>::MIN_UTC;
    let max = DateTime::<Utc>::MAX_UTC;
    let min_t = Timestamp::from_unix(min.timestamp(), min.timestamp_subsec_nanos()).unwrap();
    let max_t = Timestamp::from_unix(max.timestamp(), max.timestamp_subsec_nanos()).unwrap();
    assert_eq!(min_t.unix_nanos(), timewindow::time::MIN_UTC_NANOS);
    assert_eq!(max_t.unix_nanos(), timewindow::time::MAX_UTC_NANOS);
    assert!(Timestamp::from_unix_nanos(timewindow::time::MIN_UTC_NANOS - 1).is_none());
    assert!(Timestamp::from_unix_nanos(timewindow::time::MAX_UTC_NANOS + 1).is_none());
    let epoch = NaiveDate::from_ymd_opt(1970, 1, 1).unwrap();
    assert_eq!((NaiveDate::MIN - epoch).num_days(), timewindow::zone::MIN_DAY);
    assert_eq!((NaiveDate::MAX - epoch).num_days(), timewindow::zone::MAX_DAY);
    assert_eq!(epoch.num_days_from_ce() as i64, timewindow::zone::UNIX_EPOCH_CE_DAY);
}

#[test]
fn checked_add_stays_in_range() {
    let max = Timestamp::from_unix_nanos(timewindow::time::MAX_UTC_NANOS).unwrap();
    assert!(max.checked_add_signed(Duration::nanoseconds(1)).is_none());
    assert_eq!(
        max.checked_sub_signed(Duration::nanoseconds(1)).unwrap().unix_nanos(),
        timewindow::time::MAX_UTC_NANOS - 1
    );
    let t = Timestamp::from_unix(100, 5).unwrap();
    assert_eq!(t.checked_add_signed(Duration::minutes(1)).unwrap().unix_nanos(), 160_000_000_005);
    assert_eq!(t.signed_duration_since(Timestamp::from_unix(40, 5).unwrap()), Duration::minutes(1));
}

#[test]
fn unix_seconds_round_down() {
    let t = Timestamp::from_unix_nanos(-1).unwrap();
    assert_eq!(t.unix_seconds(), -1);
    assert_eq!(t.subsec_nanos(), 999_999_999);
    assert!(Timestamp::from_unix(0, 1_000_000_000).is_none());
}

#[test]
fn weekday_matches_chrono() {
    for days in [-800_000i64, -3, -1, 0, 1, 2, 3, 4, 5, 6, 7, 20_532, 1_000_000] {
        let t = Timestamp::from_unix(days * 86_400 + 3_600, 0).unwrap();
        let c = Utc.timestamp_opt(days * 86_400 + 3_600, 0).unwrap();
        assert_eq!(t.weekday().num_days_from_monday(), c.weekday().num_days_from_monday());
    }
    assert_eq!(Weekday::from_days_from_monday(4), Weekday::Fri);
}

#[test]
fn duration_conversions() {
    assert_eq!(Duration::hours(2).as_nanos(), 7_200_000_000_000);
    assert_eq!(Duration::days(-3).num_days(), -3);
    assert_eq!((Duration::hours(-25)).num_days(), -1);
    assert_eq!(Duration::hours(47).num_days(), 1);
    assert_eq!(Duration::nanoseconds(5).num_nanoseconds(), Some(5));
    assert_eq!(Duration::days(200_000).num_nanoseconds(), None);
    assert!(Duration::try_from_nanos(timewindow::time::MAX_DELTA_NANOS + 1).is_none());
    assert!(Duration::try_from_nanos(-timewindow::time::MAX_DELTA_NANOS).is_some());
}

#[test]
fn time_of_day_fields() {
    let t = TimeOfDay::from_hms_nano_opt(13, 4, 5, 6).unwrap();
    assert_eq!((t.hour(), t.minute(), t.second(), t.nanosecond()), (13, 4, 5, 6));
    assert_eq!(t.nanos_since_midnight(), 13 * 3_600_000_000_000 + 4 * 60_000_000_000 + 5_000_000_006);
    assert!(TimeOfDay::from_hms_opt(24, 0, 0).is_none());
    assert!(TimeOfDay::from_hms_opt(0, 60, 0).is_none());
    assert!(TimeOfDay::from_hms_nano_opt(0, 0, 0, 1_000_000_000).is_none());
}
