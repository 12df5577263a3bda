use chrono::{TimeZone, Utc};
use timewindow::{Duration, Timestamp, Window};

fn dt(y: i32, m: u32, d: u32, hh: u32, mm: u32, ss: u32) -> Timestamp {
    let t = Utc.with_ymd_and_hms(y, m, d, hh, mm, ss).unwrap();
    Timestamp::from_unix(t.timestamp(), t.timestamp_subsec_nanos()).unwrap()
}

#[test]
fn window_is_half_open() {
    let window = Window::new(dt(2026, 3, 20, 12, 0, 0), dt(2026, 3, 20, 14, 0, 0), "metadata").unwrap();
    assert!(window.is_active(dt(2026, 3, 20, 12, 0, 0)));
    assert!(window.is_active(dt(2026, 3, 20, 13, 0, 0)));
    assert!(!window.is_active(dt(2026, 3, 20, 14, 0, 0)));
}

#[test]
fn window_new_rejects_empty_and_inverted() {
    assert!(Window::new(dt(2026, 3, 20, 12, 0, 0), dt(2026, 3, 20, 13, 0, 0), ()).is_some());
    assert!(Window::new(dt(2026, 3, 20, 13, 0, 0), dt(2026, 3, 20, 13, 0, 0), ()).is_none());
    assert!(Window::new(dt(2026, 3, 20, 14, 0, 0), dt(2026, 3, 20, 13, 0, 0), ()).is_none());
}

#[test]
fn window_is_in_exactly_one_phase() {
    let w = Window::new(dt(2026, 3, 20, 12, 0, 0), dt(2026, 3, 20, 14, 0, 0), ()).unwrap();
    for now in [
        dt(2026, 3, 20, 11, 59, 59),
        dt(2026, 3, 20, 12, 0, 0),
        dt(2026, 3, 20, 13, 59, 59),
        dt(2026, 3, 20, 14, 0, 0),
    ] {
        let phases = [w.is_upcoming(now), w.is_active(now), w.is_expired(now)];
        assert_eq!(phases.iter().filter(|p| **p).count(), 1);
    }
    assert!(w.is_upcoming(dt(2026, 3, 20, 11, 0, 0)));
    assert!(w.is_expired(dt(2026, 3, 20, 14, 0, 0)));
}

#[test]
fn elapsed_and_remaining_add_up_to_duration() {
    let w = Window::new(dt(2026, 3, 20, 12, 0, 0), dt(2026, 3, 20, 14, 0, 0), ()).unwrap();
    let now = dt(2026, 3, 20, 12, 30, 0);
    let elapsed = w.elapsed_at(now).unwrap();
    let remaining = w.remaining_at(now).unwrap();
    assert_eq!(elapsed, Duration::minutes(30));
    assert_eq!(remaining, Duration::minutes(90));
    assert_eq!(w.duration(), Duration::hours(2));
    assert_eq!(elapsed.as_nanos() + remaining.as_nanos(), w.duration().as_nanos());
    assert!(w.elapsed_at(dt(2026, 3, 20, 14, 0, 0)).is_none());
    assert!(w.remaining_at(dt(2026, 3, 20, 11, 0, 0)).is_none());
}

#[test]
fn adjacent_windows_do_not_overlap() {
    let a = Window::new(dt(2026, 3, 20, 12, 0, 0), dt(2026, 3, 20, 13, 0, 0), "a").unwrap();
    let b = Window::new(dt(2026, 3, 20, 13, 0, 0), dt(2026, 3, 20, 14, 0, 0), "b").unwrap();
    let boundary = dt(2026, 3, 20, 13, 0, 0);
    assert!(!a.is_active(boundary));
    assert!(b.is_active(boundary));
}
