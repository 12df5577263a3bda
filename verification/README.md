# timewindow

Time windows — half-open UTC intervals `[start, end)` with metadata — and
sources that generate them: fixed-period interval patterns sharing an anchor,
and calendar/clock schedules evaluated on a time zone's wall clock. The
library is written in Verus. Its own functions carry contracts that Verus
proves; the five functions in `src/zone.rs` that call chrono and chrono-tz
are trusted: Verus assumes their contracts and does not check their bodies.

Layout:

- `src/time.rs` — instants, durations, weekdays, times of day (integer
  nanoseconds in chrono's ranges).
- `src/window.rs` — `Window` and its phase laws.
- `src/source.rs`, `src/iter.rs`, `src/derived.rs` — the `WindowSource`
  traits, walking forward through a source, sources derived by mapping.
- `src/sort.rs` — the stable keyed sort behind every ordering.
- `src/zone.rs` — time zones and the calendar; the calls into chrono and
  chrono-tz, with the contracts assumed of them.
- `src/sources/interval.rs` — `IntervalSource`.
- `src/sources/grid.rs` — first time on a minute/hour grid after an instant.
- `src/sources/schedule.rs` — `ScheduleSource`.
- `tests/` — behaviour tests.
- `app/` — conversions between chrono types and the library's types, and
  `Display` for the interval error.
