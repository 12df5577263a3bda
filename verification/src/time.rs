//! Instants, signed durations, weekdays and wall-clock times of day.
//!
//! An instant is a count of nanoseconds since 1970-01-01T00:00:00Z, limited to
//! the range chrono's `DateTime<Utc>` covers (years -262143 to 262142). A
//! duration is a signed count of nanoseconds limited to `±i64::MAX`
//! milliseconds, the range of chrono's `TimeDelta`. Adding a duration to an
//! instant is plain integer addition with a range check, which is the whole
//! behaviour of `DateTime::checked_add_signed` on such values.
use vstd::prelude::*;
use vstd::arithmetic::div_mod::lemma_fundamental_div_mod;
use vstd::arithmetic::div_mod::lemma_fundamental_div_mod_converse;

verus! {

/// Nanoseconds in one second.
pub const NANOS_PER_SECOND: i128 = 1_000_000_000;

/// Nanoseconds in one minute.
pub const NANOS_PER_MINUTE: i128 = 60_000_000_000;

/// Nanoseconds in one hour.
pub const NANOS_PER_HOUR: i128 = 3_600_000_000_000;

/// Nanoseconds in one day.
pub const NANOS_PER_DAY: i128 = 86_400_000_000_000;

/// The earliest representable instant, -262143-01-01T00:00:00Z, in nanoseconds
/// since the Unix epoch.
pub const MIN_UTC_NANOS: i128 = -8_334_601_228_800_000_000_000;

/// The latest representable instant, 262142-12-31T23:59:59.999999999Z, in
/// nanoseconds since the Unix epoch.
pub const MAX_UTC_NANOS: i128 = 8_210_266_876_799_999_999_999;

/// The largest duration magnitude: `i64::MAX` milliseconds, in nanoseconds.
pub const MAX_DELTA_NANOS: i128 = 9_223_372_036_854_775_807_000_000;

/// Whether `n` nanoseconds since the epoch is a representable instant.
pub open spec fn in_utc_range(n: int) -> bool {
    MIN_UTC_NANOS <= n <= MAX_UTC_NANOS
}

/// Whether `n` nanoseconds is a representable duration.
pub open spec fn in_delta_range(n: int) -> bool {
    -MAX_DELTA_NANOS <= n <= MAX_DELTA_NANOS
}

/// Whether `n` fits in an `i64`.
pub open spec fn fits_i64(n: int) -> bool {
    i64::MIN <= n <= i64::MAX
}

/// Division rounding toward zero (the rounding of `i64` division).
pub open spec fn trunc_div(a: int, b: int) -> int {
    if a >= 0 {
        a / b
    } else {
        -((-a) / b)
    }
}

/// Floor division by a positive divisor (`n.div_euclid(d)`).
pub fn floor_div(n: i128, d: i128) -> (q: i128)
    requires
        d > 0,
    ensures
        q == n as int / d as int,
        n >= 0 ==> 0 <= q <= n,
        n < 0 ==> n <= q < 0,
{
    if n >= 0 {
        let q = n / d;
        proof {
            lemma_fundamental_div_mod(n as int, d as int);
            assert(0 <= q <= n) by (nonlinear_arith)
                requires
                    n as int == d * q + (n as int) % (d as int),
                    0 <= (n as int) % (d as int) < d,
                    d >= 1,
                    n >= 0,
            ;
        }
        q
    } else {
        let m: i128 = -(n + 1);
        let q0: i128 = m / d;
        proof {
            lemma_fundamental_div_mod(m as int, d as int);
            let r = (m as int) % (d as int);
            assert(0 <= r < d);
            assert(n as int == (-q0 - 1) * d + (d - r - 1)) by (nonlinear_arith)
                requires
                    m as int == d * q0 + r,
                    n as int == -(m as int) - 1,
            ;
            lemma_fundamental_div_mod_converse(n as int, d as int, -q0 - 1, d - r - 1);
            assert(0 <= q0 <= m) by (nonlinear_arith)
                requires
                    m as int == d * q0 + r,
                    0 <= r < d,
                    d >= 1,
                    m >= 0,
            ;
            assert(n <= -q0 - 1 < 0) by (nonlinear_arith)
                requires
                    n as int == (-q0 - 1) * d + (d - r - 1),
                    0 <= r < d,
                    d >= 1,
                    q0 >= 0,
            ;
        }
        -q0 - 1
    }
}

/// Floor remainder by a positive divisor (`n.rem_euclid(d)`).
pub fn floor_mod(n: i128, d: i128) -> (r: i128)
    requires
        d > 0,
        n as int - d as int > i128::MIN,
    ensures
        r == (n as int) % (d as int),
        0 <= r < d,
{
    let q = floor_div(n, d);
    proof {
        lemma_fundamental_div_mod(n as int, d as int);
        assert(0 <= (n as int) % (d as int) < d);
        assert(q * d == d * q) by (nonlinear_arith);
        assert(n - q * d == (n as int) % (d as int));
    }
    n - q * d
}

/// A day of the week.
#[derive(Clone, Copy, Debug, PartialEq, Eq, Structural, Hash)]
pub enum Weekday {
    Mon,
    Tue,
    Wed,
    Thu,
    Fri,
    Sat,
    Sun,
}

impl Weekday {
    /// Days since Monday: 0 for Monday up to 6 for Sunday.
    pub open spec fn index(self) -> int {
        match self {
            Weekday::Mon => 0,
            Weekday::Tue => 1,
            Weekday::Wed => 2,
            Weekday::Thu => 3,
            Weekday::Fri => 4,
            Weekday::Sat => 5,
            Weekday::Sun => 6,
        }
    }

    /// Returns the number of days since Monday (Monday is 0).
    pub fn num_days_from_monday(&self) -> (r: u32)
        ensures
            r == self.index(),
    {
        match self {
            Weekday::Mon => 0,
            Weekday::Tue => 1,
            Weekday::Wed => 2,
            Weekday::Thu => 3,
            Weekday::Fri => 4,
            Weekday::Sat => 5,
            Weekday::Sun => 6,
        }
    }

    /// The weekday that is `i` days after Monday.
    pub fn from_days_from_monday(i: u32) -> (r: Weekday)
        requires
            i < 7,
        ensures
            r.index() == i,
    {
        if i == 0 {
            Weekday::Mon
        } else if i == 1 {
            Weekday::Tue
        } else if i == 2 {
            Weekday::Wed
        } else if i == 3 {
            Weekday::Thu
        } else if i == 4 {
            Weekday::Fri
        } else if i == 5 {
            Weekday::Sat
        } else {
            Weekday::Sun
        }
    }
}

/// Days since Monday of the day `day`, counted in days since 1970-01-01, which
/// was a Thursday.
pub open spec fn weekday_index_of_day(day: int) -> int {
    (day + 3) % 7
}

/// A signed span of time with nanosecond precision.
#[derive(Clone, Copy, Debug, PartialEq, Eq, Structural, PartialOrd, Ord, Hash)]
pub struct Duration {
    nanos: i128,
}

impl View for Duration {
    type V = int;

    closed spec fn view(&self) -> int {
        self.nanos as int
    }
}

impl Duration {
    #[verifier::type_invariant]
    closed spec fn wf(self) -> bool {
        in_delta_range(self.nanos as int)
    }

    /// The duration of length zero.
    pub fn zero() -> (r: Duration)
        ensures
            r@ == 0,
    {
        Duration { nanos: 0 }
    }

    /// `n` nanoseconds.
    pub fn nanoseconds(n: i64) -> (r: Duration)
        ensures
            r@ == n,
    {
        Duration { nanos: n as i128 }
    }

    /// `n` nanoseconds, or `None` when that is out of range.
    pub fn try_from_nanos(n: i128) -> (r: Option<Duration>)
        ensures
            r is Some <==> in_delta_range(n as int),
            r matches Some(d) ==> d@ == n,
    {
        if -MAX_DELTA_NANOS <= n && n <= MAX_DELTA_NANOS {
            Some(Duration { nanos: n })
        } else {
            None
        }
    }

    /// `m` minutes.
    pub fn minutes(m: i64) -> (r: Duration)
        requires
            in_delta_range(m * NANOS_PER_MINUTE),
        ensures
            r@ == m * NANOS_PER_MINUTE,
    {
        Duration { nanos: m as i128 * NANOS_PER_MINUTE }
    }

    /// `h` hours.
    pub fn hours(h: i64) -> (r: Duration)
        requires
            in_delta_range(h * NANOS_PER_HOUR),
        ensures
            r@ == h * NANOS_PER_HOUR,
    {
        Duration { nanos: h as i128 * NANOS_PER_HOUR }
    }

    /// `d` days of 24 hours.
    pub fn days(d: i64) -> (r: Duration)
        requires
            in_delta_range(d * NANOS_PER_DAY),
        ensures
            r@ == d * NANOS_PER_DAY,
    {
        Duration { nanos: d as i128 * NANOS_PER_DAY }
    }

    /// The length in nanoseconds.
    pub fn as_nanos(&self) -> (r: i128)
        ensures
            r == self@,
            in_delta_range(r as int),
    {
        proof {
            use_type_invariant(self);
        }
        self.nanos
    }

    /// The length in nanoseconds if it fits in an `i64`.
    pub fn num_nanoseconds(&self) -> (r: Option<i64>)
        ensures
            r is Some <==> fits_i64(self@),
            r matches Some(n) ==> n == self@,
    {
        if i64::MIN as i128 <= self.nanos && self.nanos <= i64::MAX as i128 {
            Some(self.nanos as i64)
        } else {
            None
        }
    }

    /// The number of whole days, rounded toward zero.
    pub fn num_days(&self) -> (r: i64)
        ensures
            r == trunc_div(self@, NANOS_PER_DAY as int),
    {
        proof {
            use_type_invariant(self);
        }
        if self.nanos >= 0 {
            (self.nanos / NANOS_PER_DAY) as i64
        } else {
            -((-self.nanos) / NANOS_PER_DAY) as i64
        }
    }
}

/// An instant on the UTC time line with nanosecond precision.
#[derive(Clone, Copy, Debug, PartialEq, Eq, Structural, PartialOrd, Ord, Hash)]
pub struct Timestamp {
    nanos: i128,
}

impl View for Timestamp {
    type V = int;

    closed spec fn view(&self) -> int {
        self.nanos as int
    }
}

impl Timestamp {
    /// The instant lies in the representable range.
    #[verifier::type_invariant]
    pub closed spec fn wf(self) -> bool {
        in_utc_range(self.nanos as int)
    }

    /// A well-formed instant is in range.
    pub proof fn lemma_in_range(self)
        requires
            self.wf(),
        ensures
            in_utc_range(self@),
    {
    }

    /// The instant `n` nanoseconds after the Unix epoch, if representable.
    pub fn from_unix_nanos(n: i128) -> (r: Option<Timestamp>)
        ensures
            r is Some <==> in_utc_range(n as int),
            r matches Some(t) ==> t@ == n,
    {
        if MIN_UTC_NANOS <= n && n <= MAX_UTC_NANOS {
            Some(Timestamp { nanos: n })
        } else {
            None
        }
    }

    /// The instant `secs` seconds plus `subsec_nanos` nanoseconds after the
    /// Unix epoch; `None` when `subsec_nanos` is not below one second or the
    /// instant is out of range.
    pub fn from_unix(secs: i64, subsec_nanos: u32) -> (r: Option<Timestamp>)
        ensures
            r is Some <==> subsec_nanos < NANOS_PER_SECOND && in_utc_range(
                secs * NANOS_PER_SECOND + subsec_nanos,
            ),
            r matches Some(t) ==> t@ == secs * NANOS_PER_SECOND + subsec_nanos,
    {
        if (subsec_nanos as i128) < NANOS_PER_SECOND {
            Self::from_unix_nanos(secs as i128 * NANOS_PER_SECOND + subsec_nanos as i128)
        } else {
            None
        }
    }

    /// Nanoseconds since the Unix epoch.
    pub fn unix_nanos(&self) -> (r: i128)
        ensures
            r == self@,
            in_utc_range(r as int),
    {
        proof {
            use_type_invariant(self);
        }
        self.nanos
    }

    /// Whole seconds since the Unix epoch, rounded down.
    pub fn unix_seconds(&self) -> (r: i64)
        ensures
            r == self@ / (NANOS_PER_SECOND as int),
    {
        proof {
            use_type_invariant(self);
        }
        floor_div(self.nanos, NANOS_PER_SECOND) as i64
    }

    /// Nanoseconds past the last whole second.
    pub fn subsec_nanos(&self) -> (r: u32)
        ensures
            r == self@ % (NANOS_PER_SECOND as int),
    {
        proof {
            use_type_invariant(self);
        }
        floor_mod(self.nanos, NANOS_PER_SECOND) as u32
    }

    /// `self + d`, or `None` when that is out of range.
    pub fn checked_add_signed(&self, d: Duration) -> (r: Option<Timestamp>)
        ensures
            r is Some <==> in_utc_range(self@ + d@),
            r matches Some(t) ==> t@ == self@ + d@,
    {
        let n = self.unix_nanos() + d.as_nanos();
        Self::from_unix_nanos(n)
    }

    /// `self - d`, or `None` when that is out of range.
    pub fn checked_sub_signed(&self, d: Duration) -> (r: Option<Timestamp>)
        ensures
            r is Some <==> in_utc_range(self@ - d@),
            r matches Some(t) ==> t@ == self@ - d@,
    {
        let n = self.unix_nanos() - d.as_nanos();
        Self::from_unix_nanos(n)
    }

    /// The signed duration from `earlier` to `self` (`self - earlier`).
    pub fn signed_duration_since(&self, earlier: Timestamp) -> (r: Duration)
        ensures
            r@ == self@ - earlier@,
    {
        let n = self.unix_nanos() - earlier.unix_nanos();
        Duration { nanos: n }
    }

    /// The day of the week of this instant in UTC.
    pub fn weekday(&self) -> (r: Weekday)
        ensures
            r.index() == weekday_index_of_day(self@ / (NANOS_PER_DAY as int)),
    {
        proof {
            use_type_invariant(self);
        }
        let day = floor_div(self.nanos, NANOS_PER_DAY);
        let i = floor_mod(day + 3, 7);
        Weekday::from_days_from_monday(i as u32)
    }
}

/// A wall-clock time of day with nanosecond precision (no leap seconds).
#[derive(Clone, Copy, Debug, PartialEq, Eq, Structural, Hash)]
pub struct TimeOfDay {
    hour: u32,
    minute: u32,
    second: u32,
    nano: u32,
}

impl View for TimeOfDay {
    type V = (int, int, int, int);

    closed spec fn view(&self) -> (int, int, int, int) {
        (self.hour as int, self.minute as int, self.second as int, self.nano as int)
    }
}

/// Whether `(h, m, s, n)` names a time of day.
pub open spec fn valid_time_of_day(h: int, m: int, s: int, n: int) -> bool {
    0 <= h < 24 && 0 <= m < 60 && 0 <= s < 60 && 0 <= n < NANOS_PER_SECOND
}

/// Nanoseconds since midnight of the time of day `(h, m, s, n)`.
pub open spec fn nanos_of_day(t: (int, int, int, int)) -> int {
    t.0 * NANOS_PER_HOUR + t.1 * NANOS_PER_MINUTE + t.2 * NANOS_PER_SECOND + t.3
}

impl TimeOfDay {
    #[verifier::type_invariant]
    closed spec fn wf(self) -> bool {
        valid_time_of_day(self.hour as int, self.minute as int, self.second as int, self.nano as int)
    }

    /// The time `hour:minute:second`, if those name a time of day.
    pub fn from_hms_opt(hour: u32, minute: u32, second: u32) -> (r: Option<TimeOfDay>)
        ensures
            r is Some <==> valid_time_of_day(hour as int, minute as int, second as int, 0),
            r matches Some(t) ==> t@ == (hour as int, minute as int, second as int, 0int),
    {
        Self::from_hms_nano_opt(hour, minute, second, 0)
    }

    /// The time `hour:minute:second.nano`, if those name a time of day.
    pub fn from_hms_nano_opt(hour: u32, minute: u32, second: u32, nano: u32) -> (r: Option<
        TimeOfDay,
    >)
        ensures
            r is Some <==> valid_time_of_day(hour as int, minute as int, second as int, nano as int),
            r matches Some(t) ==> t@ == (hour as int, minute as int, second as int, nano as int),
    {
        if hour < 24 && minute < 60 && second < 60 && (nano as i128) < NANOS_PER_SECOND {
            Some(TimeOfDay { hour, minute, second, nano })
        } else {
            None
        }
    }

    /// The hour, `0..24`.
    pub fn hour(&self) -> (r: u32)
        ensures
            r == self@.0,
            r < 24,
    {
        proof {
            use_type_invariant(self);
        }
        self.hour
    }

    /// The minute, `0..60`.
    pub fn minute(&self) -> (r: u32)
        ensures
            r == self@.1,
            r < 60,
    {
        proof {
            use_type_invariant(self);
        }
        self.minute
    }

    /// The second, `0..60`.
    pub fn second(&self) -> (r: u32)
        ensures
            r == self@.2,
            r < 60,
    {
        proof {
            use_type_invariant(self);
        }
        self.second
    }

    /// The nanosecond within the second, below one second.
    pub fn nanosecond(&self) -> (r: u32)
        ensures
            r == self@.3,
            r < NANOS_PER_SECOND,
    {
        proof {
            use_type_invariant(self);
        }
        self.nano
    }

    /// Nanoseconds since midnight.
    pub fn nanos_since_midnight(&self) -> (r: i128)
        ensures
            r == nanos_of_day(self@),
            0 <= r < NANOS_PER_DAY,
    {
        proof {
            use_type_invariant(self);
        }
        self.hour as i128 * NANOS_PER_HOUR + self.minute as i128 * NANOS_PER_MINUTE
            + self.second as i128 * NANOS_PER_SECOND + self.nano as i128
    }
}

} // verus!
