//! A source of independently recurring intervals sharing one anchor.
//!
//! For a pattern entry `p` and an occurrence index `k >= 0` the recurrence
//! point is `anchor + p.at + k * p.every` and the window is
//! `[point + p.offset, point + p.offset + p.duration)`. Every intermediate
//! value must be representable: `p.every * k` and `p.at + p.every * k` as
//! `i64` nanoseconds, and the point, start and end as instants.
use vstd::prelude::*;

use crate::sort::{is_stable_sort_of, key_views, seq_lt, stable_sort, stably_sorted_by, takes};
use crate::source::WindowSource;
use crate::time::{fits_i64, floor_div, in_utc_range, Duration, Timestamp};
use crate::window::Window;

verus! {

/// A single recurring interval definition relative to a shared source anchor.
///
/// - `at`: offset from the anchor to the first recurrence point
/// - `offset`: shift of each window start relative to its recurrence point
/// - `every`: recurrence period
/// - `duration`: window length
/// - `meta`: cloned into each generated occurrence
#[derive(Debug, PartialEq, Eq)]
pub struct IntervalPattern<M> {
    pub at: Duration,
    pub offset: Duration,
    pub every: Duration,
    pub duration: Duration,
    pub meta: M,
}

impl<M> IntervalPattern<M> {
    /// Creates a new recurring pattern entry.
    pub fn new(at: Duration, offset: Duration, every: Duration, duration: Duration, meta: M) -> (r:
        Self)
        ensures
            r.at == at,
            r.offset == offset,
            r.every == every,
            r.duration == duration,
            r.meta == meta,
    {
        IntervalPattern { at, offset, every, duration, meta }
    }
}

impl<M: Clone> Clone for IntervalPattern<M> {
    fn clone(&self) -> (r: Self)
        ensures
            r.at == self.at,
            r.offset == self.offset,
            r.every == self.every,
            r.duration == self.duration,
            cloned(self.meta, r.meta),
    {
        IntervalPattern {
            at: self.at,
            offset: self.offset,
            every: self.every,
            duration: self.duration,
            meta: self.meta.clone(),
        }
    }
}

/// Why a list of pattern entries was refused.
#[derive(Debug, Clone, Copy, PartialEq, Eq, Structural)]
pub enum IntervalSourceError {
    EmptyPattern,
    NegativeAt,
    AtOutOfRange,
    OffsetOutOfRange,
    NonPositiveEvery,
    EveryOutOfRange,
    NonPositiveDuration,
    DurationOutOfRange,
}

impl IntervalSourceError {
    /// A human-readable description of the error.
    pub fn to_string(&self) -> (r: String)
        ensures
            r@ == match self {
                IntervalSourceError::EmptyPattern => "pattern must not be empty"@,
                IntervalSourceError::NegativeAt => "pattern recurrence point must be non-negative"@,
                IntervalSourceError::AtOutOfRange =>
                    "pattern recurrence point is out of range for nanosecond precision"@,
                IntervalSourceError::OffsetOutOfRange =>
                    "pattern offset is out of range for nanosecond precision"@,
                IntervalSourceError::NonPositiveEvery => "pattern recurrence must be positive"@,
                IntervalSourceError::EveryOutOfRange =>
                    "pattern recurrence is out of range for nanosecond precision"@,
                IntervalSourceError::NonPositiveDuration => "pattern duration must be positive"@,
                IntervalSourceError::DurationOutOfRange =>
                    "pattern duration is out of range for nanosecond precision"@,
            },
    {
        match self {
            IntervalSourceError::EmptyPattern => "pattern must not be empty".to_owned(),
            IntervalSourceError::NegativeAt => "pattern recurrence point must be non-negative".to_owned(),
            IntervalSourceError::AtOutOfRange =>
                "pattern recurrence point is out of range for nanosecond precision".to_owned(),
            IntervalSourceError::OffsetOutOfRange =>
                "pattern offset is out of range for nanosecond precision".to_owned(),
            IntervalSourceError::NonPositiveEvery => "pattern recurrence must be positive".to_owned(),
            IntervalSourceError::EveryOutOfRange =>
                "pattern recurrence is out of range for nanosecond precision".to_owned(),
            IntervalSourceError::NonPositiveDuration => "pattern duration must be positive".to_owned(),
            IntervalSourceError::DurationOutOfRange =>
                "pattern duration is out of range for nanosecond precision".to_owned(),
        }
    }
}

/// The first rule a pattern entry breaks, checked in this order: `at >= 0`,
/// `at`, `offset` and `every` fit in `i64` nanoseconds, `every > 0`,
/// `duration > 0`, `duration` fits in `i64` nanoseconds.
pub open spec fn pattern_error<M>(p: IntervalPattern<M>) -> Option<IntervalSourceError> {
    if p.at@ < 0 {
        Some(IntervalSourceError::NegativeAt)
    } else if !fits_i64(p.at@) {
        Some(IntervalSourceError::AtOutOfRange)
    } else if !fits_i64(p.offset@) {
        Some(IntervalSourceError::OffsetOutOfRange)
    } else if p.every@ <= 0 {
        Some(IntervalSourceError::NonPositiveEvery)
    } else if !fits_i64(p.every@) {
        Some(IntervalSourceError::EveryOutOfRange)
    } else if p.duration@ <= 0 {
        Some(IntervalSourceError::NonPositiveDuration)
    } else if !fits_i64(p.duration@) {
        Some(IntervalSourceError::DurationOutOfRange)
    } else {
        None
    }
}

/// A pattern entry that breaks no rule.
pub open spec fn pattern_valid<M>(p: IntervalPattern<M>) -> bool {
    pattern_error(p) is None
}

/// The error of the first entry of `ps` that breaks a rule.
pub open spec fn first_pattern_error<M>(ps: Seq<IntervalPattern<M>>) -> Option<
    IntervalSourceError,
>
    decreases ps.len(),
{
    if ps.len() == 0 {
        None
    } else {
        match pattern_error(ps[0]) {
            Some(e) => Some(e),
            None => first_pattern_error(ps.drop_first()),
        }
    }
}

/// The order in which a source keeps its entries: by `at`, then `offset`,
/// then `every`, then `duration`.
pub open spec fn pattern_key<M>(p: IntervalPattern<M>) -> Seq<i128> {
    seq![p.at@ as i128, p.offset@ as i128, p.every@ as i128, p.duration@ as i128]
}

/// The sort keys of a list of entries.
pub open spec fn pattern_keys<M>(ps: Seq<IntervalPattern<M>>) -> Seq<Seq<i128>> {
    ps.map_values(|p: IntervalPattern<M>| pattern_key(p))
}

/// The recurrence point of occurrence `k` of `p`, if it and every value on
/// the way to it are representable.
pub open spec fn recurrence_point<M>(anchor: int, p: IntervalPattern<M>, k: int) -> Option<int> {
    if k < 0 || !fits_i64(p.every@ * k) || !fits_i64(p.at@ + p.every@ * k) || !in_utc_range(
        anchor + p.at@ + p.every@ * k,
    ) {
        None
    } else {
        Some(anchor + p.at@ + p.every@ * k)
    }
}

/// The `(start, end)` of occurrence `k` of `p`, if representable and
/// non-empty.
pub open spec fn occurrence<M>(anchor: int, p: IntervalPattern<M>, k: int) -> Option<(int, int)> {
    match recurrence_point(anchor, p, k) {
        None => None,
        Some(point) => {
            let start = point + p.offset@;
            let end = start + p.duration@;
            if in_utc_range(start) && in_utc_range(end) && start < end {
                Some((start, end))
            } else {
                None
            }
        },
    }
}

/// The occurrence index whose recurrence point is the last one at or before
/// `t`, computed on `i64` nanoseconds: `-1` when `anchor + at` is out of
/// range, and with the distance saturated to the `i64` range.
pub open spec fn floor_index<M>(anchor: int, p: IntervalPattern<M>, t: int) -> int {
    if !in_utc_range(anchor + p.at@) {
        -1
    } else {
        let d = t - (anchor + p.at@);
        let dn = if d < i64::MIN {
            i64::MIN as int
        } else if d > i64::MAX {
            i64::MAX as int
        } else {
            d
        };
        dn / p.every@
    }
}

/// A source composed of one or more independently recurring interval
/// patterns sharing a common anchor.
///
/// Entries may overlap each other, and a single entry overlaps its own later
/// occurrences when `duration > every`.
#[derive(Debug, PartialEq, Eq)]
pub struct IntervalSource<M> {
    anchor: Timestamp,
    pattern: Vec<IntervalPattern<M>>,
}


/// `r` is what building a source from `anchor` and `pattern` gives: an error
/// for an empty list or for the first invalid entry, otherwise a source with
/// that anchor whose entries are `pattern` stably sorted by key.
pub open spec fn built_from<M>(
    anchor: Timestamp,
    pattern: Seq<IntervalPattern<M>>,
    r: Result<IntervalSource<M>, IntervalSourceError>,
) -> bool {
    &&& pattern.len() == 0 ==> r == Err::<IntervalSource<M>, IntervalSourceError>(
        IntervalSourceError::EmptyPattern,
    )
    &&& pattern.len() > 0 ==> match first_pattern_error(pattern) {
        Some(e) => r == Err::<IntervalSource<M>, IntervalSourceError>(e),
        None => r is Ok,
    }
    &&& r matches Ok(s) ==> {
        &&& s.spec_anchor() == anchor
        &&& is_stable_sort_of(s.spec_pattern(), pattern, pattern_keys(pattern))
        &&& s.spec_pattern().len() > 0
        &&& forall|i: int|
            0 <= i < s.spec_pattern().len() ==> pattern_valid(#[trigger] s.spec_pattern()[i])
    }
}

/// `r` is what building a source from `anchor` and the one entry `p` gives:
/// the entry's error, or a source with that anchor and that entry alone.
pub open spec fn built_from_single<M>(
    anchor: Timestamp,
    p: IntervalPattern<M>,
    r: Result<IntervalSource<M>, IntervalSourceError>,
) -> bool {
    &&& match pattern_error(p) {
        Some(e) => r == Err::<IntervalSource<M>, IntervalSourceError>(e),
        None => r is Ok,
    }
    &&& r matches Ok(s) ==> {
        &&& s.spec_anchor() == anchor
        &&& s.spec_pattern() == seq![p]
    }
}

/// A source built with `single` is the source built with `new` from the
/// one-entry list: the same error, or the same anchor and the same entries.
pub proof fn lemma_single_is_new<M>(
    anchor: Timestamp,
    p: IntervalPattern<M>,
    r1: Result<IntervalSource<M>, IntervalSourceError>,
    r2: Result<IntervalSource<M>, IntervalSourceError>,
)
    requires
        built_from_single(anchor, p, r1),
        built_from(anchor, seq![p], r2),
    ensures
        r1 is Ok <==> r2 is Ok,
        r1 is Err ==> r1 == r2,
        r1 matches Ok(s1) ==> r2 matches Ok(s2) && s1.spec_anchor() == s2.spec_anchor()
            && s1.spec_pattern() == s2.spec_pattern(),
{
    assert(seq![p].drop_first() =~= Seq::<IntervalPattern<M>>::empty());
    assert(first_pattern_error(seq![p].drop_first()) is None);
    assert(first_pattern_error(seq![p]) == pattern_error(p));
    if r2 is Ok {
        let s = r2->Ok_0;
        let perm = choose|perm: Seq<int>|
            stably_sorted_by(s.spec_pattern(), seq![p], pattern_keys(seq![p]), perm);
        assert(s.spec_pattern() =~= seq![p]);
    }
}

impl<M> IntervalSource<M> {
    #[verifier::type_invariant]
    closed spec fn wf(self) -> bool {
        &&& self.pattern@.len() > 0
        &&& forall|i: int| 0 <= i < self.pattern@.len() ==> pattern_valid(#[trigger] self.pattern@[i])
    }

    /// The shared anchor.
    pub closed spec fn spec_anchor(&self) -> Timestamp {
        self.anchor
    }

    /// The pattern entries, in key order.
    pub closed spec fn spec_pattern(&self) -> Seq<IntervalPattern<M>> {
        self.pattern@
    }

    /// Creates a source from a non-empty list of valid entries, which it
    /// keeps ordered by `(at, offset, every, duration)`, entries with equal
    /// keys in their given order.
    pub fn new(anchor: Timestamp, pattern: Vec<IntervalPattern<M>>) -> (r: Result<
        Self,
        IntervalSourceError,
    >)
        ensures
            built_from(anchor, pattern@, r),
    {
        if pattern.len() == 0 {
            return Err(IntervalSourceError::EmptyPattern);
        }
        let mut keys: Vec<Vec<i128>> = Vec::new();
        let mut i: usize = 0;
        assert(pattern@.skip(0) =~= pattern@);
        while i < pattern.len()
            invariant
                i <= pattern.len(),
                keys.len() == i,
                first_pattern_error(pattern@) == first_pattern_error(pattern@.skip(i as int)),
                forall|j: int| 0 <= j < i ==> pattern_valid(#[trigger] pattern@[j]),
                forall|j: int| 0 <= j < i ==> #[trigger] keys@[j]@ == pattern_key(pattern@[j]),
            decreases pattern.len() - i,
        {
            let entry = &pattern[i];
            let ghost rest = pattern@.skip(i as int);
            assert(rest[0] == pattern@[i as int]);
            assert(rest.drop_first() =~= pattern@.skip(i + 1));
            let at = entry.at.as_nanos();
            let offset = entry.offset.as_nanos();
            let every = entry.every.as_nanos();
            let duration = entry.duration.as_nanos();
            if at < 0 {
                return Err(IntervalSourceError::NegativeAt);
            }
            if entry.at.num_nanoseconds().is_none() {
                return Err(IntervalSourceError::AtOutOfRange);
            }
            if entry.offset.num_nanoseconds().is_none() {
                return Err(IntervalSourceError::OffsetOutOfRange);
            }
            if every <= 0 {
                return Err(IntervalSourceError::NonPositiveEvery);
            }
            if entry.every.num_nanoseconds().is_none() {
                return Err(IntervalSourceError::EveryOutOfRange);
            }
            if duration <= 0 {
                return Err(IntervalSourceError::NonPositiveDuration);
            }
            if entry.duration.num_nanoseconds().is_none() {
                return Err(IntervalSourceError::DurationOutOfRange);
            }
            keys.push(vec![at, offset, every, duration]);
            proof {
                assert(keys@[i as int]@ =~= pattern_key(pattern@[i as int]));
            }
            i = i + 1;
        }
        proof {
            assert(key_views(keys@) =~= pattern_keys(pattern@));
        }
        let ghost input = pattern@;
        let sorted = stable_sort(pattern, keys);
        proof {
            let perm = choose|perm: Seq<int>| stably_sorted_by(sorted@, input, pattern_keys(input), perm);
            assert forall|j: int| 0 <= j < sorted@.len() implies pattern_valid(#[trigger] sorted@[j]) by {
                assert(sorted@[j] == input[perm[j]]);
            }
        }
        Ok(IntervalSource { anchor, pattern: sorted })
    }

    /// Convenience constructor for a source with a single recurring interval.
    pub fn single(
        anchor: Timestamp,
        at: Duration,
        offset: Duration,
        every: Duration,
        duration: Duration,
        meta: M,
    ) -> (r: Result<Self, IntervalSourceError>)
        ensures
            built_from_single(anchor, IntervalPattern { at, offset, every, duration, meta }, r),
    {
        let entry = IntervalPattern { at, offset, every, duration, meta };
        let ghost e = entry;
        let mut pattern: Vec<IntervalPattern<M>> = Vec::new();
        pattern.push(entry);
        proof {
            assert(pattern@ =~= seq![e]);
            assert(pattern@.drop_first() =~= Seq::<IntervalPattern<M>>::empty());
            assert(first_pattern_error(pattern@.drop_first()) is None);
            assert(first_pattern_error(pattern@) == pattern_error(e));
        }
        let r = Self::new(anchor, pattern);
        proof {
            if r is Ok {
                let s = r->Ok_0;
                let perm = choose|perm: Seq<int>|
                    stably_sorted_by(s.spec_pattern(), seq![e], pattern_keys(seq![e]), perm);
                assert(s.spec_pattern() =~= seq![e]);
            }
        }
        r
    }

    /// The shared anchor.
    pub fn anchor(&self) -> (r: Timestamp)
        ensures
            r == self.spec_anchor(),
    {
        self.anchor
    }

    /// The pattern entries, in key order.
    pub fn pattern(&self) -> (r: &[IntervalPattern<M>])
        ensures
            r@ == self.spec_pattern(),
    {
        self.pattern.as_slice()
    }

    fn pattern_at_ns(entry: &IntervalPattern<M>) -> (r: i64)
        requires
            pattern_valid(*entry),
        ensures
            r == entry.at@,
    {
        entry.at.as_nanos() as i64
    }

    fn pattern_every_ns(entry: &IntervalPattern<M>) -> (r: i64)
        requires
            pattern_valid(*entry),
        ensures
            r == entry.every@,
            r > 0,
    {
        entry.every.as_nanos() as i64
    }

    /// The recurrence point of occurrence `occurrence_index` of `entry`.
    fn recurrence_point_at(&self, entry: &IntervalPattern<M>, occurrence_index: i64) -> (r: Option<
        Timestamp,
    >)
        requires
            pattern_valid(*entry),
        ensures
            match recurrence_point(self.spec_anchor()@, *entry, occurrence_index as int) {
                Some(point) => r matches Some(t) && t@ == point,
                None => r is None,
            },
    {
        if occurrence_index < 0 {
            return None;
        }
        let at_ns = Self::pattern_at_ns(entry);
        let every_ns = Self::pattern_every_ns(entry);
        let repeated_ns = every_ns.checked_mul(occurrence_index)?;
        let total_ns = at_ns.checked_add(repeated_ns)?;
        self.anchor.checked_add_signed(Duration::nanoseconds(total_ns))
    }

    /// Occurrence `occurrence_index` of entry `pattern_index`.
    fn window_at(&self, pattern_index: usize, occurrence_index: i64) -> (r: Option<Window<M>>) where
        M: Clone,

        requires
            pattern_index < self.spec_pattern().len(),
        ensures
            ({
                let entry = self.spec_pattern()[pattern_index as int];
                match occurrence(self.spec_anchor()@, entry, occurrence_index as int) {
                    Some((s, e)) => r matches Some(w) && w.start@ == s && w.end@ == e && cloned(
                        entry.meta,
                        w.meta,
                    ),
                    None => r is None,
                }
            }),
    {
        proof {
            use_type_invariant(self);
        }
        let entry = &self.pattern[pattern_index];
        let point = self.recurrence_point_at(entry, occurrence_index)?;
        let start = point.checked_add_signed(entry.offset)?;
        let end = start.checked_add_signed(entry.duration)?;
        Window::new(start, end, entry.meta.clone())
    }

    /// The windows of entry `pattern_index` active at `now`, by occurrence
    /// index, with their `(start, end)` sort keys and occurrence indices.
    fn pattern_active_windows(&self, pattern_index: usize, now: Timestamp) -> (r: (
        Vec<Window<M>>,
        Vec<Vec<i128>>,
        Ghost<Seq<int>>,
    )) where M: Clone
        requires
            pattern_index < self.spec_pattern().len(),
        ensures
            r.0.len() == r.1.len(),
            r.1.len() == r.2@.len(),
            forall|j: int|
                0 <= j < r.0.len() ==> {
                    &&& active_occurrence(
                        self.spec_anchor()@,
                        self.spec_pattern(),
                        now@,
                        pattern_index as int,
                        #[trigger] r.2@[j],
                    )
                    &&& occurrence(
                        self.spec_anchor()@,
                        self.spec_pattern()[pattern_index as int],
                        r.2@[j],
                    ) == Some((r.0@[j].start@, r.0@[j].end@))
                    &&& cloned(self.spec_pattern()[pattern_index as int].meta, r.0@[j].meta)
                    &&& r.1@[j]@ == seq![r.0@[j].start@ as i128, r.0@[j].end@ as i128]
                },
            forall|j1: int, j2: int| 0 <= j1 < j2 < r.2@.len() ==> r.2@[j1] < r.2@[j2],
            forall|k: int| #[trigger]
                active_occurrence(
                    self.spec_anchor()@,
                    self.spec_pattern(),
                    now@,
                    pattern_index as int,
                    k,
                ) ==> r.2@.contains(k),
    {
        proof {
            use_type_invariant(self);
            use_type_invariant(&self.anchor);
            self.anchor.lemma_in_range();
        }
        let ghost anchor = self.anchor@;
        let ghost ps = self.pattern@;
        let ghost pi = pattern_index as int;
        let entry = &self.pattern[pattern_index];
        let mut windows: Vec<Window<M>> = Vec::new();
        let mut keys: Vec<Vec<i128>> = Vec::new();
        let ghost mut ks: Seq<int> = Seq::empty();
        let shifted_now = match now.checked_sub_signed(entry.offset) {
            Some(t) => t,
            None => {
                return (windows, keys, Ghost(ks));
            },
        };
        let range_start = match shifted_now.checked_sub_signed(entry.duration) {
            Some(t) => t,
            None => {
                return (windows, keys, Ghost(ks));
            },
        };
        let last = self.occurrence_index_floor_for_recurrence_point(entry, shifted_now);
        let floor_start = self.occurrence_index_floor_for_recurrence_point(entry, range_start);
        let first = if floor_start == i64::MAX {
            floor_start
        } else {
            floor_start + 1
        };
        let start_idx: i64 = if first < 0 {
            0
        } else {
            first
        };
        let end_idx: i64 = if last < -1 {
            -1
        } else {
            last
        };
        let mut k: i128 = start_idx as i128;
        while k <= end_idx as i128
            invariant
                pattern_index < ps.len(),
                ps == self.spec_pattern(),
                anchor == self.spec_anchor()@,
                *entry == ps[pi],
                pi == pattern_index as int,
                in_utc_range(now@ - ps[pi].offset@),
                in_utc_range(now@ - ps[pi].offset@ - ps[pi].duration@),
                start_idx >= 0,
                start_idx <= k,
                k <= end_idx + 1 || k == start_idx,
                windows.len() == keys.len(),
                keys.len() == ks.len(),
                forall|j: int|
                    0 <= j < windows.len() ==> {
                        &&& active_occurrence(anchor, ps, now@, pi, #[trigger] ks[j])
                        &&& occurrence(anchor, ps[pi], ks[j]) == Some(
                            (windows@[j].start@, windows@[j].end@),
                        )
                        &&& cloned(ps[pi].meta, windows@[j].meta)
                        &&& keys@[j]@ == seq![windows@[j].start@ as i128, windows@[j].end@ as i128]
                        &&& start_idx <= ks[j] < k
                    },
                forall|j1: int, j2: int| 0 <= j1 < j2 < ks.len() ==> ks[j1] < ks[j2],
                forall|k2: int|
                    start_idx <= k2 < k && #[trigger] active_occurrence(anchor, ps, now@, pi, k2)
                        ==> ks.contains(k2),
            decreases end_idx + 1 - k,
        {
            let ghost old_ks = ks;
            match self.window_at(pattern_index, k as i64) {
                Some(w) => {
                    if w.is_active(now) {
                        keys.push(vec![w.start.unix_nanos(), w.end.unix_nanos()]);
                        windows.push(w);
                        proof {
                            ks = ks.push(k as int);
                            assert(keys@[keys.len() - 1]@ =~= seq![w.start@ as i128, w.end@ as i128]);
                            assert(ks[ks.len() - 1] == k);
                        }
                    }
                },
                None => {},
            }
            proof {
                assert forall|k2: int|
                    start_idx <= k2 < k + 1 && #[trigger] active_occurrence(anchor, ps, now@, pi, k2)
                        implies ks.contains(k2) by {
                    if k2 == k {
                        assert(ks[ks.len() - 1] == k);
                    } else {
                        assert(old_ks.contains(k2));
                        let j = choose|j: int| 0 <= j < old_ks.len() && old_ks[j] == k2;
                        assert(ks[j] == k2);
                    }
                }
            }
            k = k + 1;
        }
        proof {
            assert forall|k2: int| #[trigger]
                active_occurrence(anchor, ps, now@, pi, k2) implies ks.contains(k2) by {
                assert(pattern_valid(ps[pi]));
                lemma_active_index_bounds(anchor, ps[pi], now@, k2);
            }
        }
        (windows, keys, Ghost(ks))
    }

    /// The first window of entry `pattern_index` that starts strictly after
    /// `after`, with its occurrence index.
    fn next_candidate(&self, pattern_index: usize, after: Timestamp) -> (r: (
        Option<Window<M>>,
        Ghost<int>,
    )) where M: Clone
        requires
            pattern_index < self.spec_pattern().len(),
        ensures
            ({
                let anchor = self.spec_anchor()@;
                let ps = self.spec_pattern();
                let pi = pattern_index as int;
                let k = r.1@;
                &&& r.0 is None ==> forall|k2: int| !#[trigger] starts_after(anchor, ps, after@, pi, k2)
                &&& r.0 matches Some(w) ==> {
                    &&& starts_after(anchor, ps, after@, pi, k)
                    &&& occurrence(anchor, ps[pi], k) == Some((w.start@, w.end@))
                    &&& cloned(ps[pi].meta, w.meta)
                    &&& forall|k2: int| #[trigger]
                        starts_after(anchor, ps, after@, pi, k2) ==> k2 == k || w.start@
                            < start_of(occurrence(anchor, ps[pi], k2))
                }
            }),
    {
        proof {
            use_type_invariant(self);
            use_type_invariant(&self.anchor);
            self.anchor.lemma_in_range();
            use_type_invariant(&after);
            after.lemma_in_range();
        }
        let ghost anchor = self.anchor@;
        let ghost ps = self.pattern@;
        let ghost pi = pattern_index as int;
        let entry = &self.pattern[pattern_index];
        assert(pattern_valid(ps[pi]));
        let shifted_after = match after.checked_sub_signed(entry.offset) {
            Some(t) => t,
            None => {
                return (None, Ghost(0));
            },
        };
        let floor = self.occurrence_index_floor_for_recurrence_point(entry, shifted_after);
        let next = if floor == i64::MAX {
            floor
        } else {
            floor + 1
        };
        let candidate_index: i64 = if next < 0 {
            0
        } else {
            next
        };
        let ghost c = candidate_index as int;
        let window = match self.window_at(pattern_index, candidate_index) {
            Some(window) => window,
            None => {
                proof {
                    assert forall|k2: int| !#[trigger] starts_after(anchor, ps, after@, pi, k2) by {
                        if starts_after(anchor, ps, after@, pi, k2) {
                            lemma_next_candidate(anchor, ps[pi], after@, c, k2);
                        }
                    }
                }
                return (None, Ghost(0));
            },
        };
        if window.start.unix_nanos() <= after.unix_nanos() {
            proof {
                assert forall|k2: int| !#[trigger] starts_after(anchor, ps, after@, pi, k2) by {
                    if starts_after(anchor, ps, after@, pi, k2) {
                        lemma_next_candidate(anchor, ps[pi], after@, c, k2);
                    }
                }
            }
            return (None, Ghost(0));
        }
        proof {
            assert forall|k2: int| #[trigger] starts_after(anchor, ps, after@, pi, k2) implies k2 == c
                || window.start@ < start_of(occurrence(anchor, ps[pi], k2)) by {
                lemma_next_candidate(anchor, ps[pi], after@, c, k2);
            }
        }
        (Some(window), Ghost(c))
    }

    /// The index of the last occurrence of `entry` whose recurrence point is
    /// at or before `time`.
    fn occurrence_index_floor_for_recurrence_point(
        &self,
        entry: &IntervalPattern<M>,
        time: Timestamp,
    ) -> (r: i64)
        requires
            pattern_valid(*entry),
        ensures
            r == floor_index(self.spec_anchor()@, *entry, time@),
    {
        let first_point = match self.anchor.checked_add_signed(entry.at) {
            Some(dt) => dt,
            None => {
                return -1;
            },
        };
        let delta = time.signed_duration_since(first_point);
        let delta_ns = match delta.num_nanoseconds() {
            Some(n) => n,
            None => {
                if time.unix_nanos() < first_point.unix_nanos() {
                    i64::MIN
                } else {
                    i64::MAX
                }
            },
        };
        floor_div(delta_ns as i128, Self::pattern_every_ns(entry) as i128) as i64
    }
}


/// The start of an occurrence (`0` for none).
pub open spec fn start_of(o: Option<(int, int)>) -> int {
    match o {
        Some((s, _)) => s,
        None => 0,
    }
}

impl<M: Clone> Clone for IntervalSource<M> {
    /// A copy of the source: the same anchor and entries, with cloned
    /// metadata.
    fn clone(&self) -> (r: Self)
        ensures
            r.spec_anchor() == self.spec_anchor(),
            r.spec_pattern().len() == self.spec_pattern().len(),
            forall|i: int|
                0 <= i < r.spec_pattern().len() ==> {
                    let (a, b) = (#[trigger] self.spec_pattern()[i], r.spec_pattern()[i]);
                    a.at == b.at && a.offset == b.offset && a.every == b.every && a.duration
                        == b.duration && cloned(a.meta, b.meta)
                },
    {
        proof {
            use_type_invariant(self);
        }
        let pattern = self.pattern.clone();
        proof {
            assert forall|i: int| 0 <= i < pattern@.len() implies pattern_valid(
                #[trigger] pattern@[i],
            ) by {
                assert(cloned(self.pattern@[i], pattern@[i]));
                assert(pattern_valid(self.pattern@[i]));
            }
        }
        IntervalSource { anchor: self.anchor, pattern }
    }
}

/// Lexicographic order on pairs.
pub open spec fn lex_lt2(a: (int, int), b: (int, int)) -> bool {
    a.0 < b.0 || (a.0 == b.0 && a.1 < b.1)
}

/// Lexicographic order on quadruples.
pub open spec fn lex_lt4(a: (int, int, int, int), b: (int, int, int, int)) -> bool {
    a.0 < b.0 || (a.0 == b.0 && lex_lt2((a.1, a.2), (b.1, b.2))) || (a.0 == b.0 && a.1 == b.1
        && a.2 == b.2 && a.3 < b.3)
}

/// Occurrence `k` of entry `i` of `ps` is active at `now`, and `now` minus
/// the entry's offset, and minus its offset and duration, are representable
/// instants (the entry is looked at only then).
pub open spec fn active_occurrence<M>(
    anchor: int,
    ps: Seq<IntervalPattern<M>>,
    now: int,
    i: int,
    k: int,
) -> bool {
    &&& 0 <= i < ps.len()
    &&& in_utc_range(now - ps[i].offset@)
    &&& in_utc_range(now - ps[i].offset@ - ps[i].duration@)
    &&& occurrence(anchor, ps[i], k) matches Some((s, e)) && s <= now < e
}

/// Some position of `src` holds `(i, k)`.
pub open spec fn lists(src: Seq<(int, int)>, i: int, k: int) -> bool {
    exists|j: int| 0 <= j < src.len() && src[j] == (i, k)
}

/// `r[j]` is occurrence `src[j]` (entry index, occurrence index) of `ps`,
/// active at `now`, with the entry's metadata cloned; `r` is ordered by
/// start, end, entry index and occurrence index; and every active
/// occurrence is listed.
pub open spec fn active_listing<M: Clone>(
    anchor: int,
    ps: Seq<IntervalPattern<M>>,
    now: int,
    r: Seq<Window<M>>,
    src: Seq<(int, int)>,
) -> bool {
    &&& src.len() == r.len()
    &&& forall|j: int|
        0 <= j < r.len() ==> {
            &&& active_occurrence(anchor, ps, now, (#[trigger] src[j]).0, src[j].1)
            &&& occurrence(anchor, ps[src[j].0], src[j].1) == Some((r[j].start@, r[j].end@))
            &&& cloned(ps[src[j].0].meta, r[j].meta)
        }
    &&& forall|j1: int, j2: int|
        0 <= j1 < j2 < r.len() ==> lex_lt4(
            (r[j1].start@, r[j1].end@, (#[trigger] src[j1]).0, src[j1].1),
            (r[j2].start@, r[j2].end@, (#[trigger] src[j2]).0, src[j2].1),
        )
    &&& forall|i: int, k: int| #[trigger]
        active_occurrence(anchor, ps, now, i, k) ==> lists(src, i, k)
}

/// Occurrence `k` of entry `i` of `ps` starts strictly after `after`, and
/// `after` minus the entry's offset is a representable instant.
pub open spec fn starts_after<M>(
    anchor: int,
    ps: Seq<IntervalPattern<M>>,
    after: int,
    i: int,
    k: int,
) -> bool {
    &&& 0 <= i < ps.len()
    &&& in_utc_range(after - ps[i].offset@)
    &&& occurrence(anchor, ps[i], k) matches Some((s, e)) && s > after
}

/// Window `w`, occurrence `k` of entry `i`, comes no later than occurrence
/// `k2` of entry `i2` in the order by `(start, end, entry index)`.
pub open spec fn comes_first<M>(
    anchor: int,
    ps: Seq<IntervalPattern<M>>,
    w: Window<M>,
    i: int,
    k: int,
    i2: int,
    k2: int,
) -> bool {
    let (s2, e2) = occurrence(anchor, ps[i2], k2)->0;
    (i2 == i && k2 == k) || lex_lt2((w.start@, w.end@), (s2, e2)) || (w.start@ == s2 && w.end@ == e2
        && i < i2)
}

/// `w` is occurrence `k` of entry `i`, starts after `after`, and has the
/// least `(start, end, entry index)` of all such occurrences.
pub open spec fn earliest_after<M: Clone>(
    anchor: int,
    ps: Seq<IntervalPattern<M>>,
    after: int,
    w: Window<M>,
    i: int,
    k: int,
) -> bool {
    &&& starts_after(anchor, ps, after, i, k)
    &&& occurrence(anchor, ps[i], k) == Some((w.start@, w.end@))
    &&& cloned(ps[i].meta, w.meta)
    &&& forall|i2: int, k2: int| #[trigger]
        starts_after(anchor, ps, after, i2, k2) ==> comes_first(anchor, ps, w, i, k, i2, k2)
}

/// `d * k` grows with `k`.
proof fn lemma_mul_mono(d: int, k1: int, k2: int)
    requires
        d > 0,
        0 <= k1 <= k2,
    ensures
        0 <= d * k1 <= d * k2,
        k1 <= d * k1,
        k1 < k2 ==> d * k1 < d * k2,
{
    assert(0 <= d * k1 <= d * k2) by (nonlinear_arith)
        requires
            d > 0,
            0 <= k1 <= k2,
    ;
    assert(k1 <= d * k1) by (nonlinear_arith)
        requires
            d > 0,
            0 <= k1,
    ;
    assert(k1 < k2 ==> d * k1 < d * k2) by (nonlinear_arith)
        requires
            d > 0,
    ;
}

/// `d * k <= n` exactly when `k <= n / d`.
proof fn lemma_mul_le_iff_div(d: int, k: int, n: int)
    requires
        d > 0,
    ensures
        d * k <= n <==> k <= n / d,
{
    vstd::arithmetic::div_mod::lemma_fundamental_div_mod(n, d);
    let q = n / d;
    let r = n % d;
    assert(d * k <= n <==> k <= q) by (nonlinear_arith)
        requires
            d > 0,
            n == d * q + r,
            0 <= r < d,
    ;
}

/// An active occurrence index lies between the floors the scan of its entry
/// computes.
proof fn lemma_active_index_bounds<M>(anchor: int, p: IntervalPattern<M>, now: int, k: int)
    requires
        in_utc_range(anchor),
        pattern_valid(p),
        occurrence(anchor, p, k) matches Some((s, e)) && s <= now < e,
    ensures
        0 <= k,
        k <= floor_index(anchor, p, now - p.offset@),
        k > floor_index(anchor, p, now - p.offset@ - p.duration@),
{
    let every = p.every@;
    let fp = anchor + p.at@;
    let ek = every * k;
    lemma_mul_mono(every, 0, k);
    assert(in_utc_range(fp));
    let d = now - p.offset@ - fp;
    assert(ek <= d);
    let dn = if d > i64::MAX { i64::MAX as int } else { d };
    lemma_mul_le_iff_div(every, k, dn);
    let d2 = now - p.offset@ - p.duration@ - fp;
    assert(ek > d2);
    if d2 >= i64::MIN {
        assert(d2 <= i64::MAX);
        lemma_mul_le_iff_div(every, k, d2);
    } else {
        lemma_mul_le_iff_div(every, 0, i64::MIN as int);
        assert((i64::MIN as int) / every < 0);
    }
}

/// The first occurrence of an entry that starts after `after` is the one the
/// search for the next window computes, and it starts before every later
/// one.
proof fn lemma_next_candidate<M>(anchor: int, p: IntervalPattern<M>, after: int, c: int, k: int)
    requires
        in_utc_range(anchor),
        in_utc_range(after),
        pattern_valid(p),
        in_utc_range(after - p.offset@),
        ({
            let f = floor_index(anchor, p, after - p.offset@);
            let f1 = if f == i64::MAX { f } else { f + 1 };
            c == if f1 < 0 { 0 } else { f1 }
        }),
        occurrence(anchor, p, k) matches Some((s, e)) && s > after,
    ensures
        c <= k,
        occurrence(anchor, p, c) matches Some((sc, ec)) && sc > after && (c < k ==> (occurrence(
            anchor,
            p,
            k,
        ) matches Some((sk, ek)) && sc < sk)),
{
    let every = p.every@;
    let fp = anchor + p.at@;
    let ek = every * k;
    lemma_mul_mono(every, 0, k);
    assert(in_utc_range(fp));
    let d = after - p.offset@ - fp;
    assert(ek > d);
    let f = floor_index(anchor, p, after - p.offset@);
    if d > i64::MAX {
        assert(false);
    }
    if d >= i64::MIN {
        lemma_mul_le_iff_div(every, k, d);
        assert(f == d / every);
        assert(k > f);
    } else {
        lemma_mul_le_iff_div(every, 0, i64::MIN as int);
        assert(f < 0);
    }
    lemma_mul_mono(every, k, k);
    assert(k <= ek);
    assert(f < i64::MAX);
    assert(c <= k);
    lemma_mul_mono(every, c, k);
    let ec = every * c;
    if c == 0 {
        if d >= 0 {
            lemma_mul_le_iff_div(every, 0, d);
        }
        assert(ec > d);
    } else {
        assert(c == f + 1);
        assert(d >= i64::MIN);
        lemma_mul_le_iff_div(every, c, d);
        assert(ec > d);
    }
    assert(fits_i64(ec));
    assert(fits_i64(p.at@ + ec));
    assert(in_utc_range(fp + ec));
    assert(recurrence_point(anchor, p, c) == Some(fp + ec));
    let sc = fp + ec + p.offset@;
    assert(sc > after);
    assert(in_utc_range(sc));
    assert(in_utc_range(sc + p.duration@));
}


/// On two-element keys the sort order is the lexicographic order on pairs.
pub proof fn lemma_pair_key_order(a0: i128, a1: i128, b0: i128, b1: i128)
    ensures
        seq_lt(seq![a0, a1], seq![b0, b1]) ==> lex_lt2((a0 as int, a1 as int), (b0 as int, b1 as int)),
        seq![a0, a1] == seq![b0, b1] ==> a0 == b0 && a1 == b1,
{
    let a = seq![a0, a1];
    let b = seq![b0, b1];
    reveal_with_fuel(seq_lt, 3);
    assert(a.drop_first() =~= seq![a1]);
    assert(b.drop_first() =~= seq![b1]);
    assert(a.drop_first().drop_first() =~= Seq::<i128>::empty());
    assert(b.drop_first().drop_first() =~= Seq::<i128>::empty());
    if a == b {
        assert(a[0] == b[0] && a[1] == b[1]);
    }
}

impl<M: Clone> WindowSource for IntervalSource<M> {
    type Meta = M;

    /// All windows active at `now`, ordered by `(start, end)`; windows with
    /// equal bounds come in entry order.
    fn active_windows(&self, now: Timestamp) -> (r: Vec<Window<M>>)
        ensures
            exists|src: Seq<(int, int)>|
                active_listing(self.spec_anchor()@, self.spec_pattern(), now@, r@, src),
    {
        let ghost anchor = self.spec_anchor()@;
        let ghost ps = self.spec_pattern();
        let mut windows: Vec<Window<M>> = Vec::new();
        let mut keys: Vec<Vec<i128>> = Vec::new();
        let ghost mut src: Seq<(int, int)> = Seq::empty();
        let mut pi: usize = 0;
        while pi < self.pattern.len()
            invariant
                ps == self.spec_pattern(),
                anchor == self.spec_anchor()@,
                ps.len() == self.pattern.len(),
                pi <= ps.len(),
                windows.len() == keys.len(),
                keys.len() == src.len(),
                forall|j: int|
                    0 <= j < windows.len() ==> {
                        &&& active_occurrence(anchor, ps, now@, (#[trigger] src[j]).0, src[j].1)
                        &&& occurrence(anchor, ps[src[j].0], src[j].1) == Some(
                            (windows@[j].start@, windows@[j].end@),
                        )
                        &&& cloned(ps[src[j].0].meta, windows@[j].meta)
                        &&& keys@[j]@ == seq![windows@[j].start@ as i128, windows@[j].end@ as i128]
                        &&& src[j].0 < pi
                    },
                forall|j1: int, j2: int|
                    0 <= j1 < j2 < src.len() ==> lex_lt2(#[trigger] src[j1], #[trigger] src[j2]),
                forall|i: int, k: int|
                    i < pi && #[trigger] active_occurrence(anchor, ps, now@, i, k) ==> lists(
                        src,
                        i,
                        k,
                    ),
            decreases ps.len() - pi,
        {
            let (mut w, mut kv, Ghost(ks)) = self.pattern_active_windows(pi, now);
            let ghost old_src = src;
            let ghost old_windows = windows@;
            let ghost old_keys = keys@;
            let ghost old_w = w@;
            let ghost old_kv = kv@;
            windows.append(&mut w);
            keys.append(&mut kv);
            proof {
                let added = ks.map_values(|k: int| (pi as int, k));
                src = old_src + added;
                let n0 = old_src.len();
                assert forall|j: int| 0 <= j < windows.len() implies {
                    &&& active_occurrence(anchor, ps, now@, (#[trigger] src[j]).0, src[j].1)
                    &&& occurrence(anchor, ps[src[j].0], src[j].1) == Some(
                        (windows@[j].start@, windows@[j].end@),
                    )
                    &&& cloned(ps[src[j].0].meta, windows@[j].meta)
                    &&& keys@[j]@ == seq![windows@[j].start@ as i128, windows@[j].end@ as i128]
                    &&& src[j].0 < pi + 1
                } by {
                    if j < n0 {
                        assert(src[j] == old_src[j]);
                        assert(windows@[j] == old_windows[j]);
                        assert(keys@[j] == old_keys[j]);
                    } else {
                        let jj = j - n0;
                        assert(src[j] == (pi as int, ks[jj]));
                        assert(windows@[j] == old_w[jj]);
                        assert(keys@[j] == old_kv[jj]);
                    }
                }
                assert forall|j1: int, j2: int| 0 <= j1 < j2 < src.len() implies lex_lt2(
                    #[trigger] src[j1],
                    #[trigger] src[j2],
                ) by {
                    if j2 < n0 {
                        assert(src[j1] == old_src[j1]);
                        assert(src[j2] == old_src[j2]);
                    } else if j1 < n0 {
                        assert(src[j1] == old_src[j1]);
                        assert(src[j2] == (pi as int, ks[j2 - n0]));
                    } else {
                        assert(src[j1] == (pi as int, ks[j1 - n0]));
                        assert(src[j2] == (pi as int, ks[j2 - n0]));
                    }
                }
                assert forall|i: int, k: int|
                    i < pi + 1 && #[trigger] active_occurrence(anchor, ps, now@, i, k) implies lists(
                        src,
                        i,
                        k,
                    ) by {
                    if i < pi {
                        let j = choose|j: int| 0 <= j < old_src.len() && old_src[j] == (i, k);
                        assert(src[j] == (i, k));
                    } else {
                        assert(ks.contains(k));
                        let jj = choose|jj: int| 0 <= jj < ks.len() && ks[jj] == k;
                        assert(src[n0 + jj] == (i, k));
                    }
                }
            }
            pi = pi + 1;
        }
        let ghost pre = windows@;
        let ghost pre_src = src;
        let ghost pre_keys = key_views(keys@);
        proof {
            assert forall|j: int| 0 <= j < pre.len() implies #[trigger] pre_keys[j] == seq![
                pre[j].start@ as i128,
                pre[j].end@ as i128,
            ] by {
                assert(src[j] == pre_src[j]);
                assert(pre_keys[j] == keys@[j]@);
            }
        }
        let sorted = stable_sort(windows, keys);
        proof {
            let perm = choose|perm: Seq<int>| stably_sorted_by(sorted@, pre, pre_keys, perm);
            let fin = perm.map_values(|x: int| pre_src[x]);
            let r = sorted@;
            assert forall|j: int| 0 <= j < r.len() implies {
                &&& active_occurrence(anchor, ps, now@, (#[trigger] fin[j]).0, fin[j].1)
                &&& occurrence(anchor, ps[fin[j].0], fin[j].1) == Some((r[j].start@, r[j].end@))
                &&& cloned(ps[fin[j].0].meta, r[j].meta)
            } by {
                assert(r[j] == pre[perm[j]]);
                assert(fin[j] == pre_src[perm[j]]);
            }
            assert forall|j1: int, j2: int| 0 <= j1 < j2 < r.len() implies lex_lt4(
                (r[j1].start@, r[j1].end@, (#[trigger] fin[j1]).0, fin[j1].1),
                (r[j2].start@, r[j2].end@, (#[trigger] fin[j2]).0, fin[j2].1),
            ) by {
                let x1 = perm[j1];
                let x2 = perm[j2];
                assert(r[j1] == pre[x1]);
                assert(r[j2] == pre[x2]);
                assert(fin[j1] == pre_src[x1]);
                assert(fin[j2] == pre_src[x2]);
                assert(pre_keys[x1] == seq![pre[x1].start@ as i128, pre[x1].end@ as i128]);
                assert(pre_keys[x2] == seq![pre[x2].start@ as i128, pre[x2].end@ as i128]);
                lemma_pair_key_order(
                    pre[x1].start@ as i128,
                    pre[x1].end@ as i128,
                    pre[x2].start@ as i128,
                    pre[x2].end@ as i128,
                );
                if !seq_lt(pre_keys[x1], pre_keys[x2]) {
                    assert(x1 < x2);
                    assert(lex_lt2(pre_src[x1], pre_src[x2]));
                }
            }
            assert forall|i: int, k: int| #[trigger]
                active_occurrence(anchor, ps, now@, i, k) implies lists(fin, i, k) by {
                let x = choose|x: int| 0 <= x < pre_src.len() && pre_src[x] == (i, k);
                assert(takes(perm, x));
                let j = choose|j: int| 0 <= j < perm.len() && perm[j] == x;
                assert(fin[j] == (i, k));
            }
            assert(active_listing(anchor, ps, now@, r, fin));
        }
        sorted
    }

    /// The window that starts strictly after `after` with the least
    /// `(start, end)`; among equal bounds, the one of the earlier entry.
    /// Entries for which `after - offset` is not a representable instant are
    /// not considered.
    fn next_window(&self, after: Timestamp) -> (r: Option<Window<M>>)
        ensures
            r is None <==> !exists|i: int, k: int| #[trigger]
                starts_after(self.spec_anchor()@, self.spec_pattern(), after@, i, k),
            r matches Some(w) ==> exists|i: int, k: int| #[trigger]
                earliest_after(self.spec_anchor()@, self.spec_pattern(), after@, w, i, k),
    {
        let ghost anchor = self.spec_anchor()@;
        let ghost ps = self.spec_pattern();
        let mut best: Option<Window<M>> = None;
        let ghost mut bi: int = 0;
        let ghost mut bk: int = 0;
        let mut pi: usize = 0;
        while pi < self.pattern.len()
            invariant
                ps == self.spec_pattern(),
                anchor == self.spec_anchor()@,
                ps.len() == self.pattern.len(),
                pi <= ps.len(),
                best is None ==> forall|i2: int, k2: int|
                    i2 < pi ==> !#[trigger] starts_after(anchor, ps, after@, i2, k2),
                best matches Some(w) ==> {
                    &&& bi < pi
                    &&& starts_after(anchor, ps, after@, bi, bk)
                    &&& occurrence(anchor, ps[bi], bk) == Some((w.start@, w.end@))
                    &&& cloned(ps[bi].meta, w.meta)
                    &&& forall|i2: int, k2: int|
                        i2 < pi && #[trigger] starts_after(anchor, ps, after@, i2, k2) ==> comes_first(
                            anchor,
                            ps,
                            w,
                            bi,
                            bk,
                            i2,
                            k2,
                        )
                },
            decreases ps.len() - pi,
        {
            let (candidate, Ghost(ck)) = self.next_candidate(pi, after);
            let ghost old_best = best;
            if let Some(window) = candidate {
                let keep = match &best {
                    Some(current) => current.start.unix_nanos() < window.start.unix_nanos() || (
                    current.start.unix_nanos() == window.start.unix_nanos()
                        && current.end.unix_nanos() <= window.end.unix_nanos()),
                    None => false,
                };
                if !keep {
                    proof {
                        let ghost pii = pi as int;
                        if old_best is Some {
                            let cur = old_best->Some_0;
                            assert forall|i2: int, k2: int|
                                i2 < pi + 1 && #[trigger] starts_after(
                                    anchor,
                                    ps,
                                    after@,
                                    i2,
                                    k2,
                                ) implies comes_first(anchor, ps, window, pii, ck, i2, k2) by {
                                if i2 < pi {
                                    assert(comes_first(anchor, ps, cur, bi, bk, i2, k2));
                                }
                            }
                        } else {
                            assert forall|i2: int, k2: int|
                                i2 < pi + 1 && #[trigger] starts_after(
                                    anchor,
                                    ps,
                                    after@,
                                    i2,
                                    k2,
                                ) implies comes_first(anchor, ps, window, pii, ck, i2, k2) by {}
                        }
                        bi = pi as int;
                        bk = ck;
                    }
                    best = Some(window);
                } else {
                    proof {
                        let cur = old_best->Some_0;
                        let pii = pi as int;
                        assert forall|i2: int, k2: int|
                            i2 < pi + 1 && #[trigger] starts_after(
                                anchor,
                                ps,
                                after@,
                                i2,
                                k2,
                            ) implies comes_first(anchor, ps, cur, bi, bk, i2, k2) by {
                            if i2 == pii {
                                assert(starts_after(anchor, ps, after@, pii, k2));
                            }
                        }
                    }
                }
            } else {
                proof {
                    let pii = pi as int;
                    if best is None {
                        assert forall|i2: int, k2: int|
                            i2 < pi + 1 implies !#[trigger] starts_after(anchor, ps, after@, i2, k2) by {
                            if i2 == pii {
                                assert(!starts_after(anchor, ps, after@, pii, k2));
                            }
                        }
                    } else {
                        let cur = best->Some_0;
                        assert forall|i2: int, k2: int|
                            i2 < pi + 1 && #[trigger] starts_after(
                                anchor,
                                ps,
                                after@,
                                i2,
                                k2,
                            ) implies comes_first(anchor, ps, cur, bi, bk, i2, k2) by {
                            if i2 == pii {
                                assert(!starts_after(anchor, ps, after@, pii, k2));
                            }
                        }
                    }
                }
            }
            pi = pi + 1;
        }
        proof {
            if best is None {
                assert(!exists|i: int, k: int| #[trigger] starts_after(anchor, ps, after@, i, k));
            } else {
                let w = best->Some_0;
                assert(earliest_after(anchor, ps, after@, w, bi, bk));
            }
        }
        best
    }
}


/// Every window `active_windows` lists is active at `now`, and the list is
/// ordered by start, then end.
pub proof fn lemma_listed_windows_are_active_and_ordered<M: Clone>(
    anchor: int,
    ps: Seq<IntervalPattern<M>>,
    now: int,
    r: Seq<Window<M>>,
    src: Seq<(int, int)>,
)
    requires
        active_listing(anchor, ps, now, r, src),
    ensures
        forall|j: int| 0 <= j < r.len() ==> (#[trigger] r[j]).active_at(now),
        forall|j1: int, j2: int|
            0 <= j1 < j2 < r.len() ==> (#[trigger] r[j1]).start@ < (#[trigger] r[j2]).start@ || (
            r[j1].start@ == r[j2].start@ && r[j1].end@ <= r[j2].end@),
{
    assert forall|j: int| 0 <= j < r.len() implies (#[trigger] r[j]).active_at(now) by {
        assert(active_occurrence(anchor, ps, now, src[j].0, src[j].1));
    }
    assert forall|j1: int, j2: int| 0 <= j1 < j2 < r.len() implies (#[trigger] r[j1]).start@ < (
    #[trigger] r[j2]).start@ || (r[j1].start@ == r[j2].start@ && r[j1].end@ <= r[j2].end@) by {
        assert(lex_lt4(
            (r[j1].start@, r[j1].end@, src[j1].0, src[j1].1),
            (r[j2].start@, r[j2].end@, src[j2].0, src[j2].1),
        ));
    }
}

/// The next window starts strictly after `after`, is non-empty, and no
/// occurrence of any entry starts after `after` and before it.
pub proof fn lemma_next_window_is_earliest<M: Clone>(
    anchor: int,
    ps: Seq<IntervalPattern<M>>,
    after: int,
    w: Window<M>,
    i: int,
    k: int,
    i2: int,
    k2: int,
)
    requires
        earliest_after(anchor, ps, after, w, i, k),
        starts_after(anchor, ps, after, i2, k2),
    ensures
        w.start@ > after,
        w.start@ < w.end@,
        w.start@ <= start_of(occurrence(anchor, ps[i2], k2)),
{
}

/// The next window after `after` is active at its own start, whenever its
/// entry is looked at then (its start minus the entry's offset and duration
/// is a representable instant): `active_windows` at that instant lists it.
pub proof fn lemma_next_window_active_at_its_start<M: Clone>(
    anchor: int,
    ps: Seq<IntervalPattern<M>>,
    after: int,
    w: Window<M>,
    i: int,
    k: int,
)
    requires
        earliest_after(anchor, ps, after, w, i, k),
        in_utc_range(w.start@ - ps[i].offset@ - ps[i].duration@),
    ensures
        active_occurrence(anchor, ps, w.start@, i, k),
{
    let point = recurrence_point(anchor, ps[i], k)->0;
    assert(w.start@ - ps[i].offset@ == point);
}

/// A source keeps its entries ordered by `(at, offset, every, duration)`.
pub proof fn lemma_pattern_kept_in_key_order<M>(out: Seq<IntervalPattern<M>>, inp: Seq<IntervalPattern<M>>)
    requires
        is_stable_sort_of(out, inp, pattern_keys(inp)),
    ensures
        forall|j1: int, j2: int|
            0 <= j1 < j2 < out.len() ==> crate::sort::seq_le(
                pattern_key(#[trigger] out[j1]),
                pattern_key(#[trigger] out[j2]),
            ),
{
    let perm = choose|perm: Seq<int>| stably_sorted_by(out, inp, pattern_keys(inp), perm);
    assert forall|j1: int, j2: int| 0 <= j1 < j2 < out.len() implies crate::sort::seq_le(
        pattern_key(#[trigger] out[j1]),
        pattern_key(#[trigger] out[j2]),
    ) by {
        assert(pattern_keys(inp)[perm[j1]] == pattern_key(out[j1]));
        assert(pattern_keys(inp)[perm[j2]] == pattern_key(out[j2]));
    }
}

/// Occurrence `k` of an entry is the window from `anchor + at + k * every +
/// offset` lasting `duration`, whatever the sign of `offset`: it exists
/// exactly when `k` is not negative, the sums that `i64` arithmetic forms
/// fit, and the start and end are representable instants.
pub proof fn lemma_occurrence_is_shifted_recurrence<M>(anchor: int, p: IntervalPattern<M>, k: int)
    requires
        p.duration@ > 0,
    ensures
        ({
            let start = anchor + p.at@ + p.every@ * k + p.offset@;
            let end = start + p.duration@;
            occurrence(anchor, p, k) is Some <==> {
                &&& k >= 0
                &&& fits_i64(p.every@ * k)
                &&& fits_i64(p.at@ + p.every@ * k)
                &&& in_utc_range(anchor + p.at@ + p.every@ * k)
                &&& in_utc_range(start)
                &&& in_utc_range(end)
            }
        }),
        occurrence(anchor, p, k) matches Some((s, e)) ==> s == anchor + p.at@ + p.every@ * k
            + p.offset@ && e == s + p.duration@,
{
}

} // verus!
