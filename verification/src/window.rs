//! A half-open interval `[start, end)` of UTC time carrying metadata.
use vstd::prelude::*;

use crate::time::{Duration, Timestamp};

verus! {

/// A half-open time interval `[start, end)` with associated metadata.
///
/// A window is active at `now` when `start <= now && now < end`: the start is
/// included and the end excluded, so adjacent windows do not overlap at their
/// shared boundary.
#[derive(Debug, Clone, PartialEq, Eq)]
pub struct Window<M> {
    /// Inclusive start of the window.
    pub start: Timestamp,
    /// Exclusive end of the window.
    pub end: Timestamp,
    /// Arbitrary metadata associated with the window.
    pub meta: M,
}

impl<M> Window<M> {
    /// The window has not started yet at `now`.
    pub open spec fn upcoming_at(self, now: int) -> bool {
        now < self.start@
    }

    /// The window is active at `now`.
    pub open spec fn active_at(self, now: int) -> bool {
        self.start@ <= now && now < self.end@
    }

    /// The window has ended at or before `now`.
    pub open spec fn expired_at(self, now: int) -> bool {
        now >= self.end@
    }

    /// The window is non-empty: `start < end`.
    pub open spec fn well_formed(self) -> bool {
        self.start@ < self.end@
    }

    /// Creates a new window if `start < end`; `None` for an empty or inverted
    /// interval.
    pub fn new(start: Timestamp, end: Timestamp, meta: M) -> (r: Option<Self>)
        ensures
            r is Some <==> start@ < end@,
            r matches Some(w) ==> w.start == start && w.end == end && w.meta == meta,
    {
        if start.unix_nanos() < end.unix_nanos() {
            Some(Window { start, end, meta })
        } else {
            None
        }
    }

    /// Returns `true` if the window has not started yet at `now`
    /// (`now < self.start`).
    pub fn is_upcoming(&self, now: Timestamp) -> (r: bool)
        ensures
            r == self.upcoming_at(now@),
    {
        now.unix_nanos() < self.start.unix_nanos()
    }

    /// Returns `true` if the window is active at `now`
    /// (`self.start <= now && now < self.end`).
    pub fn is_active(&self, now: Timestamp) -> (r: bool)
        ensures
            r == self.active_at(now@),
    {
        self.start.unix_nanos() <= now.unix_nanos() && now.unix_nanos() < self.end.unix_nanos()
    }

    /// Returns `true` if the window has ended at or before `now`
    /// (`now >= self.end`).
    pub fn is_expired(&self, now: Timestamp) -> (r: bool)
        ensures
            r == self.expired_at(now@),
    {
        now.unix_nanos() >= self.end.unix_nanos()
    }

    /// Returns the total duration of the window, `end - start`.
    pub fn duration(&self) -> (r: Duration)
        ensures
            r@ == self.end@ - self.start@,
    {
        self.end.signed_duration_since(self.start)
    }

    /// Returns the time elapsed since the start of the window at `now`, if the
    /// window is active at `now`; `None` otherwise.
    pub fn elapsed_at(&self, now: Timestamp) -> (r: Option<Duration>)
        ensures
            r is Some <==> self.active_at(now@),
            r matches Some(d) ==> d@ == now@ - self.start@,
    {
        if self.is_active(now) {
            Some(now.signed_duration_since(self.start))
        } else {
            None
        }
    }

    /// Returns the time remaining until the end of the window at `now`, if
    /// the window is active at `now`; `None` otherwise.
    pub fn remaining_at(&self, now: Timestamp) -> (r: Option<Duration>)
        ensures
            r is Some <==> self.active_at(now@),
            r matches Some(d) ==> d@ == self.end@ - now@,
    {
        if self.is_active(now) {
            Some(self.end.signed_duration_since(now))
        } else {
            None
        }
    }
}

/// At every instant a non-empty window is in exactly one of its three phases:
/// upcoming, active or expired.
pub proof fn lemma_exactly_one_phase<M>(w: Window<M>, now: int)
    requires
        w.well_formed(),
    ensures
        w.upcoming_at(now) || w.active_at(now) || w.expired_at(now),
        !(w.upcoming_at(now) && w.active_at(now)),
        !(w.active_at(now) && w.expired_at(now)),
        !(w.upcoming_at(now) && w.expired_at(now)),
{
}

/// While a window is active, the time elapsed since its start and the time
/// remaining until its end add up to its duration.
pub proof fn lemma_elapsed_plus_remaining<M>(w: Window<M>, now: int, elapsed: int, remaining: int)
    requires
        w.active_at(now),
        elapsed == now - w.start@,
        remaining == w.end@ - now,
    ensures
        elapsed + remaining == w.end@ - w.start@,
        0 <= elapsed,
        0 < remaining,
{
}

/// Adjacent windows (`a.end == b.start`) are never active at the same
/// instant: the shared boundary belongs to the later window only.
pub proof fn lemma_adjacent_windows_do_not_overlap<M, N>(a: Window<M>, b: Window<N>, now: int)
    requires
        a.end@ == b.start@,
    ensures
        !(a.active_at(now) && b.active_at(now)),
        now == a.end@ ==> !a.active_at(now) && (b.well_formed() ==> b.active_at(now)),
{
}

} // verus!
