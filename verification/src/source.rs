//! Producers of time windows.
use vstd::prelude::*;

use crate::time::Timestamp;
use crate::window::Window;

verus! {

/// A producer of time windows.
///
/// A `WindowSource` answers two questions: which windows are active at a given
/// moment, and what is the next window after a given moment. Sources may
/// produce overlapping windows, so `active_windows` returns a `Vec`.
pub trait WindowSource {
    /// Metadata attached to each generated window.
    type Meta;

    /// Returns all windows active at `now` (zero, one or many).
    fn active_windows(&self, now: Timestamp) -> Vec<Window<Self::Meta>>;

    /// Returns the next window after `after`.
    ///
    /// Implementations must return a window whose `start` is strictly greater
    /// than `after`; [`crate::NextWindows`] stops on a window that does not
    /// make progress.
    fn next_window(&self, after: Timestamp) -> Option<Window<Self::Meta>>;
}

/// A [`WindowSource`] that also supports reverse lookup.
pub trait BidirectionalWindowSource: WindowSource {
    /// Returns the previous window before `before`.
    ///
    /// Implementations must return a window whose `start` is strictly less
    /// than `before`.
    fn prev_window(&self, before: Timestamp) -> Option<Window<Self::Meta>>;
}

} // verus!
