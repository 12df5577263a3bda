//! Generic time-window generation for recurring, overlapping and
//! metadata-rich intervals.
//!
//! A window is a half-open UTC interval `[start, end)` paired with arbitrary
//! metadata. A [`WindowSource`] produces the windows active at an instant and
//! the next window after an instant; windows may overlap. Two sources are
//! provided: [`IntervalSource`], patterns recurring at fixed periods from a
//! shared anchor, and [`ScheduleSource`], calendar and clock rules evaluated
//! on the wall clock of a time zone.
use vstd::prelude::*;

pub mod time;
pub mod window;
pub mod source;
pub mod iter;
pub mod derived;
pub mod sort;
pub mod zone;
pub mod sources;

pub use time::{Duration, TimeOfDay, Timestamp, Weekday};
pub use window::Window;
pub use source::{BidirectionalWindowSource, WindowSource};
pub use derived::DerivedWindowSource;
pub use iter::{NextWindows, WindowSourceExt};
pub use sources::interval::{IntervalPattern, IntervalSource, IntervalSourceError};
pub use sources::schedule::{Schedule, ScheduleRule, ScheduleSource, ScheduleSourceError};
pub use zone::Zone;

verus! {

} // verus!
