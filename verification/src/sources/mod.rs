//! Concrete window sources.
pub mod grid;
pub mod interval;
pub mod schedule;
