//! Business-day bucketing of transit stop events.
//!
//! A business day starts at 03:00 and ends at 02:59:59 of the next calendar
//! day. The library places clock times on that day, maps them to buckets of a
//! chosen granularity, folds stop events into per-line histograms, and
//! interpolates the passenger load of a single service across its dwell.

pub mod clock;
pub mod bucket;
pub mod histogram;
pub mod aggregate;
pub mod flow;
pub mod laws;
pub mod series;
pub mod summary;
pub mod fields;
