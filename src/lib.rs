//! A phi accrual failure detector's bookkeeping: a bounded sliding window of
//! heartbeat inter-arrival intervals, with exact statistics over it.
//!
//! Timestamps are signed microseconds since the Unix epoch; intervals are kept
//! in whole milliseconds.
pub mod clock;
pub mod laws;
pub mod statistics;
