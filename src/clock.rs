//! The wall clock, read through chrono.
use vstd::prelude::*;

verus! {

/// Relies on `std::time::SystemTime::now`, chrono's `From<SystemTime>` for
/// `DateTime<Utc>` and `DateTime::timestamp_micros`: the current wall-clock time
/// as microseconds since the Unix epoch. No time zone is consulted, and a clock
/// set before 1970 gives a negative value. Nothing is promised of the value,
/// which depends on when it is read.
#[verifier::external_body]
pub(crate) fn now_micros() -> (r: i64) {
    chrono::DateTime::<chrono::Utc>::from(std::time::SystemTime::now()).timestamp_micros()
}

} // verus!
