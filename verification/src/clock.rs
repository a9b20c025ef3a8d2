//! The system clock, from which records get their timestamps.

use vstd::prelude::*;

verus! {

/// The current instant in milliseconds since the Unix epoch.
///
/// Reads the system time with `std::time::SystemTime::now`, turns it into a
/// `chrono::DateTime<Utc>` with chrono's `From<SystemTime>`, which gives an
/// instant before the epoch a negative count, and converts with
/// `DateTime::timestamp_millis`. Nothing is claimed of the value: the clock
/// may stand still or be set back between two calls.
#[verifier::external_body]
pub(crate) fn current_instant() -> (now: i64) {
    chrono::DateTime::<chrono::Utc>::from(std::time::SystemTime::now()).timestamp_millis()
}

} // verus!
