//! Points in time, as the notes record them.

use vstd::prelude::*;

verus! {

/// An instant in UTC: whole non-leap seconds since 1970-01-01T00:00:00Z, and the
/// nanoseconds since the start of that second.
#[derive(Clone, Copy, Debug, PartialEq, Eq, Structural)]
pub struct Timestamp {
    pub secs: i64,
    pub nanos: u32,
}

/// The present instant, read from the system clock by `chrono::Utc::now` and
/// taken apart by `DateTime::timestamp` and `DateTime::timestamp_subsec_nanos`.
///
/// Trusted. Nothing is promised of the reading: two calls may return any two
/// instants, in any order.
#[verifier::external_body]
pub(crate) fn current_time() -> (now: Timestamp) {
    let reading = chrono::Utc::now();
    Timestamp { secs: reading.timestamp(), nanos: reading.timestamp_subsec_nanos() }
}

} // verus!
