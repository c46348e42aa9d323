//! The clock, read as plain numbers.

use vstd::prelude::*;

verus! {

/// A point in time: seconds since the Unix epoch and nanoseconds within the
/// second.
#[derive(Clone, Copy, Debug, PartialEq, Eq, Structural)]
pub struct Timestamp {
    pub secs: i64,
    pub nanos: u32,
}

/// `chrono`'s `DateTime<Utc>` for `std::time::SystemTime::now`, which also takes a
/// clock set before the Unix epoch. Nothing is claimed of the time it reads.
#[verifier::external_body]
pub(crate) fn utc_now() -> (t: Timestamp) {
    let now = chrono::DateTime::<chrono::Utc>::from(std::time::SystemTime::now());
    Timestamp { secs: now.timestamp(), nanos: now.timestamp_subsec_nanos() }
}

/// The nanoseconds from the Unix epoch to a time, zero for one before it.
pub open spec fn nanos_of(t: Timestamp) -> nat {
    if t.secs < 0 {
        0
    } else {
        (t.secs * 1_000_000_000 + t.nanos) as nat
    }
}

/// The nanoseconds from the Unix epoch to a time, zero for one before it.
pub fn nanos_since_epoch(t: Timestamp) -> (r: u128)
    ensures
        r == nanos_of(t),
        r < 0x1_0000_0000_0000_0000_0000_0000,
{
    if t.secs < 0 {
        0
    } else {
        (t.secs as u128) * 1_000_000_000 + t.nanos as u128
    }
}

} // verus!
