//! The wall clock. Nothing is claimed of what it reads.
use vstd::prelude::*;

verus! {

/// The current time, in seconds since the epoch (chrono's `Utc::now`).
/// Nothing is claimed of the value: it is the clock's.
#[verifier::external_body]
pub(crate) fn now_seconds() -> (r: i64) {
    chrono::Utc::now().timestamp()
}

/// The current time, in microseconds since the epoch (chrono's
/// `Utc::now`). Nothing is claimed of the value: it is the clock's.
#[verifier::external_body]
pub(crate) fn now_micros() -> (r: i64) {
    chrono::Utc::now().timestamp_micros()
}

} // verus!
