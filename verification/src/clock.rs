//! Access to the wall clock.

use vstd::prelude::*;

verus! {

/// Relies on `chrono::Utc::now` and `chrono::DateTime::timestamp_micros`:
/// the current time as microseconds since the Unix epoch. Nothing is
/// assumed of the value; callers must hold for every outcome.
#[verifier::external_body]
pub(crate) fn now_micros() -> i64 {
    chrono::Utc::now().timestamp_micros()
}

} // verus!
