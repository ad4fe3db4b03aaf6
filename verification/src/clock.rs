//! The wall clock, read through chrono.
use vstd::prelude::*;

verus! {

/// Milliseconds since the Unix epoch of chrono's `Utc::now()`. Nothing is
/// stated of the value: it is the current time. (chrono panics if the
/// system clock is set before the epoch.)
#[verifier::external_body]
pub(crate) fn utc_now_millis() -> i64 {
    chrono::Utc::now().timestamp_millis()
}

} // verus!
