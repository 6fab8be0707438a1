//! The wall clock, as milliseconds since the Unix epoch.
use vstd::prelude::*;

verus! {

/// `chrono::Utc::now().timestamp_millis()`: the current time in milliseconds since the Unix
/// epoch. Nothing is stated of the value, which depends on when the call is made.
#[verifier::external_body]
pub(crate) fn now_millis() -> i64 {
    chrono::Utc::now().timestamp_millis()
}

} // verus!
