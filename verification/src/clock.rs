//! The wall clock, read as whole microseconds since the Unix epoch.

use vstd::prelude::*;

verus! {

/// The current time by `chrono::Utc::now`, handed out by
/// `DateTime::timestamp_micros` as microseconds since the Unix epoch.
/// Nothing is claimed of the value: two reads may differ, and the clock may
/// be set back between them. `Utc::now` panics on a machine whose clock
/// stands before the epoch.
#[verifier::external_body]
pub(crate) fn now_micros() -> (t: i64) {
    chrono::Utc::now().timestamp_micros()
}

} // verus!
