//! The present instant.

use vstd::prelude::*;

verus! {

/// `chrono::Utc::now`, read as microseconds since the Unix epoch by
/// `DateTime::timestamp_micros`. Nothing is claimed of the instant: two
/// readings may differ, and the clock may have been set back between them.
/// The call panics where the system clock stands before the epoch.
#[verifier::external_body]
pub(crate) fn utc_now_micros() -> (instant: i64) {
    chrono::Utc::now().timestamp_micros()
}

} // verus!
