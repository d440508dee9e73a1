//! The engine's single external dependency: a wall-clock reading used to
//! stamp condition transitions.

use vstd::prelude::*;

verus! {

/// Relies on `chrono::Utc::now` / `DateTime::timestamp_millis`: the current
/// wall-clock time as milliseconds since the Unix epoch.  Nothing is
/// promised of the value; callers state what holds whatever time comes back.
/// `Utc::now` itself aborts on a machine whose system clock reads before
/// the Unix epoch; the clock-stamped entry points inherit that.
#[verifier::external_body]
pub(crate) fn now_millis() -> i64 {
    chrono::Utc::now().timestamp_millis()
}

} // verus!
