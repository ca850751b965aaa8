//! The clock of the machine.

use vstd::prelude::*;

verus! {

/// The current time in seconds since the epoch, as `time::get_time` reports
/// it. Nothing is claimed of the number: it is whatever the clock says.
#[verifier::external_body]
pub(crate) fn unix_seconds_now() -> (now: i64) {
    time::get_time().sec
}

} // verus!
