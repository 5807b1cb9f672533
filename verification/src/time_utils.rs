//! The clock source: wall-clock seconds, read once per admission decision.
//! Every strategy advances its time-based state lazily from readings of this
//! clock instead of running a background timer.

use vstd::prelude::*;

verus! {

/// Relies on chrono's `Utc::now` and `DateTime::timestamp`: the current
/// wall-clock time, as whole seconds since the Unix epoch. Nothing can be
/// promised of a clock reading.
#[verifier::external_body]
pub fn get_current_time() -> i64 {
    chrono::Utc::now().timestamp()
}

/// The clock reading on the unsigned timeline the limiters account on;
/// readings before the epoch collapse to the epoch.
pub fn now_seconds() -> u64 {
    let t = get_current_time();
    if t >= 0 {
        t as u64
    } else {
        0
    }
}

} // verus!
