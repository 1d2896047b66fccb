//! The one place the library touches the clock.  Everything downstream works
//! on plain day numbers, so the rest of the regimen logic is verified for
//! every day the clock could report.

use vstd::prelude::*;

verus! {

/// Relies on chrono's `Local::now` and `Datelike::num_days_from_ce`: the
/// number of whole days from the start of the common era to the local
/// calendar date at the moment of the call.  The result depends on the
/// clock, so nothing is promised of it.
#[verifier::external_body]
pub(crate) fn now_days_from_ce() -> i32 {
    chrono::Datelike::num_days_from_ce(&chrono::Local::now())
}

/// Today as a non-negative day number: the local date's count of days from
/// the common era, with dates before it flattened to day zero.
pub fn today_day_number() -> (r: u64) {
    let d = now_days_from_ce();
    if d < 0 {
        0
    } else {
        d as u64
    }
}

} // verus!
