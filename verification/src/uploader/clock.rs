//! The time of day.

use chrono::Utc;
use vstd::prelude::*;

verus! {

/// The last second of the year 262142, with which the dates of `chrono` end, in
/// seconds since the start of 1970.
pub open spec fn latest_timestamp() -> int {
    8_210_266_876_799
}

/// Calls `chrono::Utc::now` and `timestamp` on what it returns.
///
/// Claimed of them: the seconds since the start of 1970 are not negative, since
/// `now` takes the time that has passed since then, and not beyond the last date
/// that `chrono` can tell. `now` panics where the clock of the machine stands before
/// or beyond these. Nothing more holds of every call.
#[verifier::external_body]
pub(crate) fn utc_timestamp() -> (r: i64)
    ensures
        0 <= r <= latest_timestamp(),
{
    Utc::now().timestamp()
}

}
