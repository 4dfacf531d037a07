//! Times of day, made coarse.

use vstd::prelude::*;

verus! {

/// The last full hour at or before a time.
pub open spec fn hour_of(timestamp: int) -> int {
    timestamp / 3600 * 3600
}

/// Rounds a time down to the hour, also before the epoch. Exact arrival times
/// could be matched with network traffic and give voters away.
pub fn truncate_to_hour(timestamp: i64) -> (hour: i64)
    requires
        hour_of(timestamp as int) >= i64::MIN,
    ensures
        hour == hour_of(timestamp as int),
{
    if timestamp >= 0 {
        timestamp / 3600 * 3600
    } else {
        let past: i64 = -(timestamp + 1);
        let hours: i64 = past / 3600 + 1;
        assert(timestamp as int / 3600 == -hours);
        -hours * 3600
    }
}

/// A coarse time is a full hour, at most an hour before the time itself, and
/// is not made any coarser by another rounding.
pub proof fn law_hour_is_coarse(timestamp: int)
    ensures
        hour_of(timestamp) % 3600 == 0,
        hour_of(timestamp) <= timestamp < hour_of(timestamp) + 3600,
        hour_of(hour_of(timestamp)) == hour_of(timestamp),
{
}

} // verus!
