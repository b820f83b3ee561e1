//! Times, in nanoseconds from a fixed origin.
use vstd::prelude::*;

verus! {

/// A second.
pub const SECOND: u64 = 1_000_000_000;

/// A thousandth of a second.
pub const MILLISECOND: u64 = 1_000_000;

/// The time that has passed since then, and none if that is yet to come.
pub open spec fn passed(now: u64, since: u64) -> u64 {
    if now >= since {
        (now - since) as u64
    } else {
        0
    }
}

/// The time that has passed since then, and none if that is yet to come.
pub fn elapsed(now: u64, since: u64) -> (time: u64)
    ensures
        time == passed(now, since),
{
    if now >= since {
        now - since
    } else {
        0
    }
}

/// The time that much earlier, and the origin if that is not so far back.
pub open spec fn before(time: u64, by: u64) -> u64 {
    passed(time, by)
}

/// The time that much earlier, and the origin if that is not so far back.
pub fn earlier(time: u64, by: u64) -> (result: u64)
    ensures
        result == before(time, by),
{
    elapsed(time, by)
}

/// The time that much later, and the last time there is if that is nearer.
pub open spec fn after(time: u64, by: u64) -> u64 {
    if time + by > u64::MAX {
        u64::MAX
    } else {
        (time + by) as u64
    }
}

/// The time that much later, and the last time there is if that is nearer.
pub fn later(time: u64, by: u64) -> (result: u64)
    ensures
        result == after(time, by),
{
    if time > u64::MAX - by {
        u64::MAX
    } else {
        time + by
    }
}

} // verus!
