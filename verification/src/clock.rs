//! The tracking clock: `u32` cycles that wrap around.
//!
//! Timestamps are compared by distance on the wrapped counter, never by
//! their plain order. The comparisons themselves are shipyard's.

use shipyard::TrackingTimestamp;
use vstd::prelude::*;

verus! {

/// Half of the counter's range: how far back a timestamp can lie and still
/// count as older.
pub const HALF_RANGE: u32 = 0x7fff_ffffu32;

/// The distance from `from` forward to `to` on the wrapped counter.
pub open spec fn distance(from: u32, to: u32) -> int {
    (to - from) % 0x1_0000_0000
}

/// Whether `t` lies after `last` and not after `current`.
///
/// When `last == current` the window is the whole counter.
pub open spec fn within(t: u32, last: u32, current: u32) -> bool {
    distance(t, current) <= (distance(last, current) - 1) % 0x1_0000_0000
}

/// Whether `t` lies less than [`HALF_RANGE`] cycles before `horizon`.
pub open spec fn older_than(t: u32, horizon: u32) -> bool {
    (distance(t, horizon) - 1) % 0x1_0000_0000 < HALF_RANGE
}

/// The timestamp [`HALF_RANGE`] cycles after `t`.
pub open spec fn furthest(t: u32) -> u32 {
    ((t + HALF_RANGE) % 0x1_0000_0000) as u32
}

/// `TrackingTimestamp::is_within`: with `bounds` the wrapped difference
/// `current - (last + 1)` and `track` the wrapped difference `current - t`,
/// the answer is `track <= bounds`.
#[verifier::external_body]
pub(crate) fn is_within(t: u32, last: u32, current: u32) -> (r: bool)
    ensures
        r == within(t, last, current),
{
    TrackingTimestamp::new(t).is_within(TrackingTimestamp::new(last), TrackingTimestamp::new(current))
}

/// `TrackingTimestamp::is_older_than`: the wrapped difference
/// `horizon - 1 - t` is below half of the counter's range.
#[verifier::external_body]
pub(crate) fn is_older_than(t: u32, horizon: u32) -> (r: bool)
    ensures
        r == older_than(t, horizon),
{
    TrackingTimestamp::new(t).is_older_than(TrackingTimestamp::new(horizon))
}

/// The timestamp furthest from `t`: half of the counter's range after it,
/// wrapped.
pub fn furthest_from(t: u32) -> (r: u32)
    ensures
        r == furthest(t),
{
    let r: u32 = t.wrapping_add(HALF_RANGE);
    r
}

} // verus!
