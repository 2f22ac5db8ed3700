//! Time, as nanoseconds on a clock that never goes back.

use vstd::prelude::*;

verus! {

/// The nanoseconds in a second.
pub const SECOND: u64 = 1_000_000_000;

/// The time from `then` to `now`; none if `then` is yet to come.
pub open spec fn elapsed(now: u64, then: u64) -> u64 {
    if now >= then {
        (now - then) as u64
    } else {
        0
    }
}

/// The whole seconds from `then` to `now`.
pub open spec fn seconds(now: u64, then: u64) -> u64 {
    elapsed(now, then) / SECOND
}

/// Measures the time from `then` to `now`.
pub fn time_since(now: u64, then: u64) -> (r: u64)
    ensures
        r == elapsed(now, then),
{
    if now >= then {
        now - then
    } else {
        0
    }
}

/// Measures the whole seconds from `then` to `now`.
pub fn seconds_since(now: u64, then: u64) -> (r: u64)
    ensures
        r == seconds(now, then),
{
    time_since(now, then) / SECOND
}

/// The moments that a staker's node waits from.
#[derive(Clone, Copy, PartialEq, Eq, Structural)]
pub struct Clocks {
    /// when the current round began
    pub timekeeper: u64,
    /// when the wait for the leader began
    pub waitingforleader: u64,
    /// when the wait for the next block's transactions began
    pub waitingforentry: u64,
    /// when the last block came, if it came before its time
    pub doneerly: u64,
    /// when anything was last heard
    pub usurping: u64,
    /// when the interface was last told of friends
    pub gui: u64,
}

/// Time is measured in nanoseconds and in whole seconds of a billion of them:
/// what was measured leads back to the moment of measuring, nothing was
/// measured of a moment that is yet to come, and more than `count` seconds went
/// by exactly if the next whole second is over.
pub proof fn seconds_are_whole(now: u64, then: u64, count: u64)
    ensures
        now >= then ==> then + elapsed(now, then) == now,
        now < then ==> elapsed(now, then) == 0 && seconds(now, then) == 0,
        seconds(now, then) > count <==> now >= then + (count + 1) * 1_000_000_000,
{
    let e = elapsed(now, then);
    assert(e / SECOND > count <==> e >= (count + 1) * 1_000_000_000) by (nonlinear_arith)
        requires
            SECOND == 1_000_000_000,
    ;
}

} // verus!
