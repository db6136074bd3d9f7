//! Wall-clock time as nanoseconds from the Unix epoch, and the age limit of
//! the "older than N days" filter.

use vstd::prelude::*;

verus! {

/// A reading of the system clock against the Unix epoch: how far after it,
/// or how far before it, in nanoseconds.
pub enum ClockReading {
    AfterEpoch(u128),
    BeforeEpoch(u128),
}

/// std's `SystemTime::now`, measured against `UNIX_EPOCH` with
/// `duration_since` (its `Err` carries the distance when the clock reads
/// before the epoch) and `Duration::as_nanos`. Nothing is stated of the
/// value: it is whatever the clock reads.
#[verifier::external_body]
fn clock_reading() -> ClockReading {
    match std::time::SystemTime::now().duration_since(std::time::UNIX_EPOCH) {
        Ok(d) => ClockReading::AfterEpoch(d.as_nanos()),
        Err(e) => ClockReading::BeforeEpoch(e.duration().as_nanos()),
    }
}

/// A distance in nanoseconds, capped at what an `i128` holds.
fn capped(m: u128) -> (r: i128)
    ensures
        r == (if m <= i128::MAX {
            m as int
        } else {
            i128::MAX as int
        }),
{
    if m <= 170141183460469231731687303715884105727u128 {
        m as i128
    } else {
        i128::MAX
    }
}

/// The current time in nanoseconds from the Unix epoch (negative before it).
pub(crate) fn unix_now_nanos() -> (t: i128)
    ensures
        t > i128::MIN,
{
    match clock_reading() {
        ClockReading::AfterEpoch(m) => capped(m),
        ClockReading::BeforeEpoch(m) => -capped(m),
    }
}

pub open spec fn nanos_per_day() -> int {
    86_400_000_000_000
}

/// `now` minus `days` days, or `i128::MIN` when that falls below what an
/// `i128` holds.
pub open spec fn age_cutoff_spec(now: i128, days: u64) -> i128 {
    if now - days * nanos_per_day() >= i128::MIN {
        (now - days * nanos_per_day()) as i128
    } else {
        i128::MIN
    }
}

/// The moment `days` days before `now`.
pub fn age_cutoff(now: i128, days: u64) -> (t: i128)
    requires
        days * 86400 <= u64::MAX,
    ensures
        t == age_cutoff_spec(now, days),
{
    let secs: u64 = days * 86400;
    let span: i128 = (secs as i128) * 1_000_000_000;
    if now >= i128::MIN + span {
        now - span
    } else {
        i128::MIN
    }
}

} // verus!
