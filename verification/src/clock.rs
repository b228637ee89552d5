//! The wall clock.

use vstd::prelude::*;
use std::time::{SystemTime, UNIX_EPOCH};

verus! {

/// A point in time: whole seconds since the Unix epoch and the nanoseconds
/// past that second.
#[derive(Debug, Clone, Copy, PartialEq, Eq, PartialOrd, Ord, Hash, Structural)]
pub struct Timestamp {
    pub secs: i64,
    pub nanos: u32,
}

#[verifier::external_type_specification]
#[verifier::external_body]
pub struct ExSystemTime(std::time::SystemTime);

/// Reads the system clock with `std::time::SystemTime::now`.
///
/// Trusted: the reading depends on the machine's clock, so nothing is
/// stated of it.
#[verifier::external_body]
fn system_time_now() -> (t: SystemTime) {
    SystemTime::now()
}

/// How far a clock reading lies from the Unix epoch, with
/// `SystemTime::duration_since(UNIX_EPOCH)`: `Ok` with the whole seconds and
/// the nanoseconds after the epoch, or `Err` with how far (seconds and
/// nanoseconds) the reading lies before it.
///
/// Trusted: the seconds depend on the reading, so only the range of the
/// nanoseconds is stated; the standard library documents the sub-second
/// nanoseconds of a `Duration` as below one billion.
#[verifier::external_body]
fn offset_from_epoch(t: &SystemTime) -> (r: Result<(u64, u32), (u64, u32)>)
    ensures
        match r {
            Ok((_, n)) => n < 1_000_000_000,
            Err((_, n)) => n < 1_000_000_000,
        },
{
    match t.duration_since(UNIX_EPOCH) {
        Ok(d) => Ok((d.as_secs(), d.subsec_nanos())),
        Err(e) => Err((e.duration().as_secs(), e.duration().subsec_nanos())),
    }
}

/// The seconds of a timestamp `s` seconds after the epoch, the largest `i64`
/// when they do not fit.
pub open spec fn secs_after(s: u64) -> i64 {
    if s <= i64::MAX { s as i64 } else { i64::MAX }
}

/// The seconds of a timestamp `s` seconds before the epoch, the smallest
/// `i64` when they do not fit.
pub open spec fn secs_before(s: int) -> i64 {
    if s <= 0x8000_0000_0000_0000 { (-s) as i64 } else { i64::MIN }
}

/// The timestamp of a clock offset from the epoch: `Ok((s, n))` is the time
/// `s` seconds and `n` nanoseconds after the epoch; `Err((s, n))` the time that
/// far before it, which is `-s` whole seconds when `n` is zero and otherwise
/// `-s - 1` seconds and `1_000_000_000 - n` nanoseconds. Seconds that do not
/// fit an `i64` are clamped.
pub open spec fn timestamp_of_offset(r: Result<(u64, u32), (u64, u32)>) -> Timestamp {
    match r {
        Ok((s, n)) => Timestamp { secs: secs_after(s), nanos: n },
        Err((s, n)) => if n == 0 {
            Timestamp { secs: secs_before(s as int), nanos: 0 }
        } else {
            Timestamp { secs: secs_before(s + 1), nanos: (1_000_000_000 - n) as u32 }
        },
    }
}

/// The timestamp of a clock offset from the epoch (see `timestamp_of_offset`).
pub fn timestamp_from_offset(r: Result<(u64, u32), (u64, u32)>) -> (t: Timestamp)
    requires
        match r {
            Ok((_, n)) => n < 1_000_000_000,
            Err((_, n)) => n < 1_000_000_000,
        },
    ensures
        t == timestamp_of_offset(r),
        t.nanos < 1_000_000_000,
{
    match r {
        Ok((s, n)) => {
            let secs: i64 = if s <= 0x7fff_ffff_ffff_ffff { s as i64 } else { i64::MAX };
            Timestamp { secs, nanos: n }
        },
        Err((s, n)) => {
            if n == 0 {
                let secs: i64 = if s <= 0x7fff_ffff_ffff_ffff {
                    -(s as i64)
                } else {
                    i64::MIN
                };
                Timestamp { secs, nanos: 0 }
            } else {
                let secs: i64 = if s < 0x7fff_ffff_ffff_ffff {
                    -(s as i64) - 1
                } else {
                    i64::MIN
                };
                Timestamp { secs, nanos: 1_000_000_000 - n }
            }
        },
    }
}

/// The current time, read from the system clock; a clock set before 1970
/// gives a negative number of seconds.
pub(crate) fn now() -> (t: Timestamp)
    ensures
        t.nanos < 1_000_000_000,
{
    let clock = system_time_now();
    timestamp_from_offset(offset_from_epoch(&clock))
}

} // verus!
