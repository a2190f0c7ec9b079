//! The two clocks that the server reads.

use std::time::Instant;

use vstd::prelude::*;

verus! {

/// The longest time from the Unix epoch that the system clock can show, in nanoseconds.
pub const MAX_UNIX_NANOS: i128 = 18_446_744_073_709_551_615_999_999_999;

/// A point of the monotonic clock, kept only to measure from.
#[verifier::external_type_specification]
#[verifier::external_body]
pub struct ExInstant(std::time::Instant);

/// Calls `std::time::Instant::now`. Nothing is claimed of the point that it returns.
#[verifier::external_body]
pub(crate) fn monotonic_now() -> (now: Instant) {
    Instant::now()
}

/// Calls `std::time::Instant::elapsed`: the time since `start`, in nanoseconds. Nothing is claimed
/// of the reading.
#[verifier::external_body]
pub(crate) fn nanos_since(start: &Instant) -> (nanos: u128) {
    start.elapsed().as_nanos()
}

/// Whether this can be a reading of the system clock: the nanoseconds are below one second.
pub open spec fn is_reading(reading: Result<(u64, u32), (u64, u32)>) -> bool {
    match reading {
        Ok(since) => since.1 < 1_000_000_000,
        Err(until) => until.1 < 1_000_000_000,
    }
}

/// Calls `std::time::SystemTime::elapsed` on the Unix epoch. The result holds the seconds and the
/// nanoseconds below a second: `Ok` for the time since the epoch, `Err` for the time that is left
/// until it. That the nanoseconds stay below one second is claimed; of the reading itself, nothing.
#[verifier::external_body]
fn since_unix_epoch() -> (reading: Result<(u64, u32), (u64, u32)>)
    ensures
        is_reading(reading),
{
    match std::time::SystemTime::UNIX_EPOCH.elapsed() {
        Ok(since) => Ok((since.as_secs(), since.subsec_nanos())),
        Err(before) => Err((before.duration().as_secs(), before.duration().subsec_nanos())),
    }
}

/// Nanoseconds from the Unix epoch to the reading of a clock: negative before the epoch.
pub open spec fn unix_nanos(reading: Result<(u64, u32), (u64, u32)>) -> int {
    match reading {
        Ok(since) => since.0 * 1_000_000_000 + since.1,
        Err(until) => -(until.0 * 1_000_000_000 + until.1),
    }
}

/// The system clock's reading as one signed number.
pub fn to_unix_nanos(reading: Result<(u64, u32), (u64, u32)>) -> (nanos: i128)
    ensures
        nanos == unix_nanos(reading),
{
    match reading {
        Ok(since) => since.0 as i128 * 1_000_000_000 + since.1 as i128,
        Err(until) => -(until.0 as i128 * 1_000_000_000 + until.1 as i128),
    }
}

/// The reading of the system clock that the number stands for: the inverse of `to_unix_nanos`.
pub fn from_unix_nanos(nanos: i128) -> (reading: Result<(u64, u32), (u64, u32)>)
    requires
        -MAX_UNIX_NANOS <= nanos <= MAX_UNIX_NANOS,
    ensures
        is_reading(reading),
        unix_nanos(reading) == nanos,
        reading is Ok <==> nanos >= 0,
{
    if nanos >= 0 {
        Ok(((nanos / 1_000_000_000) as u64, (nanos % 1_000_000_000) as u32))
    } else {
        let until: i128 = -nanos;
        Err(((until / 1_000_000_000) as u64, (until % 1_000_000_000) as u32))
    }
}

/// Whether reading the system clock gives this: a call of `since_unix_epoch` returns it.
pub closed spec fn system_clock_gives(reading: Result<(u64, u32), (u64, u32)>) -> bool {
    call_ensures(since_unix_epoch, (), reading)
}

/// Whether reading the monotonic clock gives this: a call of `monotonic_now` returns it.
pub closed spec fn monotonic_clock_gives(now: Instant) -> bool {
    call_ensures(monotonic_now, (), now)
}

/// Whether measuring the time since `start` gives this, in nanoseconds: a call of `nanos_since`
/// returns it.
pub closed spec fn elapsed_gives(start: Instant, nanos: u128) -> bool {
    call_ensures(nanos_since, (&start,), nanos)
}

/// Whether reading the system clock gives this time, in nanoseconds from the Unix epoch.
pub open spec fn is_clock_time(nanos: i128) -> bool {
    exists|reading: Result<(u64, u32), (u64, u32)>| #[trigger]
        system_clock_gives(reading) && is_reading(reading) && nanos == unix_nanos(reading)
}

/// The system time, in nanoseconds from the Unix epoch.
pub(crate) fn system_now() -> (nanos: i128)
    ensures
        is_clock_time(nanos),
{
    let reading = since_unix_epoch();
    assert(system_clock_gives(reading));
    to_unix_nanos(reading)
}

/// The time since a point is what measuring it returns, and nothing else.
pub(crate) proof fn lemma_elapsed_is_read(start: Instant, nanos: u128)
    ensures
        elapsed_gives(start, nanos) <==> call_ensures(nanos_since, (&start,), nanos),
{
}

/// A point of the monotonic clock is what reading the clock returns, and nothing else.
pub(crate) proof fn lemma_start_is_read(now: Instant)
    ensures
        monotonic_clock_gives(now) <==> call_ensures(monotonic_now, (), now),
{
}

/// A reading of the system clock is what reading the clock returns, and nothing else.
proof fn lemma_reading_is_read(reading: Result<(u64, u32), (u64, u32)>)
    ensures
        system_clock_gives(reading) <==> call_ensures(since_unix_epoch, (), reading),
{
}

/// The system time is what the clock gives when it is read for it, counted in nanoseconds: it is
/// not shifted or rounded.
proof fn lemma_system_time_is_read_from_the_clock(time: i128)
    requires
        call_ensures(system_now, (), time),
    ensures
        exists|reading: Result<(u64, u32), (u64, u32)>|
            {
                &&& #[trigger] call_ensures(since_unix_epoch, (), reading)
                &&& match reading {
                    Ok(since) => time == since.0 * 1_000_000_000 + since.1 && since.1
                        < 1_000_000_000,
                    Err(until) => time == -(until.0 * 1_000_000_000 + until.1) && until.1
                        < 1_000_000_000,
                }
            },
{
    let reading = choose|reading: Result<(u64, u32), (u64, u32)>| #[trigger]
        system_clock_gives(reading) && is_reading(reading) && time == unix_nanos(reading);
    assert(call_ensures(since_unix_epoch, (), reading));
}

/// A time that the system clock gives is counted in nanoseconds from the Unix epoch, forwards after
/// it and backwards before it: the epoch is zero, a second is a thousand million, and the time
/// before the epoch is the mirror image of the time after it.
pub proof fn lemma_time_is_counted_in_nanoseconds(
    seconds: u64,
    nanos: u32,
    more: u64,
    time: i128,
    later: i128,
    before: i128,
)
    requires
        call_ensures(to_unix_nanos, (Ok::<(u64, u32), (u64, u32)>((seconds, nanos)),), time),
        call_ensures(to_unix_nanos, (Err::<(u64, u32), (u64, u32)>((seconds, nanos)),), before),
        seconds + more <= u64::MAX,
        call_ensures(
            to_unix_nanos,
            (Ok::<(u64, u32), (u64, u32)>(((seconds + more) as u64, nanos)),),
            later,
        ),
    ensures
        time % 1_000_000_000 == nanos % 1_000_000_000,
        seconds == 0 ==> time == nanos,
        later - time == more * 1_000_000_000,
        before == -time,
{
}

/// Turning a time into a reading and back gives the time, and a reading that a clock can show is
/// recovered from its time.
pub proof fn lemma_times_and_readings_match(
    time: i128,
    reading: Result<(u64, u32), (u64, u32)>,
    again: i128,
)
    requires
        call_ensures(from_unix_nanos, (time,), reading),
        call_ensures(to_unix_nanos, (reading,), again),
        -MAX_UNIX_NANOS <= time <= MAX_UNIX_NANOS,
    ensures
        again == time,
        reading is Ok <==> time >= 0,
{
}

} // verus!
