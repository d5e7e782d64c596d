//! The wall clock in milliseconds, and the rule by which an RTU counts as online.

use std::time::{Duration, SystemTime, SystemTimeError};
use vstd::prelude::*;

verus! {

/// How long an RTU stays online after its last successful poll, unless the
/// configuration says otherwise.
pub const OFFLINE_AFTER_MS: u64 = 10_000;

/// `std::time::SystemTime`, a point in wall-clock time.
#[verifier::external_type_specification]
#[verifier::external_body]
pub struct ExSystemTime(SystemTime);

/// `std::time::SystemTimeError`, given when one point in time is earlier than
/// another that it is measured from.
#[verifier::external_type_specification]
#[verifier::external_body]
pub struct ExSystemTimeError(SystemTimeError);

/// `std::time::SystemTime::now` reads the system clock. Nothing is claimed of
/// what it reads.
pub assume_specification[ SystemTime::now ]() -> SystemTime
;

/// The length of a duration in nanoseconds.
pub uninterp spec fn nanos_in(d: Duration) -> nat;

/// `std::time::Duration::as_millis` gives the number of whole milliseconds in a
/// duration.
pub assume_specification[ Duration::as_millis ](d: &Duration) -> (r: u128)
    ensures
        r == nanos_in(*d) / 1_000_000,
;

/// The nanoseconds from the Unix epoch to a point in time, negative for an
/// earlier one.
pub uninterp spec fn nanos_since_epoch(t: SystemTime) -> int;

/// Calls `std::time::SystemTime::duration_since` with the Unix epoch: the time
/// from the epoch to `t`, or an error exactly if `t` is earlier. What the error
/// tells of how much earlier is left unsaid.
#[verifier::external_body]
fn since_unix_epoch(t: SystemTime) -> (r: Result<Duration, SystemTimeError>)
    ensures
        match r {
            Ok(elapsed) => nanos_in(elapsed) == nanos_since_epoch(t),
            Err(_) => nanos_since_epoch(t) < 0,
        },
{
    t.duration_since(std::time::UNIX_EPOCH)
}

/// What a reading of the system clock gives.
#[derive(Clone, Copy, Debug, PartialEq, Eq, Structural)]
pub enum ClockReading {
    /// Whole milliseconds since the Unix epoch.
    SinceEpoch(u128),
    /// The clock stands before the Unix epoch.
    BeforeEpoch,
}

/// The clock cannot be expressed as a timestamp.
#[derive(Clone, Copy, Debug, PartialEq, Eq, Structural)]
pub enum ClockError {
    /// The clock stands before the Unix epoch.
    BeforeEpoch,
}

/// The timestamp of a clock reading: its milliseconds, kept to 64 bits.
pub open spec fn timestamp(reading: ClockReading) -> Result<u64, ClockError> {
    match reading {
        ClockReading::SinceEpoch(millis) => Ok((millis as int % 0x1_0000_0000_0000_0000) as u64),
        ClockReading::BeforeEpoch => Err(ClockError::BeforeEpoch),
    }
}

/// Turns a clock reading into a timestamp.
pub fn timestamp_ms(reading: ClockReading) -> (r: Result<u64, ClockError>)
    ensures
        r == timestamp(reading),
{
    match reading {
        ClockReading::SinceEpoch(millis) => {
            assert(#[verifier::truncate] (millis as u64) == millis
                % 0x1_0000_0000_0000_0000u128) by (bit_vector);
            Ok(#[verifier::truncate] (millis as u64))
        },
        ClockReading::BeforeEpoch => Err(ClockError::BeforeEpoch),
    }
}

/// The clock reading at a point in time, given by its nanoseconds from the Unix
/// epoch: the whole milliseconds, unless the point is before the epoch.
pub open spec fn clock_reading(nanos: int) -> ClockReading {
    if nanos < 0 {
        ClockReading::BeforeEpoch
    } else {
        ClockReading::SinceEpoch((nanos / 1_000_000) as u128)
    }
}

/// Turns a time measured from the Unix epoch into a clock reading: one that
/// could not be measured is before the epoch.
pub fn reading_of(since_epoch: Result<Duration, SystemTimeError>) -> (r: ClockReading)
    ensures
        r == match since_epoch {
            Ok(elapsed) => clock_reading(nanos_in(elapsed) as int),
            Err(_) => ClockReading::BeforeEpoch,
        },
{
    match since_epoch {
        Ok(elapsed) => ClockReading::SinceEpoch(elapsed.as_millis()),
        Err(_) => ClockReading::BeforeEpoch,
    }
}

/// Reads the system clock: the reading is that of the point in time which the
/// system gives as the current one.
fn read_clock() -> (r: ClockReading)
    ensures
        exists|t: SystemTime|
            call_ensures(SystemTime::now, (), t) && r == clock_reading(
                #[trigger] nanos_since_epoch(t),
            ),
{
    reading_of(since_unix_epoch(SystemTime::now()))
}

/// The current timestamp: the whole milliseconds from the Unix epoch, kept to 64
/// bits, to the point in time which the system gives as the current one. There is
/// none exactly if that point is before the epoch.
pub fn now_ms() -> (r: Result<u64, ClockError>)
    ensures
        exists|t: SystemTime|
            call_ensures(SystemTime::now, (), t) && r == timestamp(
                clock_reading(#[trigger] nanos_since_epoch(t)),
            ),
{
    timestamp_ms(read_clock())
}

/// `later - earlier`, or zero where that would be negative.
pub open spec fn elapsed(later: u64, earlier: u64) -> u64 {
    if later >= earlier {
        (later - earlier) as u64
    } else {
        0
    }
}

/// Whether an RTU that last answered at `last_success_ms` is online at `now`.
/// The timestamp 0 stands for "never answered".
pub open spec fn online_at(last_success_ms: u64, now: u64, offline_after_ms: u64) -> bool {
    last_success_ms != 0 && elapsed(now, last_success_ms) <= offline_after_ms
}

/// Decides whether an RTU is online at a given time.
pub fn is_online_at(last_success_ms: u64, now: u64, offline_after_ms: u64) -> (r: bool)
    ensures
        r == online_at(last_success_ms, now, offline_after_ms),
{
    last_success_ms != 0 && now.saturating_sub(last_success_ms) <= offline_after_ms
}

/// Whether an RTU is online when the clock reads `clock`. An RTU that has never
/// answered is offline at any time, so no time is needed for it.
pub open spec fn online_on(
    last_success_ms: u64,
    clock: Result<u64, ClockError>,
    offline_after_ms: u64,
) -> Result<bool, ClockError> {
    match clock {
        Ok(now) => Ok(online_at(last_success_ms, now, offline_after_ms)),
        Err(e) => if last_success_ms == 0 {
            Ok(false)
        } else {
            Err(e)
        },
    }
}

/// Decides whether an RTU is online now. The clock is read only for an RTU that
/// has answered before.
pub fn compute_online(last_success_ms: u64, offline_after_ms: u64) -> (r: Result<bool, ClockError>)
    ensures
        last_success_ms == 0 ==> r == Ok::<bool, ClockError>(false),
        last_success_ms != 0 ==> exists|clock: Result<u64, ClockError>| #[trigger]
            call_ensures(now_ms, (), clock) && r == online_on(
                last_success_ms,
                clock,
                offline_after_ms,
            ),
{
    if last_success_ms == 0 {
        return Ok(false);
    }
    match now_ms() {
        Ok(now) => Ok(is_online_at(last_success_ms, now, offline_after_ms)),
        Err(e) => Err(e),
    }
}

/// An RTU is offline exactly when it has never answered or more than
/// `offline_after_ms` have passed since it last did.
pub proof fn law_offline_after_window(last_success_ms: u64, now: u64, offline_after_ms: u64)
    ensures
        !online_at(last_success_ms, now, offline_after_ms) <==> (last_success_ms == 0 || now
            > last_success_ms + offline_after_ms),
{
}

/// As time passes without a successful poll, an RTU that has gone offline stays
/// offline.
pub proof fn law_offline_persists(last_success_ms: u64, now: u64, later: u64, offline_after_ms: u64)
    requires
        now <= later,
        !online_at(last_success_ms, now, offline_after_ms),
    ensures
        !online_at(last_success_ms, later, offline_after_ms),
{
}

/// A point in time before the Unix epoch has no timestamp. Any other has the
/// milliseconds that have passed completely since the epoch, as long as they fit
/// into 64 bits.
pub proof fn law_timestamp_counts_whole_milliseconds(nanos: int)
    requires
        nanos < 0x1_0000_0000_0000_0000 * 1_000_000,
    ensures
        match timestamp(clock_reading(nanos)) {
            Ok(ms) => 0 <= nanos && ms * 1_000_000 <= nanos < (ms + 1) * 1_000_000,
            Err(e) => nanos < 0 && e == ClockError::BeforeEpoch,
        },
{
}

/// A clock reading is before the Unix epoch exactly if the point in time is;
/// otherwise it counts the milliseconds that have passed completely since then.
pub proof fn law_reading_counts_whole_milliseconds(nanos: int)
    requires
        nanos <= u128::MAX * 1_000_000,
    ensures
        match clock_reading(nanos) {
            ClockReading::SinceEpoch(ms) => 0 <= nanos && ms * 1_000_000 <= nanos < (ms + 1)
                * 1_000_000,
            ClockReading::BeforeEpoch => nanos < 0,
        },
{
}

/// Beyond 64 bits a timestamp starts over: readings that are 2^64 milliseconds
/// apart have the same one, and smaller readings are their own.
pub proof fn law_timestamp_wraps(millis: u128)
    ensures
        millis < 0x1_0000_0000_0000_0000 ==> timestamp(ClockReading::SinceEpoch(millis)) == Ok::<
            u64,
            ClockError,
        >(millis as u64),
        millis >= 0x1_0000_0000_0000_0000 ==> timestamp(ClockReading::SinceEpoch(millis))
            == timestamp(
            ClockReading::SinceEpoch((millis - 0x1_0000_0000_0000_0000) as u128),
        ),
        timestamp(ClockReading::BeforeEpoch) == Err::<u64, ClockError>(ClockError::BeforeEpoch),
{
}

/// The time that passed is what it takes to get from the earlier time to the
/// later, and nothing if the clock ran backwards.
pub proof fn law_elapsed_is_the_gap(later: u64, earlier: u64)
    ensures
        earlier <= later ==> earlier + elapsed(later, earlier) == later,
        later < earlier ==> elapsed(later, earlier) == 0,
{
}

/// The verdict for a clock reading is that an RTU is online exactly if it has
/// answered, and no longer ago than the window. Without a time there is a
/// verdict only for an RTU that has never answered: it is offline.
pub proof fn law_verdict_follows_the_window(
    last_success_ms: u64,
    now: u64,
    offline_after_ms: u64,
    e: ClockError,
)
    ensures
        match online_on(last_success_ms, Ok(now), offline_after_ms) {
            Ok(online) => online <==> last_success_ms != 0 && now <= last_success_ms
                + offline_after_ms,
            Err(_) => false,
        },
        last_success_ms == 0 ==> online_on(last_success_ms, Err(e), offline_after_ms) == Ok::<
            bool,
            ClockError,
        >(false),
        last_success_ms != 0 ==> online_on(last_success_ms, Err(e), offline_after_ms) == Err::<
            bool,
            ClockError,
        >(e),
{
}

} // verus!
