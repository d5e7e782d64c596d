//! What the polls of an RTU leave in its snapshot.

use crate::clock::{elapsed, is_online_at, now_ms, online_at, ClockError};
use crate::master::model::{RtuSnapshot, SnapshotModel};
use vstd::prelude::*;

verus! {

/// The snapshot once a poll has been started at `start_ms`.
pub open spec fn poll_started(s: SnapshotModel, start_ms: u64) -> SnapshotModel {
    SnapshotModel { last_poll_ms: start_ms, ..s }
}

/// The snapshot after a successful poll that was started at `start_ms` and
/// ended at `end`, with the online rule applied at `now`. The round-trip time
/// is kept to 32 bits.
pub open spec fn poll_succeeded(
    s: SnapshotModel,
    start_ms: u64,
    end: u64,
    now: u64,
    offline_after_ms: u64,
) -> SnapshotModel {
    SnapshotModel {
        last_success_ms: end,
        last_rtt_ms: (elapsed(end, start_ms) % 0x1_0000_0000) as u32,
        consecutive_failures: 0,
        poll_ok_count: s.poll_ok_count + 1,
        last_error: Seq::empty(),
        online: online_at(end, now, offline_after_ms),
        ..s
    }
}

/// A failure count after one more failure; it stops at the largest 32-bit
/// number.
pub open spec fn one_more_failure(streak: nat) -> nat {
    if streak < u32::MAX {
        streak + 1
    } else {
        u32::MAX as nat
    }
}

/// The snapshot after a poll that failed with `error`, with the online rule
/// applied at `now`.
pub open spec fn poll_failed(
    s: SnapshotModel,
    error: Seq<char>,
    now: u64,
    offline_after_ms: u64,
) -> SnapshotModel {
    SnapshotModel {
        poll_fail_count: s.poll_fail_count + 1,
        consecutive_failures: one_more_failure(s.consecutive_failures),
        last_error: error,
        online: online_at(s.last_success_ms, now, offline_after_ms),
        ..s
    }
}

/// Records that a poll was started at `start_ms`.
pub fn begin_poll_at(s: &mut RtuSnapshot, start_ms: u64)
    ensures
        final(s)@ == poll_started(old(s)@, start_ms),
{
    s.last_poll_ms = start_ms;
}

/// Records that a poll is started when the clock reads `clock`, and gives the
/// time. Without a time nothing is recorded.
pub fn begin_poll_on(s: &mut RtuSnapshot, clock: Result<u64, ClockError>) -> (r: Result<
    u64,
    ClockError,
>)
    ensures
        r == clock,
        final(s)@ == match clock {
            Ok(start_ms) => poll_started(old(s)@, start_ms),
            Err(_) => old(s)@,
        },
{
    match clock {
        Ok(start_ms) => {
            begin_poll_at(s, start_ms);
            Ok(start_ms)
        },
        Err(e) => Err(e),
    }
}

/// Records that a poll is started now, and gives the time.
pub fn begin_poll(s: &mut RtuSnapshot) -> (r: Result<u64, ClockError>)
    ensures
        call_ensures(now_ms, (), r),
        match r {
            Ok(start_ms) => final(s)@ == poll_started(old(s)@, start_ms),
            Err(_) => final(s)@ == old(s)@,
        },
{
    begin_poll_on(s, now_ms())
}

/// Records a successful poll whose end and online check fall on given times.
pub fn mark_success_at(
    s: &mut RtuSnapshot,
    start_ms: u64,
    end: u64,
    now: u64,
    offline_after_ms: u64,
)
    requires
        old(s).poll_ok_count < u64::MAX,
    ensures
        final(s)@ == poll_succeeded(old(s)@, start_ms, end, now, offline_after_ms),
{
    let rtt: u64 = end.saturating_sub(start_ms);
    assert(#[verifier::truncate] (rtt as u32) == rtt % 0x1_0000_0000u64) by (bit_vector);
    s.last_success_ms = end;
    s.last_rtt_ms = #[verifier::truncate] (rtt as u32);
    s.consecutive_failures = 0;
    s.poll_ok_count = s.poll_ok_count + 1;
    s.last_error = String::new();
    s.online = is_online_at(end, now, offline_after_ms);
}

/// How recording a successful poll goes when the clock reads `end` at its end
/// and `now` for the online check. An RTU that last answered at the time 0 is
/// offline at any time, so the check then needs none.
pub open spec fn success_recorded(
    end: Result<u64, ClockError>,
    now: Result<u64, ClockError>,
) -> Result<(), ClockError> {
    match end {
        Err(e) => Err(e),
        Ok(end_ms) => match now {
            Err(e) if end_ms != 0 => Err(e),
            _ => Ok(()),
        },
    }
}

/// The snapshot after a successful poll when the clock reads `end` at its end
/// and `now` for the online check.
pub open spec fn success_on(
    s: SnapshotModel,
    start_ms: u64,
    end: Result<u64, ClockError>,
    now: Result<u64, ClockError>,
    offline_after_ms: u64,
) -> SnapshotModel {
    match (end, now) {
        (Ok(end_ms), Ok(now_ms)) => poll_succeeded(s, start_ms, end_ms, now_ms, offline_after_ms),
        (Ok(end_ms), Err(_)) => if end_ms == 0 {
            poll_succeeded(s, start_ms, 0, 0, offline_after_ms)
        } else {
            s
        },
        (Err(_), _) => s,
    }
}

/// Records a successful poll when the clock reads `end` at its end and `now`
/// for the online check. Without the times that it needs nothing is recorded.
pub fn mark_success_on(
    s: &mut RtuSnapshot,
    start_ms: u64,
    end: Result<u64, ClockError>,
    now: Result<u64, ClockError>,
    offline_after_ms: u64,
) -> (r: Result<(), ClockError>)
    requires
        old(s).poll_ok_count < u64::MAX,
    ensures
        r == success_recorded(end, now),
        final(s)@ == success_on(old(s)@, start_ms, end, now, offline_after_ms),
{
    match end {
        Err(e) => Err(e),
        Ok(end_ms) => match now {
            Ok(now_ms) => {
                mark_success_at(s, start_ms, end_ms, now_ms, offline_after_ms);
                Ok(())
            },
            Err(e) => {
                if end_ms != 0 {
                    return Err(e);
                }
                mark_success_at(s, start_ms, 0, 0, offline_after_ms);
                Ok(())
            },
        },
    }
}

/// Records a poll that was started at `start_ms` and has just succeeded. The
/// clock is read for the end of the poll, and again for the online check.
pub fn mark_success(s: &mut RtuSnapshot, start_ms: u64, offline_after_ms: u64) -> (r: Result<
    (),
    ClockError,
>)
    requires
        old(s).poll_ok_count < u64::MAX,
    ensures
        exists|end: Result<u64, ClockError>, now: Result<u64, ClockError>|
            #![trigger call_ensures(now_ms, (), end), call_ensures(now_ms, (), now)]
            call_ensures(now_ms, (), end) && call_ensures(now_ms, (), now) && r
                == success_recorded(end, now) && final(s)@ == success_on(
                old(s)@,
                start_ms,
                end,
                now,
                offline_after_ms,
            ),
{
    let end = now_ms();
    let now = now_ms();
    mark_success_on(s, start_ms, end, now, offline_after_ms)
}

/// Records a failed poll whose online check falls on a given time.
pub fn mark_failure_at(s: &mut RtuSnapshot, err: &str, now: u64, offline_after_ms: u64)
    requires
        old(s).poll_fail_count < u64::MAX,
    ensures
        final(s)@ == poll_failed(old(s)@, err@, now, offline_after_ms),
{
    s.poll_fail_count = s.poll_fail_count + 1;
    s.consecutive_failures = s.consecutive_failures.saturating_add(1);
    s.last_error = err.to_owned();
    s.online = is_online_at(s.last_success_ms, now, offline_after_ms);
}

/// How recording a failed poll goes when the clock reads `now` for the online
/// check. An RTU that has never answered is offline at any time, so the check
/// then needs none.
pub open spec fn failure_recorded(
    last_success_ms: u64,
    now: Result<u64, ClockError>,
) -> Result<(), ClockError> {
    match now {
        Ok(_) => Ok(()),
        Err(e) => if last_success_ms == 0 {
            Ok(())
        } else {
            Err(e)
        },
    }
}

/// The snapshot after a poll that failed with `error` when the clock reads
/// `now` for the online check.
pub open spec fn failure_on(
    s: SnapshotModel,
    error: Seq<char>,
    now: Result<u64, ClockError>,
    offline_after_ms: u64,
) -> SnapshotModel {
    match now {
        Ok(now_ms) => poll_failed(s, error, now_ms, offline_after_ms),
        Err(_) => if s.last_success_ms == 0 {
            poll_failed(s, error, 0, offline_after_ms)
        } else {
            s
        },
    }
}

/// Records a failed poll when the clock reads `now` for the online check.
/// Without a time that it needs nothing is recorded.
pub fn mark_failure_on(
    s: &mut RtuSnapshot,
    err: &str,
    now: Result<u64, ClockError>,
    offline_after_ms: u64,
) -> (r: Result<(), ClockError>)
    requires
        old(s).poll_fail_count < u64::MAX,
    ensures
        r == failure_recorded(old(s).last_success_ms, now),
        final(s)@ == failure_on(old(s)@, err@, now, offline_after_ms),
{
    match now {
        Ok(now_ms) => {
            mark_failure_at(s, err, now_ms, offline_after_ms);
            Ok(())
        },
        Err(e) => {
            if s.last_success_ms != 0 {
                return Err(e);
            }
            mark_failure_at(s, err, 0, offline_after_ms);
            Ok(())
        },
    }
}

/// Records a poll that has just failed with `err`.
pub fn mark_failure(s: &mut RtuSnapshot, err: &str, offline_after_ms: u64) -> (r: Result<
    (),
    ClockError,
>)
    requires
        old(s).poll_fail_count < u64::MAX,
    ensures
        exists|now: Result<u64, ClockError>| #[trigger]
            call_ensures(now_ms, (), now) && r == failure_recorded(old(s).last_success_ms, now)
                && final(s)@ == failure_on(old(s)@, err@, now, offline_after_ms),
{
    let now = now_ms();
    mark_failure_on(s, err, now, offline_after_ms)
}

/// Records how a poll that was started at `start_ms` has just ended: with an
/// answer, or with an error.
pub fn finish_poll(
    s: &mut RtuSnapshot,
    start_ms: u64,
    outcome: Result<(), String>,
    offline_after_ms: u64,
) -> (r: Result<(), ClockError>)
    requires
        outcome is Ok ==> old(s).poll_ok_count < u64::MAX,
        outcome is Err ==> old(s).poll_fail_count < u64::MAX,
    ensures
        match outcome {
            Ok(_) => exists|end: Result<u64, ClockError>, now: Result<u64, ClockError>|
                #![trigger call_ensures(now_ms, (), end), call_ensures(now_ms, (), now)]
                call_ensures(now_ms, (), end) && call_ensures(now_ms, (), now) && r
                    == success_recorded(end, now) && final(s)@ == success_on(
                    old(s)@,
                    start_ms,
                    end,
                    now,
                    offline_after_ms,
                ),
            Err(error) => exists|now: Result<u64, ClockError>| #[trigger]
                call_ensures(now_ms, (), now) && r == failure_recorded(
                    old(s).last_success_ms,
                    now,
                ) && final(s)@ == failure_on(old(s)@, error@, now, offline_after_ms),
        },
{
    match outcome {
        Ok(_) => mark_success(s, start_ms, offline_after_ms),
        Err(error) => mark_failure(s, error.as_str(), offline_after_ms),
    }
}

/// The snapshot with its status as of `now`.
pub open spec fn judged_at(s: SnapshotModel, now: u64, offline_after_ms: u64) -> SnapshotModel {
    SnapshotModel { online: online_at(s.last_success_ms, now, offline_after_ms), ..s }
}

/// Brings the status of a snapshot up to `now`, so that an RTU whose polls hang
/// is not shown as online.
pub fn judge_at(s: &mut RtuSnapshot, now: u64, offline_after_ms: u64)
    ensures
        final(s)@ == judged_at(old(s)@, now, offline_after_ms),
{
    s.online = is_online_at(s.last_success_ms, now, offline_after_ms);
}

/// A poll that is started touches nothing but the time of the last poll, which
/// becomes the start.
pub proof fn law_started_poll_leaves_its_time(s: SnapshotModel, start_ms: u64)
    ensures
        poll_started(s, start_ms) == (SnapshotModel { last_poll_ms: start_ms, ..s }),
{
}

/// The round-trip time of an answered poll is the time from its start to its
/// end, nothing if the clock ran backwards, and kept to 32 bits where it is
/// longer.
pub proof fn law_round_trip_is_end_minus_start(
    s: SnapshotModel,
    start_ms: u64,
    end: u64,
    now: u64,
    offline_after_ms: u64,
)
    ensures
        ({
            let rtt = poll_succeeded(s, start_ms, end, now, offline_after_ms).last_rtt_ms;
            &&& start_ms <= end && end - start_ms < 0x1_0000_0000 ==> start_ms + rtt == end
            &&& start_ms <= end ==> (end - start_ms - rtt) % 0x1_0000_0000 == 0
            &&& end < start_ms ==> rtt == 0
        }),
{
    let gap = elapsed(end, start_ms) as int;
    let rtt = poll_succeeded(s, start_ms, end, now, offline_after_ms).last_rtt_ms as int;
    assert((gap - gap % 0x1_0000_0000) % 0x1_0000_0000 == 0);
    assert(rtt == gap % 0x1_0000_0000);
}

/// An answered poll leaves the time of its end as the last success, one more
/// success, no failures in a row, no error, and the RTU online exactly if it
/// ended at another time than 0 and no longer ago than the window. Besides these
/// and the round-trip time it touches nothing.
pub proof fn law_answered_poll_is_recorded(
    s: SnapshotModel,
    start_ms: u64,
    end: u64,
    now: u64,
    offline_after_ms: u64,
)
    ensures
        ({
            let r = poll_succeeded(s, start_ms, end, now, offline_after_ms);
            &&& r.last_success_ms == end
            &&& r.poll_ok_count == s.poll_ok_count + 1
            &&& r.consecutive_failures == 0
            &&& r.last_error.len() == 0
            &&& r.online <==> end != 0 && now <= end + offline_after_ms
            &&& r == SnapshotModel {
                last_success_ms: r.last_success_ms,
                last_rtt_ms: r.last_rtt_ms,
                consecutive_failures: r.consecutive_failures,
                poll_ok_count: r.poll_ok_count,
                last_error: r.last_error,
                online: r.online,
                ..s
            }
        }),
{
}

/// A failed poll leaves one more failure, in all and in a row (as far as 32 bits
/// count them), its error, and the RTU online exactly if it has answered before,
/// no longer ago than the window. Besides these it touches nothing.
pub proof fn law_failed_poll_is_recorded(
    s: SnapshotModel,
    error: Seq<char>,
    now: u64,
    offline_after_ms: u64,
)
    ensures
        ({
            let r = poll_failed(s, error, now, offline_after_ms);
            &&& r.poll_fail_count == s.poll_fail_count + 1
            &&& s.consecutive_failures < 0xffff_ffff ==> r.consecutive_failures
                == s.consecutive_failures + 1
            &&& s.consecutive_failures == 0xffff_ffff ==> r.consecutive_failures == 0xffff_ffff
            &&& r.last_error == error
            &&& r.online <==> s.last_success_ms != 0 && now <= s.last_success_ms
                + offline_after_ms
            &&& r == SnapshotModel {
                poll_fail_count: r.poll_fail_count,
                consecutive_failures: r.consecutive_failures,
                last_error: r.last_error,
                online: r.online,
                ..s
            }
        }),
{
}

/// With both clock readings an answered poll is recorded at their times. Without
/// the first, or without the second for a poll that ended at another time than
/// 0, the snapshot stays as it is and the clock's error is given.
pub proof fn law_answered_poll_needs_its_times(
    s: SnapshotModel,
    start_ms: u64,
    end: u64,
    now: u64,
    e: ClockError,
    other: Result<u64, ClockError>,
    offline_after_ms: u64,
)
    ensures
        success_recorded(Ok(end), Ok(now)) is Ok,
        success_on(s, start_ms, Ok(end), Ok(now), offline_after_ms) == poll_succeeded(
            s,
            start_ms,
            end,
            now,
            offline_after_ms,
        ),
        success_recorded(Err(e), other) == Err::<(), ClockError>(e),
        success_on(s, start_ms, Err(e), other, offline_after_ms) == s,
        end != 0 ==> success_recorded(Ok(end), Err(e)) == Err::<(), ClockError>(e),
        end != 0 ==> success_on(s, start_ms, Ok(end), Err(e), offline_after_ms) == s,
        success_recorded(Ok(0), Err(e)) is Ok,
        success_on(s, start_ms, Ok(0), Err(e), offline_after_ms) == poll_succeeded(
            s,
            start_ms,
            0,
            now,
            offline_after_ms,
        ),
{
}

/// With a clock reading a failed poll is recorded at its time. Without one it is
/// recorded only for an RTU that has never answered; for any other the snapshot
/// stays as it is and the clock's error is given.
pub proof fn law_failed_poll_needs_its_time(
    s: SnapshotModel,
    error: Seq<char>,
    now: u64,
    e: ClockError,
    offline_after_ms: u64,
)
    ensures
        failure_recorded(s.last_success_ms, Ok(now)) is Ok,
        failure_on(s, error, Ok(now), offline_after_ms) == poll_failed(
            s,
            error,
            now,
            offline_after_ms,
        ),
        s.last_success_ms != 0 ==> failure_recorded(s.last_success_ms, Err(e)) == Err::<
            (),
            ClockError,
        >(e),
        s.last_success_ms != 0 ==> failure_on(s, error, Err(e), offline_after_ms) == s,
        s.last_success_ms == 0 ==> failure_recorded(s.last_success_ms, Err(e)) is Ok,
        s.last_success_ms == 0 ==> failure_on(s, error, Err(e), offline_after_ms) == poll_failed(
            s,
            error,
            now,
            offline_after_ms,
        ),
{
}

/// Judging a snapshot touches nothing but its status: it is online exactly if it
/// has answered, no longer ago than the window.
pub proof fn law_judging_touches_only_the_status(
    s: SnapshotModel,
    now: u64,
    offline_after_ms: u64,
)
    ensures
        judged_at(s, now, offline_after_ms) == (SnapshotModel {
            online: s.last_success_ms != 0 && now <= s.last_success_ms + offline_after_ms,
            ..s
        }),
{
}

} // verus!
