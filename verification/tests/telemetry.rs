use dnp3_master::clock::{now_ms, ClockError};
use dnp3_master::master::model::RtuSnapshot;
use dnp3_master::telemetry::{
    begin_poll, begin_poll_at, begin_poll_on, finish_poll, judge_at, mark_failure,
    mark_failure_at, mark_failure_on, mark_success, mark_success_at, mark_success_on,
};

const WINDOW: u64 = 10_000;

fn sample() -> RtuSnapshot {
    RtuSnapshot::new("rtu1-tcp", "172.30.1.77:20000", 1024, 3)
}

#[test]
fn new_snapshot_is_blank() {
    let s = RtuSnapshot::new("rtu1-serial-via-TS", "172.30.1.4:20000", 1024, 8);
    assert_eq!(s.id, "rtu1-serial-via-TS");
    assert_eq!(s.endpoint, "172.30.1.4:20000");
    assert_eq!(s.rtu_addr, 1024);
    assert_eq!(s.bi, vec![false; 8]);
    assert_eq!(f64::from_bits(s.ai0.to_bits()), 0.0);
    assert!(!s.online);
    assert_eq!(s.last_update_ms, 0);
    assert_eq!(s.last_poll_ms, 0);
    assert_eq!(s.last_success_ms, 0);
    assert_eq!(s.last_rtt_ms, 0);
    assert_eq!(s.consecutive_failures, 0);
    assert_eq!(s.poll_ok_count, 0);
    assert_eq!(s.poll_fail_count, 0);
    assert_eq!(s.last_error, "");
}

#[test]
fn success_resets_the_failure_streak() {
    let mut s = sample();
    mark_failure_at(&mut s, "NoConnection", 100, WINDOW);
    mark_failure_at(&mut s, "ResponseTimeout", 200, WINDOW);
    assert_eq!(s.consecutive_failures, 2);
    assert_eq!(s.poll_fail_count, 2);
    assert_eq!(s.last_error, "ResponseTimeout");
    assert!(!s.online);

    mark_success_at(&mut s, 1_000, 1_042, 1_043, WINDOW);
    assert_eq!(s.consecutive_failures, 0);
    assert_eq!(s.poll_fail_count, 2);
    assert_eq!(s.poll_ok_count, 1);
    assert_eq!(s.last_error, "");
    assert_eq!(s.last_success_ms, 1_042);
    assert_eq!(s.last_rtt_ms, 42);
    assert!(s.online);
}

#[test]
fn failures_turn_an_rtu_offline_after_the_window() {
    let mut s = sample();
    mark_success_at(&mut s, 1_000, 1_000, 1_000, WINDOW);
    mark_failure_at(&mut s, "e", 11_000, WINDOW);
    assert!(s.online);
    mark_failure_at(&mut s, "e", 11_001, WINDOW);
    assert!(!s.online);
    assert_eq!(s.consecutive_failures, 2);
    assert_eq!(s.last_success_ms, 1_000);
}

#[test]
fn round_trip_time_saturates_and_keeps_32_bits() {
    let mut s = sample();
    mark_success_at(&mut s, 500, 400, 400, WINDOW);
    assert_eq!(s.last_rtt_ms, 0);
    mark_success_at(&mut s, 0, (1u64 << 32) + 5, 1u64 << 33, WINDOW);
    assert_eq!(s.last_rtt_ms, 5);
    assert!(!s.online);
}

#[test]
fn failure_streak_stops_at_its_largest_value() {
    let mut s = sample();
    s.consecutive_failures = u32::MAX;
    mark_failure_at(&mut s, "e", 1, WINDOW);
    assert_eq!(s.consecutive_failures, u32::MAX);
    assert_eq!(s.poll_fail_count, 1);
}

#[test]
fn a_success_at_time_zero_does_not_count_as_online() {
    let mut s = sample();
    mark_success_at(&mut s, 0, 0, 0, WINDOW);
    assert!(!s.online);
    assert_eq!(s.poll_ok_count, 1);
}

#[test]
fn polls_leave_point_values_alone() {
    let mut s = sample();
    s.bi = vec![true, false, true];
    s.last_update_ms = 77;
    begin_poll_at(&mut s, 5);
    mark_failure_at(&mut s, "e", 6, WINDOW);
    mark_success_at(&mut s, 5, 7, 7, WINDOW);
    assert_eq!(s.bi, vec![true, false, true]);
    assert_eq!(s.last_update_ms, 77);
    assert_eq!(s.last_poll_ms, 5);
    assert_eq!(s.id, "rtu1-tcp");
}

#[test]
fn poll_against_the_real_clock() {
    let mut s = sample();
    let t0 = now_ms().unwrap();
    let start = begin_poll(&mut s).unwrap();
    assert!(start >= t0);
    assert_eq!(s.last_poll_ms, start);
    finish_poll(&mut s, start, Ok(()), WINDOW).unwrap();
    assert!(s.online);
    assert!(s.last_success_ms >= start);
    assert_eq!(u64::from(s.last_rtt_ms), s.last_success_ms - start);
    finish_poll(&mut s, start, Err("NoConnection".to_string()), WINDOW).unwrap();
    assert_eq!(s.last_error, "NoConnection");
    assert_eq!(s.consecutive_failures, 1);
    assert!(s.online);
    mark_success(&mut s, start, WINDOW).unwrap();
    assert_eq!(s.poll_ok_count, 2);
    mark_failure(&mut s, "again", WINDOW).unwrap();
    assert_eq!(s.poll_fail_count, 2);
}

#[test]
fn copied_snapshot_equals_its_source() {
    let mut s = sample();
    mark_failure_at(&mut s, "boom", 3, WINDOW);
    s.bi[1] = true;
    let c = s.clone();
    assert_eq!(c.id, s.id);
    assert_eq!(c.bi, vec![false, true, false]);
    assert_eq!(c.last_error, "boom");
    assert_eq!(c.poll_fail_count, 1);
}

#[test]
fn a_poll_without_a_time_is_not_started() {
    let mut s = sample();
    assert_eq!(begin_poll_on(&mut s, Ok(9)), Ok(9));
    assert_eq!(s.last_poll_ms, 9);
    let none = Err(ClockError::BeforeEpoch);
    assert_eq!(begin_poll_on(&mut s, none), none);
    assert_eq!(s.last_poll_ms, 9);
}

#[test]
fn a_success_without_its_times_is_not_recorded() {
    let none = Err(ClockError::BeforeEpoch);
    let mut s = sample();
    assert_eq!(mark_success_on(&mut s, 1, none, Ok(5), WINDOW), Err(ClockError::BeforeEpoch));
    assert_eq!(mark_success_on(&mut s, 1, Ok(5), none, WINDOW), Err(ClockError::BeforeEpoch));
    assert_eq!(s.poll_ok_count, 0);
    assert_eq!(s.last_success_ms, 0);

    assert_eq!(mark_success_on(&mut s, 1, Ok(0), none, WINDOW), Ok(()));
    assert_eq!(s.poll_ok_count, 1);
    assert!(!s.online);

    assert_eq!(mark_success_on(&mut s, 3, Ok(5), Ok(6), WINDOW), Ok(()));
    assert_eq!(s.poll_ok_count, 2);
    assert_eq!(s.last_rtt_ms, 2);
    assert!(s.online);
}

#[test]
fn a_failure_without_its_time_is_recorded_only_for_an_rtu_that_never_answered() {
    let none = Err(ClockError::BeforeEpoch);
    let mut s = sample();
    assert_eq!(mark_failure_on(&mut s, "down", none, WINDOW), Ok(()));
    assert_eq!(s.poll_fail_count, 1);
    assert_eq!(s.last_error, "down");
    assert!(!s.online);

    mark_success_at(&mut s, 1, 5, 5, WINDOW);
    assert_eq!(mark_failure_on(&mut s, "down", none, WINDOW), Err(ClockError::BeforeEpoch));
    assert_eq!(s.poll_fail_count, 1);
    assert_eq!(s.last_error, "");

    assert_eq!(mark_failure_on(&mut s, "late", Ok(6), WINDOW), Ok(()));
    assert_eq!(s.poll_fail_count, 2);
    assert_eq!(s.last_error, "late");
    assert!(s.online);
}

#[test]
fn status_is_judged_at_the_time_of_the_request() {
    let mut s = sample();
    mark_success_at(&mut s, 900, 1_000, 1_000, WINDOW);
    assert!(s.online);
    judge_at(&mut s, 11_000, WINDOW);
    assert!(s.online);
    judge_at(&mut s, 11_001, WINDOW);
    assert!(!s.online);
    assert_eq!(s.last_success_ms, 1_000);
    assert_eq!(s.poll_ok_count, 1);
}
