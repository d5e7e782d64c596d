use dnp3_master::analog::AnalogValue;
use dnp3_master::command::{control_for, RtuCommand};
use dnp3_master::handler::{AnalogReading, BinaryReading, MasterReadHandler};
use dnp3_master::master::model::RtuSnapshot;
use dnp3_master::telemetry::{begin_poll_at, judge_at, mark_failure_at, mark_success_at};

#[test]
fn actual_values_change_only_after_telemetry() {
    let mut s = RtuSnapshot::new("a", "e", 1, 2);
    let mut h = MasterReadHandler::new(&s, &None, &None);

    let _ = control_for(RtuCommand::SetBi { index: 0, value: true });
    begin_poll_at(&mut s, 10);
    mark_failure_at(&mut s, "timeout", 15, 10_000);
    assert_eq!(s.bi, vec![false, false]);

    begin_poll_at(&mut s, 20);
    h.apply_binary(&mut s, &vec![BinaryReading { index: 0, value: true }]);
    let level = AnalogValue::from_bits(7.5f64.to_bits());
    h.apply_analog(&mut s, &vec![AnalogReading { index: 0, value: level }]);
    mark_success_at(&mut s, 20, 25, 25, 10_000);
    assert_eq!(s.bi, vec![true, false]);
    assert_eq!(f64::from_bits(s.ai0.to_bits()), 7.5);

    let _ = control_for(RtuCommand::SetBi { index: 0, value: false });
    mark_failure_at(&mut s, "timeout", 30, 10_000);
    assert_eq!(s.bi, vec![true, false]);
    assert_eq!((s.id.as_str(), s.rtu_addr, s.bi.len()), ("a", 1, 2));
}

#[test]
fn counters_follow_the_polls() {
    let mut s = RtuSnapshot::new("a", "e", 1, 1);
    for t in 1..=3u64 {
        mark_failure_at(&mut s, "down", t, 10_000);
    }
    assert!(!s.online);
    mark_success_at(&mut s, 4, 5, 5, 10_000);
    mark_success_at(&mut s, 6, 7, 7, 10_000);
    mark_failure_at(&mut s, "late", 8, 10_000);
    assert_eq!(s.poll_ok_count, 2);
    assert_eq!(s.poll_fail_count, 4);
    assert_eq!(s.consecutive_failures, 1);
    assert_eq!(s.last_error, "late");
    assert_eq!(s.last_success_ms, 7);
    assert!(s.online);
}

#[test]
fn the_last_update_is_kept_by_all_that_changes_no_value() {
    let mut s = RtuSnapshot::new("a", "e", 1, 2);
    let mut h = MasterReadHandler::new(&s, &None, &None);
    let on = vec![BinaryReading { index: 1, value: true }];
    assert_eq!(h.handle_binary_input(&mut s, &on).1, Ok(()));
    assert!(s.last_update_ms > 0);
    s.last_update_ms = 77;

    begin_poll_at(&mut s, 100);
    assert_eq!(h.handle_binary_input(&mut s, &on).1, Ok(()));
    let zero = AnalogValue::from_bits(0.0f64.to_bits());
    let same = vec![AnalogReading { index: 0, value: zero }];
    assert!(h.handle_analog_input(&mut s, &same).1.is_ok());
    mark_success_at(&mut s, 100, 110, 110, 10_000);
    mark_failure_at(&mut s, "down", 120, 10_000);
    let _ = control_for(RtuCommand::SetBi { index: 1, value: false });
    assert_eq!(s.last_update_ms, 77);
    assert_eq!(s.bi, vec![false, true]);
}

#[test]
fn a_hanging_poll_does_not_keep_an_rtu_online() {
    let mut s = RtuSnapshot::new("a", "e", 1, 1);
    mark_success_at(&mut s, 1, 5, 5, 10_000);
    begin_poll_at(&mut s, 1_005);
    judge_at(&mut s, 10_005, 10_000);
    assert!(s.online);
    judge_at(&mut s, 10_006, 10_000);
    assert!(!s.online);
}
