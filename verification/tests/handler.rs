use dnp3_master::analog::AnalogValue;
use dnp3_master::clock::{now_ms, ClockError};
use dnp3_master::handler::{stamp_on, AnalogReading, BinaryReading, MasterReadHandler};
use dnp3_master::master::model::RtuSnapshot;

fn bin(index: u16, value: bool) -> BinaryReading {
    BinaryReading { index, value }
}

fn ana(index: u16, value: f64) -> AnalogReading {
    AnalogReading { index, value: AnalogValue::from_bits(value.to_bits()) }
}

fn numbers(values: &Vec<AnalogValue>) -> Vec<f64> {
    values.iter().map(|v| f64::from_bits(v.to_bits())).collect()
}

fn setup(n: usize) -> (RtuSnapshot, MasterReadHandler) {
    let snap = RtuSnapshot::new("a", "e", 1, n);
    let handler = MasterReadHandler::new(&snap, &None, &None);
    (snap, handler)
}

#[test]
fn printing_is_switched_on_by_one() {
    let snap = RtuSnapshot::new("a", "e", 1, 4);
    let h = MasterReadHandler::new(&snap, &Some("1".to_string()), &Some("true".to_string()));
    assert!(h.print_ai);
    assert!(!h.print_bi);
    assert_eq!(h.last_bi, vec![None; 4]);
    assert!(h.last_ai0.is_none());
}

#[test]
fn first_binary_reading_is_a_change_and_repeats_are_not() {
    let (mut snap, mut h) = setup(3);
    let all = vec![bin(0, false), bin(1, true), bin(2, false)];
    assert_eq!(h.apply_binary(&mut snap, &all), (all.clone(), true));
    assert_eq!(snap.bi, vec![false, true, false]);
    assert_eq!(h.apply_binary(&mut snap, &all), (vec![], false));
    assert_eq!(h.apply_binary(&mut snap, &vec![bin(1, false)]), (vec![bin(1, false)], true));
    assert_eq!(snap.bi, vec![false, false, false]);
}

#[test]
fn last_reading_of_a_batch_wins_and_each_flip_is_reported() {
    let (mut snap, mut h) = setup(2);
    let flips = vec![bin(0, true), bin(0, true), bin(0, false), bin(0, true)];
    assert_eq!(
        h.apply_binary(&mut snap, &flips),
        (vec![bin(0, true), bin(0, false), bin(0, true)], true)
    );
    assert_eq!(snap.bi, vec![true, false]);
}

#[test]
fn indices_beyond_bi_count_are_ignored() {
    let (mut snap, mut h) = setup(3);
    let beyond = vec![bin(3, true), bin(65535, true)];
    assert_eq!(h.apply_binary(&mut snap, &beyond), (vec![], false));
    assert_eq!(snap.bi, vec![false, false, false]);
    assert_eq!(h.last_bi, vec![None, None, None]);
}

#[test]
fn points_the_handler_cannot_remember_are_always_reported() {
    let small = RtuSnapshot::new("a", "e", 1, 1);
    let mut h = MasterReadHandler::new(&small, &None, &None);
    let mut snap = RtuSnapshot::new("a", "e", 1, 2);
    assert_eq!(h.apply_binary(&mut snap, &vec![bin(1, true)]), (vec![bin(1, true)], true));
    assert_eq!(h.apply_binary(&mut snap, &vec![bin(1, true)]), (vec![bin(1, true)], false));
    assert_eq!(snap.bi, vec![false, true]);
}

#[test]
fn batches_of_binary_readings_compose() {
    let first = vec![bin(0, true), bin(1, true)];
    let second = vec![bin(1, false), bin(0, true)];
    let whole: Vec<BinaryReading> = first.iter().chain(second.iter()).copied().collect();

    let (mut s1, mut h1) = setup(2);
    let (mut parts, _) = h1.apply_binary(&mut s1, &first);
    parts.extend(h1.apply_binary(&mut s1, &second).0);
    let (mut s2, mut h2) = setup(2);
    assert_eq!(h2.apply_binary(&mut s2, &whole), (parts, true));
    assert_eq!(s1.bi, s2.bi);
    assert_eq!(h1.last_bi, h2.last_bi);
}

#[test]
fn only_analog_input_zero_is_taken() {
    let (mut snap, mut h) = setup(1);
    let mixed = vec![ana(1, 9.0), ana(0, 7.5), ana(2, 8.0)];
    let (changes, altered) = h.apply_analog(&mut snap, &mixed);
    assert_eq!(numbers(&changes), vec![7.5]);
    assert!(altered);
    assert_eq!(f64::from_bits(snap.ai0.to_bits()), 7.5);
    let (changes, altered) = h.apply_analog(&mut snap, &vec![ana(0, 7.5)]);
    assert!(changes.is_empty() && !altered);
}

#[test]
fn zeros_are_equal_and_nan_always_differs() {
    let (mut snap, mut h) = setup(1);
    let (changes, altered) = h.apply_analog(&mut snap, &vec![ana(0, 0.0)]);
    assert!(changes.len() == 1 && !altered);
    let (changes, altered) = h.apply_analog(&mut snap, &vec![ana(0, -0.0)]);
    assert!(changes.is_empty() && !altered);
    assert_eq!(snap.ai0.to_bits(), (-0.0f64).to_bits());
    assert_eq!(h.last_ai0.unwrap().to_bits(), 0.0f64.to_bits());
    let nans = vec![ana(0, f64::NAN), ana(0, f64::NAN)];
    let (changes, altered) = h.apply_analog(&mut snap, &nans);
    assert!(changes.len() == 2 && altered);
}

#[test]
fn batches_of_analog_readings_compose() {
    let (mut s1, mut h1) = setup(1);
    let mut parts = numbers(&h1.apply_analog(&mut s1, &vec![ana(0, 1.0), ana(0, 2.0)]).0);
    parts.extend(numbers(&h1.apply_analog(&mut s1, &vec![ana(0, 2.0), ana(0, 3.0)]).0));
    let (mut s2, mut h2) = setup(1);
    let whole = vec![ana(0, 1.0), ana(0, 2.0), ana(0, 2.0), ana(0, 3.0)];
    assert_eq!(numbers(&h2.apply_analog(&mut s2, &whole).0), parts);
    assert_eq!(parts, vec![1.0, 2.0, 3.0]);
}

#[test]
fn telemetry_that_changes_a_value_stamps_the_snapshot() {
    let (mut snap, mut h) = setup(2);
    let t0 = now_ms().unwrap();
    let (changes, stamp) = h.handle_binary_input(&mut snap, &vec![bin(1, true)]);
    assert_eq!(changes, vec![bin(1, true)]);
    assert_eq!(stamp, Ok(()));
    assert!(snap.last_update_ms >= t0);

    snap.last_update_ms = 0;
    let (changes, stamp) = h.handle_analog_input(&mut snap, &vec![ana(0, 2.5)]);
    assert_eq!(numbers(&changes), vec![2.5]);
    assert_eq!(stamp, Ok(()));
    assert!(snap.last_update_ms >= t0);
    assert_eq!(snap.last_poll_ms, 0);

    snap.last_update_ms = 0;
    let there_and_back = vec![bin(0, true), bin(0, false)];
    assert_eq!(h.handle_binary_input(&mut snap, &there_and_back).1, Ok(()));
    assert!(snap.last_update_ms >= t0);
}

#[test]
fn telemetry_that_changes_nothing_leaves_the_stamp() {
    let (mut snap, mut h) = setup(2);
    assert_eq!(h.handle_binary_input(&mut snap, &vec![]), (vec![], Ok(())));
    assert_eq!(snap.last_update_ms, 0);
    // A first report of the value that is already there is announced, but
    // changes nothing.
    let first = vec![bin(0, false)];
    assert_eq!(h.handle_binary_input(&mut snap, &first), (first.clone(), Ok(())));
    assert_eq!(snap.last_update_ms, 0);
    assert_eq!(h.handle_binary_input(&mut snap, &vec![bin(2, true)]), (vec![], Ok(())));
    assert_eq!(snap.last_update_ms, 0);

    let (changes, stamp) = h.handle_analog_input(&mut snap, &vec![ana(1, 7.5)]);
    assert!(changes.is_empty() && stamp.is_ok());
    assert_eq!(f64::from_bits(snap.ai0.to_bits()), 0.0);
    assert_eq!(snap.last_update_ms, 0);
}

#[test]
fn a_snapshot_without_a_time_is_not_stamped() {
    let (mut snap, _h) = setup(1);
    assert_eq!(stamp_on(&mut snap, Ok(42)), Ok(()));
    assert_eq!(snap.last_update_ms, 42);
    let none = Err(ClockError::BeforeEpoch);
    assert_eq!(stamp_on(&mut snap, none), Err(ClockError::BeforeEpoch));
    assert_eq!(snap.last_update_ms, 42);
}

#[test]
fn repeats_are_silent_among_readings_that_are_ignored() {
    let (mut snap, mut h) = setup(2);
    h.apply_binary(&mut snap, &vec![bin(0, true), bin(1, false)]);
    let repeats = vec![bin(5, true), bin(0, true), bin(9, false), bin(1, false)];
    assert_eq!(h.apply_binary(&mut snap, &repeats), (vec![], false));
    assert_eq!(h.last_bi, vec![Some(true), Some(false)]);

    h.apply_analog(&mut snap, &vec![ana(0, 4.0)]);
    let (changes, altered) = h.apply_analog(&mut snap, &vec![ana(3, 9.0), ana(0, 4.0)]);
    assert!(changes.is_empty() && !altered);
    assert_eq!(f64::from_bits(h.last_ai0.unwrap().to_bits()), 4.0);
}

#[test]
fn a_held_nan_is_altered_by_any_reading_of_input_zero_only() {
    let (mut snap, mut h) = setup(1);
    h.apply_analog(&mut snap, &vec![ana(0, f64::NAN)]);
    let (changes, altered) = h.apply_analog(&mut snap, &vec![ana(1, 2.0)]);
    assert!(changes.is_empty() && !altered);
    assert_eq!(snap.ai0.to_bits(), f64::NAN.to_bits());
    let (changes, altered) = h.apply_analog(&mut snap, &vec![ana(0, f64::NAN)]);
    assert!(changes.len() == 1 && altered);
}
