use dnp3_master::clock::{
    compute_online, is_online_at, now_ms, reading_of, timestamp_ms, ClockError, ClockReading,
    OFFLINE_AFTER_MS,
};

#[test]
fn offline_threshold_is_ten_seconds() {
    assert_eq!(OFFLINE_AFTER_MS, 10_000);
    assert!(is_online_at(1_000, 11_000, OFFLINE_AFTER_MS));
    assert!(!is_online_at(1_000, 11_001, OFFLINE_AFTER_MS));
}

#[test]
fn never_answered_is_never_online() {
    assert!(!is_online_at(0, 0, OFFLINE_AFTER_MS));
    assert!(!is_online_at(0, 5, u64::MAX));
    assert_eq!(compute_online(0, u64::MAX), Ok(false));
}

#[test]
fn clock_running_backwards_keeps_online() {
    assert!(is_online_at(50_000, 10, OFFLINE_AFTER_MS));
}

#[test]
fn offline_persists_as_time_passes() {
    for later in [11_001u64, 20_000, u64::MAX] {
        assert!(!is_online_at(1_000, later, OFFLINE_AFTER_MS));
    }
}

#[test]
fn timestamp_keeps_sixty_four_bits() {
    assert_eq!(timestamp_ms(ClockReading::SinceEpoch(1_700_000_000_123)), Ok(1_700_000_000_123));
    assert_eq!(timestamp_ms(ClockReading::SinceEpoch(1u128 << 64)), Ok(0));
    assert_eq!(timestamp_ms(ClockReading::SinceEpoch((1u128 << 64) + 7)), Ok(7));
    assert_eq!(timestamp_ms(ClockReading::BeforeEpoch), Err(ClockError::BeforeEpoch));
}

#[test]
fn clock_reads_milliseconds_since_the_epoch() {
    let before = std::time::SystemTime::now()
        .duration_since(std::time::UNIX_EPOCH)
        .unwrap()
        .as_millis() as u64;
    let now = now_ms().unwrap();
    let after = std::time::SystemTime::now()
        .duration_since(std::time::UNIX_EPOCH)
        .unwrap()
        .as_millis() as u64;
    assert!(before <= now && now <= after);
}

#[test]
fn online_is_judged_by_the_current_time() {
    let now = now_ms().unwrap();
    assert_eq!(compute_online(now, OFFLINE_AFTER_MS), Ok(true));
    assert_eq!(compute_online(now - 60_000, OFFLINE_AFTER_MS), Ok(false));
    assert_eq!(compute_online(1, OFFLINE_AFTER_MS), Ok(false));
}

#[test]
fn readings_of_measured_times() {
    let epoch = std::time::UNIX_EPOCH;
    let later = epoch + std::time::Duration::from_micros(1_500_700);
    assert_eq!(reading_of(later.duration_since(epoch)), ClockReading::SinceEpoch(1_500));
    assert_eq!(reading_of(epoch.duration_since(epoch)), ClockReading::SinceEpoch(0));
    assert_eq!(reading_of(epoch.duration_since(later)), ClockReading::BeforeEpoch);
}
