use dnp3_master::config::{
    default_bi_count, ConfigError, RtuConfig, RtusFile, DEFAULT_MASTER_ADDR, POLL_INTERVAL_MS,
};
use dnp3_master::settings::{is_switched_on, log_level, rtus_path, LogLevel};

fn rtu(id: &str, bi_count: usize) -> RtuConfig {
    RtuConfig {
        id: id.to_string(),
        endpoint: "172.30.1.4:20000".to_string(),
        rtu_addr: 1024,
        bi_count,
        poll_interval_ms: None,
    }
}

fn file(rtu: Vec<RtuConfig>) -> RtusFile {
    RtusFile { master_addr: None, poll_interval_ms: None, offline_after_ms: None, rtu }
}

fn message(f: &RtusFile) -> String {
    f.validate().unwrap_err().message("rtus.toml")
}

#[test]
fn defaults_of_the_configuration() {
    let f = file(vec![rtu("a", default_bi_count())]);
    assert_eq!(default_bi_count(), 3);
    assert_eq!(DEFAULT_MASTER_ADDR, 1);
    assert_eq!(POLL_INTERVAL_MS, 1_000);
    assert_eq!(f.master_address(), 1);
    assert_eq!(f.poll_interval(), 1_000);
    assert_eq!(f.offline_after(), 10_000);
    assert_eq!(f.rtu[0].poll_interval(f.poll_interval()), 1_000);
    assert!(f.validate().is_ok());
}

#[test]
fn configured_values_replace_the_defaults() {
    let mut f = file(vec![rtu("a", 8), rtu("b", 3)]);
    f.master_addr = Some(7);
    f.poll_interval_ms = Some(2_000);
    f.offline_after_ms = Some(30_000);
    f.rtu[1].poll_interval_ms = Some(500);
    assert_eq!(f.master_address(), 7);
    assert_eq!(f.poll_interval(), 2_000);
    assert_eq!(f.offline_after(), 30_000);
    assert_eq!(f.rtu[0].poll_interval(f.poll_interval()), 2_000);
    assert_eq!(f.rtu[1].poll_interval(f.poll_interval()), 500);
}

#[test]
fn duplicate_ids_are_rejected() {
    let f = file(vec![rtu("a", 3), rtu("b", 3), rtu("a", 3)]);
    assert!(matches!(f.validate(), Err(ConfigError::DuplicateId(id)) if id == "a"));
    assert_eq!(message(&f), "duplicate RTU id in rtus.toml: a");
}

#[test]
fn zero_bi_count_is_rejected() {
    let f = file(vec![rtu("a", 3), rtu("b", 0)]);
    assert!(matches!(f.validate(), Err(ConfigError::ZeroBiCount(id)) if id == "b"));
    assert_eq!(message(&f), "RTU b has bi_count = 0");
}

#[test]
fn the_first_defect_is_reported() {
    assert_eq!(message(&file(vec![rtu("a", 0), rtu("a", 3)])), "RTU a has bi_count = 0");
    assert_eq!(
        message(&file(vec![rtu("a", 3), rtu("a", 0), rtu("b", 0)])),
        "duplicate RTU id in rtus.toml: a"
    );
}

#[test]
fn an_empty_fleet_is_accepted() {
    assert!(file(vec![]).validate().is_ok());
}

#[test]
fn snapshot_of_a_configured_rtu() {
    let s = rtu("x", 8).snapshot();
    assert_eq!(s.id, "x");
    assert_eq!(s.endpoint, "172.30.1.4:20000");
    assert_eq!(s.rtu_addr, 1024);
    assert_eq!(s.bi.len(), 8);
}

#[test]
fn configuration_file_name() {
    assert_eq!(rtus_path(None), "rtus.toml");
    assert_eq!(rtus_path(Some("lab.toml".to_string())), "lab.toml");
}

#[test]
fn log_levels() {
    let level = |v: &str| log_level(&Some(v.to_string()));
    assert_eq!(level("trace"), LogLevel::Trace);
    assert_eq!(level("debug"), LogLevel::Debug);
    assert_eq!(level("warn"), LogLevel::Warn);
    assert_eq!(level("error"), LogLevel::Error);
    assert_eq!(level("info"), LogLevel::Info);
    assert_eq!(level("TRACE"), LogLevel::Info);
    assert_eq!(log_level(&None), LogLevel::Info);
}

#[test]
fn switches() {
    assert!(is_switched_on(&Some("1".to_string())));
    assert!(!is_switched_on(&Some("0".to_string())));
    assert!(!is_switched_on(&Some("11".to_string())));
    assert!(!is_switched_on(&None));
}
