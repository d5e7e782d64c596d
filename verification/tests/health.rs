use dnp3_master::health::{fleet_health, is_before};
use dnp3_master::master::model::RtuSnapshot;
use dnp3_master::telemetry::{mark_failure_at, mark_success_at};

const WINDOW: u64 = 10_000;

/// A snapshot whose last answer came at `last_success_ms`.
fn snapshot(id: &str, addr: u16, last_success_ms: u64) -> RtuSnapshot {
    let mut s = RtuSnapshot::new(id, "e", addr, 3);
    s.last_success_ms = last_success_ms;
    s
}

#[test]
fn summary_of_three_rtus() {
    let mut up = RtuSnapshot::new("b", "e", 1024, 3);
    mark_success_at(&mut up, 90, 100, 100, 10_000);
    let mut down = RtuSnapshot::new("c", "e", 1025, 3);
    mark_failure_at(&mut down, "NoConnection", 100, 10_000);
    mark_failure_at(&mut down, "NoConnection", 101, 10_000);
    let mut other = RtuSnapshot::new("a", "e", 1026, 3);
    mark_success_at(&mut other, 40, 50, 50, 10_000);

    let h = fleet_health(&vec![up, down, other], 200, WINDOW);
    assert_eq!((h.total, h.online, h.offline), (3, 2, 1));
    let ids: Vec<&str> = h.rtus.iter().map(|e| e.id.as_str()).collect();
    assert_eq!(ids, vec!["a", "b", "c"]);
    assert_eq!(h.rtus[1].rtu_addr, 1024);
    assert!(h.rtus[1].online);
    assert_eq!(h.rtus[1].last_success_ms, 100);
    assert_eq!(h.rtus[1].consecutive_failures, 0);
    assert!(!h.rtus[2].online);
    assert_eq!(h.rtus[2].consecutive_failures, 2);
}

#[test]
fn offline_is_positive_exactly_when_some_rtu_is_down() {
    assert_eq!(fleet_health(&vec![], 5, WINDOW).offline, 0);
    let all_up = vec![snapshot("a", 1, 4), snapshot("b", 2, 5)];
    assert_eq!(fleet_health(&all_up, 5, WINDOW).offline, 0);
    let one_down = vec![snapshot("a", 1, 4), snapshot("b", 2, 0)];
    assert_eq!(fleet_health(&one_down, 5, WINDOW).offline, 1);
}

#[test]
fn a_stale_rtu_counts_as_offline_although_its_last_poll_succeeded() {
    let mut s = RtuSnapshot::new("a", "e", 1, 3);
    mark_success_at(&mut s, 900, 1_000, 1_000, WINDOW);
    assert!(s.online);
    let fleet = vec![s];
    let h = fleet_health(&fleet, 11_000, WINDOW);
    assert_eq!((h.online, h.offline), (1, 0));
    let h = fleet_health(&fleet, 11_001, WINDOW);
    assert_eq!((h.online, h.offline), (0, 1));
    assert!(!h.rtus[0].online);
}

#[test]
fn entries_are_sorted_by_id_and_equal_ids_keep_their_order() {
    let fleet = vec![
        snapshot("rtu10", 1, 1),
        snapshot("rtu2", 2, 0),
        snapshot("", 3, 1),
        snapshot("rtu2", 4, 1),
        snapshot("Rtu", 5, 0),
        snapshot("\u{e9}", 6, 1),
    ];
    let h = fleet_health(&fleet, 2, WINDOW);
    let got: Vec<(&str, u16)> = h.rtus.iter().map(|e| (e.id.as_str(), e.rtu_addr)).collect();
    assert_eq!(
        got,
        vec![("", 3), ("Rtu", 5), ("rtu10", 1), ("rtu2", 2), ("rtu2", 4), ("\u{e9}", 6)]
    );
    assert_eq!((h.total, h.online, h.offline), (6, 4, 2));
}

#[test]
fn text_order_agrees_with_std() {
    let texts = ["", "a", "aa", "ab", "b", "B", "z", "\u{e9}", "\u{ffff}", "\u{10000}", "a\u{0}"];
    for a in texts {
        for b in texts {
            assert_eq!(is_before(&a.to_string(), &b.to_string()), a < b);
        }
    }
}
