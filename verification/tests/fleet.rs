use dnp3_master::config::{RtuConfig, RtusFile};
use dnp3_master::fleet::{
    group_by_endpoint, plan_channel, stagger_ms, AddressError, EndpointGroup,
    FIRST_SPECIAL_ADDRESS,
};
use dnp3_master::idmap::IdMap;

fn rtu(id: &str, endpoint: &str, rtu_addr: u16) -> RtuConfig {
    RtuConfig {
        id: id.to_string(),
        endpoint: endpoint.to_string(),
        rtu_addr,
        bi_count: 3,
        poll_interval_ms: None,
    }
}

fn ids(g: &EndpointGroup) -> Vec<&str> {
    g.rtus.iter().map(|r| r.id.as_str()).collect()
}

#[test]
fn rtus_behind_one_endpoint_share_a_group() {
    let fleet = vec![
        rtu("a", "10.0.0.1:20000", 1),
        rtu("b", "10.0.0.2:20000", 2),
        rtu("c", "10.0.0.1:20000", 3),
        rtu("d", "10.0.0.1:20000", 4),
    ];
    let groups = group_by_endpoint(&fleet);
    assert_eq!(groups.len(), 2);
    assert_eq!(groups[0].endpoint, "10.0.0.1:20000");
    assert_eq!(ids(&groups[0]), vec!["a", "c", "d"]);
    assert_eq!(groups[1].endpoint, "10.0.0.2:20000");
    assert_eq!(ids(&groups[1]), vec!["b"]);
    assert_eq!(groups.iter().map(|g| g.rtus.len()).sum::<usize>(), fleet.len());
}

#[test]
fn every_grouped_rtu_gets_an_entry_of_its_own() {
    let file = RtusFile {
        master_addr: None,
        poll_interval_ms: None,
        offline_after_ms: None,
        rtu: vec![rtu("a", "x:1", 1), rtu("b", "y:1", 2), rtu("c", "x:1", 3)],
    };
    assert!(file.validate().is_ok());
    let mut map: IdMap<u16> = IdMap::new();
    let mut order = Vec::new();
    for group in group_by_endpoint(&file.rtu) {
        for member in &group.rtus {
            order.push(member.id.clone());
            map.insert(member.id.clone(), member.rtu_addr);
        }
    }
    assert_eq!(order, vec!["a", "c", "b"]);
    assert_eq!(map.len(), 3);
    for r in &file.rtu {
        assert_eq!(map.get(&r.id), Some(&r.rtu_addr));
    }
}

#[test]
fn endpoints_are_told_apart_by_their_text() {
    let groups = group_by_endpoint(&vec![
        rtu("a", "localhost:20000", 1),
        rtu("b", "127.0.0.1:20000", 2),
        rtu("c", "127.0.0.1:20000 ", 3),
    ]);
    assert_eq!(groups.len(), 3);
}

#[test]
fn no_rtus_make_no_groups() {
    assert!(group_by_endpoint(&vec![]).is_empty());
}

#[test]
fn first_polls_are_spread_over_the_interval() {
    assert_eq!(stagger_ms(1_000, 0, 1), 0);
    let four: Vec<u64> = (0..4).map(|i| stagger_ms(1_000, i, 4)).collect();
    assert_eq!(four, vec![0, 250, 500, 750]);
    let three: Vec<u64> = (0..3).map(|i| stagger_ms(1_000, i, 3)).collect();
    assert_eq!(three, vec![0, 333, 666]);
    assert_eq!(stagger_ms(u64::MAX, 1, 2), u64::MAX / 2);
    assert_eq!(stagger_ms(0, 4, 5), 0);
}

#[test]
fn channel_plan_of_a_shared_endpoint() {
    let mut fleet = vec![rtu("a", "ts:20000", 10), rtu("b", "ts:20000", 11)];
    fleet[1].poll_interval_ms = Some(250);
    let groups = group_by_endpoint(&fleet);
    let plan = plan_channel(1, 1_000, &groups[0]).unwrap();
    assert_eq!(plan.endpoint, "ts:20000");
    assert_eq!(plan.master_addr, 1);
    assert_eq!(plan.associations.len(), 2);
    assert_eq!(plan.associations[0].rtu.id, "a");
    assert_eq!(plan.associations[0].rtu.rtu_addr, 10);
    assert_eq!(plan.associations[0].stagger_ms, 0);
    assert_eq!(plan.associations[0].period_ms, 1_000);
    assert_eq!(plan.associations[1].rtu.id, "b");
    assert_eq!(plan.associations[1].stagger_ms, 500);
    assert_eq!(plan.associations[1].period_ms, 250);
}

#[test]
fn special_addresses_are_refused() {
    assert_eq!(FIRST_SPECIAL_ADDRESS, 0xFFF0);
    let good = group_by_endpoint(&vec![rtu("a", "e", 0), rtu("b", "e", 0xFFEF)]);
    assert!(plan_channel(0xFFEF, 1_000, &good[0]).is_ok());
    for special in [0xFFF0u16, 0xFFFB, 0xFFFC, 0xFFFD, 0xFFFE, 0xFFFF] {
        assert_eq!(
            plan_channel(special, 1_000, &good[0]).unwrap_err(),
            AddressError { address: special }
        );
        let bad = group_by_endpoint(&vec![rtu("a", "e", 1), rtu("b", "e", special)]);
        assert_eq!(
            plan_channel(1, 1_000, &bad[0]).unwrap_err(),
            AddressError { address: special }
        );
    }
}
