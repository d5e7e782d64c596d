use dnp3_master::command::{
    control_for, offer, reply_to, submit, CommandReply, Control, Refusal, Rejection, RtuCommand,
    COMMAND_QUEUE_LEN,
};
use dnp3_master::idmap::IdMap;
use tokio::sync::mpsc::{channel, Receiver, Sender};

const ON: RtuCommand = RtuCommand::SetBi { index: 0, value: true };

fn queues() -> (IdMap<Sender<RtuCommand>>, Receiver<RtuCommand>, Receiver<RtuCommand>) {
    let mut map = IdMap::new();
    let (tx_a, rx_a) = channel(COMMAND_QUEUE_LEN);
    let (tx_b, rx_b) = channel(COMMAND_QUEUE_LEN);
    map.insert("rtu1-tcp".to_string(), tx_a);
    map.insert("rtu2".to_string(), tx_b);
    (map, rx_a, rx_b)
}

#[test]
fn a_command_reaches_the_queue_of_its_rtu_only() {
    let (map, mut a, mut b) = queues();
    assert_eq!(submit(&map, &"rtu2".to_string(), ON), CommandReply::Queued);
    assert!(a.try_recv().is_err());
    assert_eq!(b.try_recv().unwrap(), ON);
    assert!(b.try_recv().is_err());
    let level = RtuCommand::SetAi0 { bits: 7.5f32.to_bits() };
    assert_eq!(submit(&map, &"rtu1-tcp".to_string(), level), CommandReply::Queued);
    assert_eq!(a.try_recv().unwrap(), level);
    assert!(b.try_recv().is_err());
}

#[test]
fn an_unknown_rtu_is_answered_with_404() {
    let (map, mut a, mut b) = queues();
    let r = submit(&map, &"nowhere".to_string(), ON);
    assert_eq!(r, CommandReply::UnknownRtu);
    assert_eq!(r.status(), 404);
    assert_eq!(r.text(), "UNKNOWN_RTU");
    assert!(a.try_recv().is_err() && b.try_recv().is_err());
    assert_eq!(offer(&map, &"nowhere".to_string(), ON), Err(Rejection::UnknownRtu));
}

#[test]
fn a_full_queue_is_answered_with_503() {
    let (map, mut a, _b) = queues();
    let id = "rtu1-tcp".to_string();
    for i in 0..64u16 {
        assert_eq!(
            submit(&map, &id, RtuCommand::SetBi { index: i, value: true }),
            CommandReply::Queued
        );
    }
    let r = submit(&map, &id, ON);
    assert_eq!(r, CommandReply::QueueFull);
    assert_eq!(r.status(), 503);
    assert_eq!(r.text(), "QUEUE_FULL");
    assert_eq!(offer(&map, &id, ON), Err(Rejection::Refused(Refusal::Full(ON))));
    assert_eq!(a.try_recv().unwrap(), RtuCommand::SetBi { index: 0, value: true });
    assert_eq!(submit(&map, &id, ON), CommandReply::Queued);
}

#[test]
fn a_closed_queue_is_answered_like_a_full_one() {
    let (map, a, _b) = queues();
    drop(a);
    let id = "rtu1-tcp".to_string();
    assert_eq!(submit(&map, &id, ON), CommandReply::QueueFull);
    assert_eq!(offer(&map, &id, ON), Err(Rejection::Refused(Refusal::Closed(ON))));
}

#[test]
fn a_queued_command_is_answered_with_200() {
    let r = reply_to(Ok(()));
    assert_eq!(r, CommandReply::Queued);
    assert_eq!(r.status(), 200);
    assert_eq!(r.text(), "OK");
    assert_eq!(reply_to(Err(Rejection::UnknownRtu)), CommandReply::UnknownRtu);
    assert_eq!(reply_to(Err(Rejection::Refused(Refusal::Full(ON)))), CommandReply::QueueFull);
}

#[test]
fn a_binary_command_becomes_one_control() {
    match control_for(RtuCommand::SetBi { index: 300, value: false }) {
        Control::Binary(headers) => {
            assert_eq!(format!("{:?}", headers), "CommandHeaders { num_headers: 1 }")
        }
        Control::Analog { .. } => panic!("expected a binary control"),
    }
}

#[test]
fn an_analog_command_goes_to_index_zero() {
    match control_for(RtuCommand::SetAi0 { bits: 7.5f32.to_bits() }) {
        Control::Analog { bits, index } => {
            assert_eq!(f32::from_bits(bits), 7.5);
            assert_eq!(index, 0);
        }
        Control::Binary(_) => panic!("expected an analog control"),
    }
}

#[test]
fn map_replaces_values_in_place() {
    let mut m: IdMap<u32> = IdMap::new();
    m.insert("a".to_string(), 1);
    m.insert("b".to_string(), 2);
    m.insert("a".to_string(), 3);
    assert_eq!(m.len(), 2);
    assert_eq!(m.get(&"a".to_string()), Some(&3));
    assert_eq!(m.get(&"b".to_string()), Some(&2));
    assert_eq!(m.get(&"c".to_string()), None);
    assert_eq!((*m.at(0), *m.at(1)), (3, 2));
}

#[test]
fn map_gives_each_distinct_id_an_entry() {
    let mut m: IdMap<usize> = IdMap::new();
    let ids = ["x", "y", "z"];
    for (i, id) in ids.iter().enumerate() {
        m.insert(id.to_string(), i);
    }
    assert_eq!(m.len(), ids.len());
    for i in 0..ids.len() {
        assert_eq!(*m.at(i), i);
    }
}
