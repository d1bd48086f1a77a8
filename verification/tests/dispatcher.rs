use geck::dispatcher::{Dispatch, Dispatcher, Outbound};
use geck::peer::PeerAddr;
use geck::protocol::{connection_request, new_connection_sequence};

fn v4(last: u8, port: u16) -> PeerAddr {
    PeerAddr::V4 { ip4: u32::from_be_bytes([127, 0, 0, last]), port }
}

fn joined(d: &mut Dispatcher, addr: PeerAddr, name: &str) {
    match d.handle(addr, connection_request(name)) {
        Dispatch::Joined { name: n } => assert_eq!(n, name),
        _ => panic!("expected a join"),
    }
}

fn forwarded(out: Dispatch) -> Vec<Outbound> {
    match out {
        Dispatch::Forwarded { deliveries } => deliveries,
        _ => panic!("expected a forward"),
    }
}

#[test]
fn new_dispatcher_knows_nobody() {
    let d = Dispatcher::new();
    assert_eq!(d.name_of(v4(1, 4000)), None);
}

#[test]
fn announcement_registers_name() {
    let mut d = Dispatcher::new();
    joined(&mut d, v4(1, 4000), "Antreas");
    assert_eq!(d.name_of(v4(1, 4000)), Some("Antreas".to_string()));
    assert_eq!(d.name_of(v4(1, 4001)), None);
}

#[test]
fn announcement_with_non_ascii_name() {
    let mut d = Dispatcher::new();
    joined(&mut d, v4(1, 4000), "Ανδρέας");
    assert_eq!(d.name_of(v4(1, 4000)), Some("Ανδρέας".to_string()));
}

#[test]
fn announcement_with_invalid_utf8_is_ignored() {
    let mut d = Dispatcher::new();
    let mut msg = new_connection_sequence();
    msg.extend_from_slice(&[0xff, 0xfe]);
    assert!(matches!(d.handle(v4(1, 4000), msg), Dispatch::Ignored));
    assert_eq!(d.name_of(v4(1, 4000)), None);
}

#[test]
fn second_announcement_does_not_rename() {
    let mut d = Dispatcher::new();
    joined(&mut d, v4(1, 4000), "alice");
    assert!(matches!(d.handle(v4(1, 4000), connection_request("mallory")), Dispatch::Ignored));
    assert_eq!(d.name_of(v4(1, 4000)), Some("alice".to_string()));
}

#[test]
fn empty_message_from_registered_client_leaves() {
    let mut d = Dispatcher::new();
    joined(&mut d, v4(1, 4000), "alice");
    match d.handle(v4(1, 4000), vec![]) {
        Dispatch::Left { name } => assert_eq!(name, "alice"),
        _ => panic!("expected a leave"),
    }
    assert_eq!(d.name_of(v4(1, 4000)), None);
}

#[test]
fn leave_after_join_restores_book() {
    let mut d = Dispatcher::new();
    joined(&mut d, v4(1, 4000), "alice");
    joined(&mut d, v4(2, 4000), "bob");
    assert!(matches!(d.handle(v4(2, 4000), vec![]), Dispatch::Left { .. }));
    // the book holds alice alone again: bob's text now reaches alice only
    let out = forwarded(d.handle(v4(2, 4000), b"hi".to_vec()));
    assert_eq!(out.len(), 1);
    assert_eq!(out[0].to, v4(1, 4000));
    assert_eq!(out[0].payload, b"alice : hi".to_vec());
}

#[test]
fn empty_message_from_unknown_sender_is_forwarded() {
    let mut d = Dispatcher::new();
    joined(&mut d, v4(1, 4000), "alice");
    let out = forwarded(d.handle(v4(9, 9), vec![]));
    assert_eq!(out.len(), 1);
    assert_eq!(out[0].to, v4(1, 4000));
    assert_eq!(out[0].payload, b"alice : ".to_vec());
}

#[test]
fn chat_reaches_every_other_client_once() {
    let mut d = Dispatcher::new();
    joined(&mut d, v4(1, 4000), "alice");
    joined(&mut d, v4(2, 4000), "bob");
    joined(&mut d, v4(3, 4000), "carol");
    let out = forwarded(d.handle(v4(2, 4000), b"hello".to_vec()));
    assert_eq!(out.len(), 2);
    assert_eq!(out[0].to, v4(1, 4000));
    assert_eq!(out[1].to, v4(3, 4000));
    // the body goes with the first line; later lines carry the name alone
    assert_eq!(out[0].payload, b"alice : hello".to_vec());
    assert_eq!(out[1].payload, b"carol : ".to_vec());
    // the book is unchanged
    assert_eq!(d.name_of(v4(2, 4000)), Some("bob".to_string()));
}

#[test]
fn chat_from_unregistered_sender_reaches_everyone() {
    let mut d = Dispatcher::new();
    joined(&mut d, v4(1, 4000), "alice");
    joined(&mut d, v4(2, 4000), "bob");
    let out = forwarded(d.handle(v4(7, 1), b"x".to_vec()));
    assert_eq!(out.len(), 2);
    assert_eq!(out[0].payload, b"alice : x".to_vec());
    assert_eq!(out[1].payload, b"bob : ".to_vec());
}

#[test]
fn chat_with_nobody_else_is_sent_nowhere() {
    let mut d = Dispatcher::new();
    joined(&mut d, v4(1, 4000), "alice");
    let out = forwarded(d.handle(v4(1, 4000), b"anyone?".to_vec()));
    assert!(out.is_empty());
}

#[test]
fn addresses_differ_by_port_and_family() {
    let mut d = Dispatcher::new();
    joined(&mut d, v4(1, 4000), "a");
    joined(&mut d, v4(1, 4001), "b");
    let six = PeerAddr::V6 { ip6: 1, port: 4000, flowinfo: 0, scope_id: 0 };
    joined(&mut d, six, "c");
    assert_eq!(d.name_of(v4(1, 4001)), Some("b".to_string()));
    assert_eq!(d.name_of(six), Some("c".to_string()));
}

#[test]
fn prefix_alone_registers_empty_name() {
    let mut d = Dispatcher::new();
    match d.handle(v4(1, 1), vec![0x02, 0x05, 0x83]) {
        Dispatch::Joined { name } => assert_eq!(name, ""),
        _ => panic!("expected a join"),
    }
}

#[test]
fn name_kept_over_a_run_of_messages() {
    let mut d = Dispatcher::new();
    joined(&mut d, v4(1, 4000), "alice");
    joined(&mut d, v4(2, 4000), "bob");
    d.handle(v4(1, 4000), b"one".to_vec());
    d.handle(v4(1, 4000), connection_request("eve"));
    d.handle(v4(2, 4000), vec![]);
    d.handle(v4(3, 4000), b"two".to_vec());
    joined(&mut d, v4(2, 4000), "bob2");
    assert_eq!(d.name_of(v4(1, 4000)), Some("alice".to_string()));
    assert_eq!(d.name_of(v4(2, 4000)), Some("bob2".to_string()));
    assert_eq!(d.name_of(v4(3, 4000)), None);
}
