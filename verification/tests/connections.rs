use geck::connections::ConnectionInfo;
use geck::peer::PeerAddr;

fn p(port: u16) -> PeerAddr {
    PeerAddr::V4 { ip4: 0x7f00_0001, port }
}

#[test]
fn empty_table() {
    let t: ConnectionInfo<&str> = ConnectionInfo::new();
    assert_eq!(t.len(), 0);
    assert_eq!(t.get(p(1)), None);
    assert!(t.addrs().is_empty());
}

#[test]
fn insert_then_get() {
    let mut t = ConnectionInfo::new();
    assert_eq!(t.insert(p(1), "one"), None);
    assert_eq!(t.insert(p(2), "two"), None);
    assert_eq!(t.get(p(1)), Some(&"one"));
    assert_eq!(t.get(p(2)), Some(&"two"));
    assert_eq!(t.get(p(3)), None);
    assert_eq!(t.len(), 2);
    assert_eq!(t.addrs(), vec![p(1), p(2)]);
}

#[test]
fn insert_replaces_in_place() {
    let mut t = ConnectionInfo::new();
    t.insert(p(1), 10);
    t.insert(p(2), 20);
    assert_eq!(t.insert(p(1), 11), Some(10));
    assert_eq!(t.get(p(1)), Some(&11));
    assert_eq!(t.len(), 2);
    assert_eq!(t.addrs(), vec![p(1), p(2)]);
}

#[test]
fn remove_reports_presence() {
    let mut t = ConnectionInfo::new();
    t.insert(p(1), 'a');
    t.insert(p(2), 'b');
    assert_eq!(t.remove(p(1)), Some('a'));
    assert_eq!(t.remove(p(1)), None);
    assert_eq!(t.get(p(1)), None);
    assert_eq!(t.get(p(2)), Some(&'b'));
    assert_eq!(t.addrs(), vec![p(2)]);
}

#[test]
fn insert_then_remove_restores() {
    let mut t = ConnectionInfo::new();
    t.insert(p(5), 5u8);
    t.insert(p(9), 9u8);
    assert_eq!(t.remove(p(9)), Some(9));
    assert_eq!(t.addrs(), vec![p(5)]);
    assert_eq!(t.get(p(5)), Some(&5));
}
