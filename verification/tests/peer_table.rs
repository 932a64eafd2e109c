use network::peer::{Peer, PeerStatus};
use network::peer_table::{initial_peers_at, PeerTable};

fn peer(ip: &str, status: PeerStatus, alive: Option<i64>, failure: Option<i64>) -> Peer {
    Peer { status, last_alive: alive, last_failure: failure, ip: ip.to_string() }
}

fn find<'a>(t: &'a PeerTable, key: &str) -> &'a Peer {
    let i = t.keys().iter().position(|k| k == key).expect("key present");
    &t.peers()[i]
}

#[test]
fn new_table_is_empty() {
    let t = PeerTable::new();
    assert_eq!(t.len(), 0);
    assert!(!t.contains("10.0.0.1"));
}

#[test]
fn outgoing_connection_adds_unknown_peer() {
    let mut t = PeerTable::new();
    t.record_connected("10.0.0.1", true, 100);
    assert!(t.contains("10.0.0.1"));
    let p = find(&t, "10.0.0.1");
    assert_eq!(p.status, PeerStatus::OutHandshaking);
    assert_eq!(p.last_alive, Some(100));
    assert_eq!(p.last_failure, None);
    assert_eq!(p.ip, "10.0.0.1");
    assert_eq!(t.status_of("10.0.0.1"), PeerStatus::OutHandshaking);
}

#[test]
fn incoming_connection_on_known_peer_keeps_its_times() {
    let mut t = PeerTable::new();
    t.insert("10.0.0.2".to_string(), peer("10.0.0.2", PeerStatus::Idle, Some(5), Some(7)));
    t.record_connected("10.0.0.2", false, 100);
    let p = find(&t, "10.0.0.2");
    assert_eq!(p.status, PeerStatus::InHandshaking);
    assert_eq!(p.last_alive, Some(5));
    assert_eq!(p.last_failure, Some(7));
    assert_eq!(t.len(), 1);
}

#[test]
fn handshake_success_makes_peer_alive_in_its_direction() {
    let mut t = PeerTable::new();
    t.record_connected("a", true, 1);
    t.record_connected("b", false, 2);
    t.record_alive("a", 10);
    t.record_alive("b", 11);
    assert_eq!(t.status_of("a"), PeerStatus::OutAlive);
    assert_eq!(t.status_of("b"), PeerStatus::InAlive);
    assert_eq!(find(&t, "a").last_alive, Some(10));
    assert_eq!(find(&t, "b").last_alive, Some(11));
}

#[test]
fn success_on_peer_not_handshaking_keeps_status() {
    let mut t = PeerTable::new();
    t.insert("c".to_string(), peer("c", PeerStatus::Banned, None, None));
    t.record_alive("c", 3);
    assert_eq!(t.status_of("c"), PeerStatus::Banned);
    assert_eq!(find(&t, "c").last_alive, Some(3));
}

#[test]
fn handshake_failure_makes_peer_idle() {
    let mut t = PeerTable::new();
    t.record_connected("a", true, 1);
    t.record_failed("a", 20);
    let p = find(&t, "a");
    assert_eq!(p.status, PeerStatus::Idle);
    assert_eq!(p.last_failure, Some(20));
    assert_eq!(p.last_alive, Some(1));
}

#[test]
fn feedback_leaves_other_peers_alone() {
    let mut t = PeerTable::new();
    t.record_connected("a", true, 1);
    t.record_connected("b", true, 2);
    t.record_failed("a", 30);
    let b = find(&t, "b");
    assert_eq!(b.status, PeerStatus::OutHandshaking);
    assert_eq!(b.last_alive, Some(2));
    assert_eq!(b.last_failure, None);
}

#[test]
fn connected_twice_is_connected_once() {
    let mut t = PeerTable::new();
    t.record_connected("a", true, 1);
    t.record_connected("a", true, 9);
    assert_eq!(t.len(), 1);
    let p = find(&t, "a");
    assert_eq!(p.status, PeerStatus::OutHandshaking);
    assert_eq!(p.last_alive, Some(1));
}

#[test]
fn start_outgoing_skips_self_and_keeps_order() {
    let mut t = PeerTable::new();
    t.insert("x".to_string(), peer("10.0.0.3", PeerStatus::Idle, None, None));
    t.insert("me".to_string(), peer("10.0.0.9", PeerStatus::InAlive, None, None));
    t.insert("y".to_string(), peer("10.0.0.1", PeerStatus::Banned, Some(4), None));
    let targets = t.start_outgoing("10.0.0.9");
    assert_eq!(targets, vec!["10.0.0.3".to_string(), "10.0.0.1".to_string()]);
    assert_eq!(find(&t, "x").status, PeerStatus::OutConnecting);
    assert_eq!(find(&t, "y").status, PeerStatus::OutConnecting);
    assert_eq!(find(&t, "y").last_alive, Some(4));
    assert_eq!(find(&t, "me").status, PeerStatus::InAlive);
    assert_eq!(t.keys(), &vec!["x".to_string(), "me".to_string(), "y".to_string()]);
}

#[test]
fn start_outgoing_on_empty_table() {
    let mut t = PeerTable::new();
    assert!(t.start_outgoing("10.0.0.9").is_empty());
}

#[test]
fn insert_replaces_what_was_stored() {
    let mut t = PeerTable::new();
    t.insert("k".to_string(), peer("1.1.1.1", PeerStatus::Idle, None, None));
    t.insert("k".to_string(), peer("2.2.2.2", PeerStatus::Banned, Some(1), Some(2)));
    assert_eq!(t.len(), 1);
    let p = find(&t, "k");
    assert_eq!(p.ip, "2.2.2.2");
    assert_eq!(p.status, PeerStatus::Banned);
}

#[test]
fn initial_peers_at_holds_the_two_default_peers() {
    let t = initial_peers_at(1, 2, 3, 4);
    assert_eq!(t.keys(), &vec!["127.0.0.1:555".to_string(), "127.0.0.1:666".to_string()]);
    let a = find(&t, "127.0.0.1:555");
    assert_eq!(a.ip, "127.0.0.1:555");
    assert_eq!(a.status, PeerStatus::Idle);
    assert_eq!((a.last_alive, a.last_failure), (Some(1), Some(2)));
    let b = find(&t, "127.0.0.1:666");
    assert_eq!(b.ip, "127.0.0.1:666");
    assert_eq!((b.last_alive, b.last_failure), (Some(3), Some(4)));
}
