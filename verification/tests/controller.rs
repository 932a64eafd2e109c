use network::controller::NetworkController;
use network::peer::{Peer, PeerStatus};
use network::peer_table::{initial_peers_at, PeerTable};

fn controller_at(peers: PeerTable, ip_address: &str) -> (NetworkController, Vec<String>) {
    NetworkController::new(
        peers,
        "6380".to_string(),
        ip_address.to_string(),
        5,
        5,
        5,
        5,
        5,
        5,
        5,
    )
}

fn controller(peers: PeerTable) -> NetworkController {
    controller_at(peers, "10.0.0.9").0
}

fn idle(ip: &str) -> Peer {
    Peer { status: PeerStatus::Idle, last_alive: None, last_failure: None, ip: ip.to_string() }
}

fn peer_at(net: &NetworkController, ip: &str) -> (PeerStatus, Option<i64>, Option<i64>) {
    let t = net.peers();
    let i = t.keys().iter().position(|k| k == ip).expect("known peer");
    let p = &t.peers()[i];
    (p.status, p.last_alive, p.last_failure)
}

#[test]
fn new_keeps_settings() {
    let (net, targets) = controller_at(PeerTable::new(), "10.0.0.9");
    assert!(targets.is_empty());
    assert_eq!(net.listen_port(), "6380");
    assert_eq!(net.ip_address(), "10.0.0.9");
    assert_eq!(net.peer_file_dump_interval_seconds(), 5);
    assert_eq!(net.listen_address(), "10.0.0.9:6380");
    assert_eq!(net.peers().len(), 0);
}

#[test]
fn new_starts_connecting_to_every_peer_but_self() {
    let mut peers = PeerTable::new();
    peers.insert("10.0.0.1".to_string(), idle("10.0.0.1"));
    peers.insert("10.0.0.2".to_string(), idle("10.0.0.2"));
    let (net, targets) = controller_at(peers, "10.0.0.1");
    assert_eq!(targets, vec!["10.0.0.2".to_string()]);
    assert_eq!(net.get_peer_status("10.0.0.1"), PeerStatus::Idle);
    assert_eq!(net.get_peer_status("10.0.0.2"), PeerStatus::OutConnecting);
}

#[test]
fn new_on_the_default_peers() {
    let (net, targets) = controller_at(initial_peers_at(1, 2, 3, 4), "127.0.0.1");
    assert_eq!(targets, vec!["127.0.0.1:555".to_string(), "127.0.0.1:666".to_string()]);
    assert_eq!(net.get_peer_status("127.0.0.1:555"), PeerStatus::OutConnecting);
    assert_eq!(net.get_peer_status("127.0.0.1:666"), PeerStatus::OutConnecting);
    assert_eq!(peer_at(&net, "127.0.0.1:666"), (PeerStatus::OutConnecting, Some(3), Some(4)));
}

#[test]
fn connection_then_success() {
    let mut net = controller(PeerTable::new());
    net.feedback_peer_connected("10.0.0.1", false, 100);
    assert_eq!(net.get_peer_status("10.0.0.1"), PeerStatus::InHandshaking);
    assert_eq!(peer_at(&net, "10.0.0.1"), (PeerStatus::InHandshaking, Some(100), None));
    net.feedback_peer_alive("10.0.0.1", 120);
    assert_eq!(peer_at(&net, "10.0.0.1"), (PeerStatus::InAlive, Some(120), None));
}

#[test]
fn connection_then_failure() {
    let mut net = controller(PeerTable::new());
    net.feedback_peer_connected("10.0.0.1", true, 100);
    assert_eq!(net.get_peer_status("10.0.0.1"), PeerStatus::OutHandshaking);
    net.feedback_peer_failed("10.0.0.1", 130);
    assert_eq!(peer_at(&net, "10.0.0.1"), (PeerStatus::Idle, Some(100), Some(130)));
}

#[test]
fn handshake_result_picks_alive_or_failed() {
    let mut net = controller(PeerTable::new());
    net.feedback_peer_connected("a", true, 1);
    net.feedback_peer_connected("b", true, 2);
    net.feedback_handshake_result("a", true, 3);
    net.feedback_handshake_result("b", false, 4);
    assert_eq!(peer_at(&net, "a"), (PeerStatus::OutAlive, Some(3), None));
    assert_eq!(peer_at(&net, "b"), (PeerStatus::Idle, Some(2), Some(4)));
}

#[test]
fn start_clients_targets_every_peer_but_self() {
    let mut peers = PeerTable::new();
    for ip in ["10.0.0.1", "10.0.0.9", "10.0.0.2"] {
        peers.insert(ip.to_string(), idle(ip));
    }
    let (mut net, first) = controller_at(peers, "10.0.0.9");
    assert_eq!(first, vec!["10.0.0.1".to_string(), "10.0.0.2".to_string()]);
    net.feedback_peer_connected("10.0.0.1", true, 10);
    let targets = net.start_clients();
    assert_eq!(targets, vec!["10.0.0.1".to_string(), "10.0.0.2".to_string()]);
    assert_eq!(net.get_peer_status("10.0.0.1"), PeerStatus::OutConnecting);
    assert_eq!(net.get_peer_status("10.0.0.2"), PeerStatus::OutConnecting);
    assert_eq!(net.get_peer_status("10.0.0.9"), PeerStatus::Idle);
}
