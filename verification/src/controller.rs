//! The network controller: this node's settings and its table of peers, fed
//! with what happens to each connection.

use vstd::prelude::*;
use crate::peer::{PeerStatus, PeerView};
use crate::peer_table::{
    alive_view, connected_view, failed_view, marked_outgoing, outgoing_targets, outgoing_view,
    PeerTable,
};
use crate::keyed::texts;
use crate::address::{host_port, join_host_port};

verus! {

/// The table after the handshake with the known peer `ip` ended at `now`,
/// in success when `succeeded`.
pub open spec fn handshake_result_view(
    m: Map<Seq<char>, PeerView>,
    ip: Seq<char>,
    succeeded: bool,
    now: i64,
) -> Map<Seq<char>, PeerView> {
    if succeeded {
        alive_view(m, ip, now)
    } else {
        failed_view(m, ip, now)
    }
}

/// The mathematical value of a controller.
pub struct ControllerView {
    pub peers: Map<Seq<char>, PeerView>,
    pub listen_port: Seq<char>,
    pub ip_address: Seq<char>,
    pub target_outgoing_connections: u8,
    pub max_incoming_connections: u8,
    pub max_simultaneous_outgoing_connection_attempts: u8,
    pub max_simultaneous_incoming_connection_attempts: u8,
    pub max_idle_peers: u8,
    pub max_banned_peers: u8,
    pub peer_file_dump_interval_seconds: u64,
}

/// This node's settings and what it knows of its peers.
pub struct NetworkController {
    peers: PeerTable,
    listen_port: String,
    ip_address: String,
    target_outgoing_connections: u8,
    max_incoming_connections: u8,
    max_simultaneous_outgoing_connection_attempts: u8,
    max_simultaneous_incoming_connection_attempts: u8,
    max_idle_peers: u8,
    max_banned_peers: u8,
    peer_file_dump_interval_seconds: u64,
}

impl View for NetworkController {
    type V = ControllerView;

    closed spec fn view(&self) -> ControllerView {
        ControllerView {
            peers: self.peers@,
            listen_port: self.listen_port@,
            ip_address: self.ip_address@,
            target_outgoing_connections: self.target_outgoing_connections,
            max_incoming_connections: self.max_incoming_connections,
            max_simultaneous_outgoing_connection_attempts: self.max_simultaneous_outgoing_connection_attempts,
            max_simultaneous_incoming_connection_attempts: self.max_simultaneous_incoming_connection_attempts,
            max_idle_peers: self.max_idle_peers,
            max_banned_peers: self.max_banned_peers,
            peer_file_dump_interval_seconds: self.peer_file_dump_interval_seconds,
        }
    }
}

impl NetworkController {
    /// The table of peers.
    pub closed spec fn table(&self) -> PeerTable {
        self.peers
    }

    pub open spec fn wf(&self) -> bool {
        self.table().wf()
    }

    /// The peers of the view are those of the table.
    pub proof fn lemma_view_peers(&self)
        ensures
            self@.peers == self.table()@,
    {
    }

    /// A controller with the given settings, knowing the peers of `peers`,
    /// that has started connecting out: every peer but this node itself
    /// (the one at `ip_address`) is marked as being connected to, and their
    /// addresses are returned beside it, in table order, for the connections
    /// to be opened.
    pub fn new(
        peers: PeerTable,
        listen_port: String,
        ip_address: String,
        target_outgoing_connections: u8,
        max_incoming_connections: u8,
        max_simultaneous_outgoing_connection_attempts: u8,
        max_simultaneous_incoming_connection_attempts: u8,
        max_idle_peers: u8,
        max_banned_peers: u8,
        peer_file_dump_interval_seconds: u64,
    ) -> (r: (Self, Vec<String>))
        requires
            peers.wf(),
        ensures
            r.0.wf(),
            r.0@ == (ControllerView {
                peers: outgoing_view(peers@, ip_address@),
                listen_port: listen_port@,
                ip_address: ip_address@,
                target_outgoing_connections,
                max_incoming_connections,
                max_simultaneous_outgoing_connection_attempts,
                max_simultaneous_incoming_connection_attempts,
                max_idle_peers,
                max_banned_peers,
                peer_file_dump_interval_seconds,
            }),
            r.0.table().key_seq() == peers.key_seq(),
            r.0.table().peer_seq() == peers.peer_seq().map_values(
                |p: PeerView| marked_outgoing(p, ip_address@),
            ),
            texts(r.1@) == outgoing_targets(peers.peer_seq(), ip_address@),
    {
        let mut net = NetworkController {
            peers,
            listen_port,
            ip_address,
            target_outgoing_connections,
            max_incoming_connections,
            max_simultaneous_outgoing_connection_attempts,
            max_simultaneous_incoming_connection_attempts,
            max_idle_peers,
            max_banned_peers,
            peer_file_dump_interval_seconds,
        };
        let targets = net.start_clients();
        (net, targets)
    }

    /// Records that a connection with `ip` was opened at time `now`, going
    /// out from this node when `is_outgoing`: see
    /// `PeerTable::record_connected`.
    pub fn feedback_peer_connected(&mut self, ip: &str, is_outgoing: bool, now: i64)
        requires
            old(self).wf(),
        ensures
            final(self).wf(),
            final(self)@ == (ControllerView {
                peers: connected_view(old(self)@.peers, ip@, is_outgoing, now),
                ..old(self)@
            }),
            final(self).table().key_seq() == if old(self)@.peers.contains_key(ip@) {
                old(self).table().key_seq()
            } else {
                old(self).table().key_seq().push(ip@)
            },
    {
        self.peers.record_connected(ip, is_outgoing, now);
    }

    /// Records that the handshake with the known peer `ip` succeeded at time
    /// `now`: see `PeerTable::record_alive`.
    pub fn feedback_peer_alive(&mut self, ip: &str, now: i64)
        requires
            old(self).wf(),
            old(self)@.peers.contains_key(ip@),
        ensures
            final(self).wf(),
            final(self)@ == (ControllerView {
                peers: alive_view(old(self)@.peers, ip@, now),
                ..old(self)@
            }),
            final(self).table().key_seq() == old(self).table().key_seq(),
    {
        self.peers.record_alive(ip, now);
    }

    /// Records that the handshake with the known peer `ip` failed at time
    /// `now`: see `PeerTable::record_failed`.
    pub fn feedback_peer_failed(&mut self, ip: &str, now: i64)
        requires
            old(self).wf(),
            old(self)@.peers.contains_key(ip@),
        ensures
            final(self).wf(),
            final(self)@ == (ControllerView {
                peers: failed_view(old(self)@.peers, ip@, now),
                ..old(self)@
            }),
            final(self).table().key_seq() == old(self).table().key_seq(),
    {
        self.peers.record_failed(ip, now);
    }

    /// Records how the handshake on a connection with the known peer `ip`
    /// ended at time `now`: alive when it succeeded, failed otherwise.
    pub fn feedback_handshake_result(&mut self, ip: &str, succeeded: bool, now: i64)
        requires
            old(self).wf(),
            old(self)@.peers.contains_key(ip@),
        ensures
            final(self).wf(),
            final(self)@ == (ControllerView {
                peers: handshake_result_view(old(self)@.peers, ip@, succeeded, now),
                ..old(self)@
            }),
            final(self).table().key_seq() == old(self).table().key_seq(),
    {
        if succeeded {
            self.feedback_peer_alive(ip, now);
        } else {
            self.feedback_peer_failed(ip, now);
        }
    }

    /// The status of the known peer `ip`.
    pub fn get_peer_status(&self, ip: &str) -> (s: PeerStatus)
        requires
            self.wf(),
            self@.peers.contains_key(ip@),
        ensures
            s == self@.peers[ip@].status,
    {
        self.peers.status_of(ip)
    }

    /// Marks every peer but this node itself as being connected to, and
    /// returns their addresses, in table order, for the connections to be
    /// opened.
    pub fn start_clients(&mut self) -> (targets: Vec<String>)
        requires
            old(self).wf(),
        ensures
            final(self).wf(),
            final(self)@ == (ControllerView {
                peers: outgoing_view(old(self)@.peers, old(self)@.ip_address),
                ..old(self)@
            }),
            final(self).table().key_seq() == old(self).table().key_seq(),
            final(self).table().peer_seq() == old(self).table().peer_seq().map_values(
                |p: PeerView| marked_outgoing(p, old(self)@.ip_address),
            ),
            texts(targets@) == outgoing_targets(
                old(self).table().peer_seq(),
                old(self)@.ip_address,
            ),
    {
        let targets = self.peers.start_outgoing(self.ip_address.as_str());
        targets
    }

    /// The address this node listens on: `ip_address:listen_port`.
    pub fn listen_address(&self) -> (a: String)
        ensures
            a@ == host_port(self@.ip_address, self@.listen_port),
    {
        join_host_port(self.ip_address.as_str(), self.listen_port.as_str())
    }

    /// The port this node listens on.
    pub fn listen_port(&self) -> (r: &String)
        ensures
            r@ == self@.listen_port,
    {
        &self.listen_port
    }

    /// This node's address.
    pub fn ip_address(&self) -> (r: &String)
        ensures
            r@ == self@.ip_address,
    {
        &self.ip_address
    }

    /// How often, in seconds, the table of peers is written out.
    pub fn peer_file_dump_interval_seconds(&self) -> (r: u64)
        ensures
            r == self@.peer_file_dump_interval_seconds,
    {
        self.peer_file_dump_interval_seconds
    }

    /// The table of peers.
    pub fn peers(&self) -> (r: &PeerTable)
        ensures
            *r == self.table(),
    {
        &self.peers
    }
}

} // verus!

verus! {

/// How a handshake ended decides the update: a success goes through the
/// update of a successful handshake (`InHandshaking` to `InAlive`,
/// `OutHandshaking` to `OutAlive`, any other status kept, last seen alive at
/// `now`, last failure kept), and a failure through that of a failed one
/// (`Idle`, last failure at `now`, last sign of life kept), whatever the
/// peer's status was. The keys and every other peer stay as they were.
pub proof fn law_handshake_result_updates(
    m: Map<Seq<char>, PeerView>,
    ip: Seq<char>,
    now: i64,
    other: Seq<char>,
)
    requires
        m.contains_key(ip),
    ensures
        handshake_result_view(m, ip, true, now) == alive_view(m, ip, now),
        handshake_result_view(m, ip, false, now) == failed_view(m, ip, now),
        m[ip].status == PeerStatus::InHandshaking ==> handshake_result_view(m, ip, true, now)[ip].status
            == PeerStatus::InAlive,
        m[ip].status == PeerStatus::OutHandshaking ==> handshake_result_view(m, ip, true, now)[ip].status
            == PeerStatus::OutAlive,
        m[ip].status != PeerStatus::InHandshaking && m[ip].status != PeerStatus::OutHandshaking
            ==> handshake_result_view(m, ip, true, now)[ip].status == m[ip].status,
        handshake_result_view(m, ip, true, now)[ip].last_alive == Some(now),
        handshake_result_view(m, ip, true, now)[ip].last_failure == m[ip].last_failure,
        handshake_result_view(m, ip, false, now)[ip].status == PeerStatus::Idle,
        handshake_result_view(m, ip, false, now)[ip].last_failure == Some(now),
        handshake_result_view(m, ip, false, now)[ip].last_alive == m[ip].last_alive,
        handshake_result_view(m, ip, true, now).dom() == m.dom(),
        handshake_result_view(m, ip, false, now).dom() == m.dom(),
        other != ip && m.contains_key(other) ==> handshake_result_view(m, ip, true, now)[other]
            == m[other] && handshake_result_view(m, ip, false, now)[other] == m[other],
{
    assert(handshake_result_view(m, ip, true, now).dom() =~= m.dom());
    assert(handshake_result_view(m, ip, false, now).dom() =~= m.dom());
}

} // verus!
