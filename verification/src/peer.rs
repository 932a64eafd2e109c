//! A peer of the network and the states it goes through.

use vstd::prelude::*;

verus! {

/// Where a peer stands with respect to this node.
#[derive(Clone, Copy, Debug, PartialEq, Eq, Structural)]
pub enum PeerStatus {
    Idle,
    OutConnecting,
    OutHandshaking,
    OutAlive,
    InHandshaking,
    InAlive,
    Banned,
}

/// A known peer. Times are whole seconds since the Unix epoch.
#[derive(Debug)]
pub struct Peer {
    pub status: PeerStatus,
    pub last_alive: Option<i64>,
    pub last_failure: Option<i64>,
    pub ip: String,
}

/// The mathematical value of a peer.
pub struct PeerView {
    pub status: PeerStatus,
    pub last_alive: Option<i64>,
    pub last_failure: Option<i64>,
    pub ip: Seq<char>,
}

impl View for Peer {
    type V = PeerView;

    open spec fn view(&self) -> PeerView {
        PeerView {
            status: self.status,
            last_alive: self.last_alive,
            last_failure: self.last_failure,
            ip: self.ip@,
        }
    }
}

/// The status a peer takes when a connection with it starts its handshake.
pub open spec fn handshaking_status(is_outgoing: bool) -> PeerStatus {
    if is_outgoing {
        PeerStatus::OutHandshaking
    } else {
        PeerStatus::InHandshaking
    }
}

/// The status a peer takes when its handshake succeeds: a handshaking peer
/// becomes alive in the same direction, any other keeps its status.
pub open spec fn alive_status(s: PeerStatus) -> PeerStatus {
    match s {
        PeerStatus::InHandshaking => PeerStatus::InAlive,
        PeerStatus::OutHandshaking => PeerStatus::OutAlive,
        _ => s,
    }
}

pub fn handshaking_status_of(is_outgoing: bool) -> (s: PeerStatus)
    ensures
        s == handshaking_status(is_outgoing),
{
    if is_outgoing {
        PeerStatus::OutHandshaking
    } else {
        PeerStatus::InHandshaking
    }
}

pub fn alive_status_of(s: PeerStatus) -> (r: PeerStatus)
    ensures
        r == alive_status(s),
{
    match s {
        PeerStatus::InHandshaking => PeerStatus::InAlive,
        PeerStatus::OutHandshaking => PeerStatus::OutAlive,
        _ => s,
    }
}

} // verus!
