//! The table of known peers, keyed by address, and what each piece of
//! feedback about a connection does to it.

use vstd::prelude::*;
use vstd::string::*;
use crate::keyed::{
    distinct_keys, find_key, keyed_map, lemma_map_entry, lemma_map_push, lemma_map_update,
    texts,
};
use crate::peer::{
    alive_status, alive_status_of, handshaking_status, handshaking_status_of, Peer, PeerStatus,
    PeerView,
};

verus! {

/// A peer first heard of at time `now`.
pub open spec fn fresh_peer(ip: Seq<char>, now: i64) -> PeerView {
    PeerView { status: PeerStatus::Idle, last_alive: Some(now), last_failure: None, ip }
}

/// The table after a connection with `ip` was opened at time `now`: an
/// unknown peer is added, and the peer enters its handshake.
pub open spec fn connected_view(
    m: Map<Seq<char>, PeerView>,
    ip: Seq<char>,
    is_outgoing: bool,
    now: i64,
) -> Map<Seq<char>, PeerView> {
    let base = if m.contains_key(ip) {
        m[ip]
    } else {
        fresh_peer(ip, now)
    };
    m.insert(ip, PeerView { status: handshaking_status(is_outgoing), ..base })
}

/// The table after the handshake with the known peer `ip` succeeded at `now`.
pub open spec fn alive_view(m: Map<Seq<char>, PeerView>, ip: Seq<char>, now: i64) -> Map<
    Seq<char>,
    PeerView,
> {
    m.insert(ip, PeerView { status: alive_status(m[ip].status), last_alive: Some(now), ..m[ip] })
}

/// The table after the handshake with the known peer `ip` failed at `now`.
pub open spec fn failed_view(m: Map<Seq<char>, PeerView>, ip: Seq<char>, now: i64) -> Map<
    Seq<char>,
    PeerView,
> {
    m.insert(ip, PeerView { status: PeerStatus::Idle, last_failure: Some(now), ..m[ip] })
}

/// A peer as it stands once this node (at address `self_ip`) has started
/// connecting out: every peer but the node itself is being connected to.
pub open spec fn marked_outgoing(p: PeerView, self_ip: Seq<char>) -> PeerView {
    if p.ip == self_ip {
        p
    } else {
        PeerView { status: PeerStatus::OutConnecting, ..p }
    }
}

/// The table once outgoing connections were started.
pub open spec fn outgoing_view(m: Map<Seq<char>, PeerView>, self_ip: Seq<char>) -> Map<
    Seq<char>,
    PeerView,
> {
    Map::new(|k: Seq<char>| m.contains_key(k), |k: Seq<char>| marked_outgoing(m[k], self_ip))
}

/// The addresses to connect out to, in table order: that of every peer but
/// the node itself.
pub open spec fn outgoing_targets(peers: Seq<PeerView>, self_ip: Seq<char>) -> Seq<Seq<char>>
    decreases peers.len(),
{
    if peers.len() == 0 {
        Seq::empty()
    } else {
        let rest = outgoing_targets(peers.drop_last(), self_ip);
        if peers.last().ip != self_ip {
            rest.push(peers.last().ip)
        } else {
            rest
        }
    }
}

/// Every key names the peer stored under it.
pub open spec fn keys_name_their_peers(m: Map<Seq<char>, PeerView>) -> bool {
    forall|k: Seq<char>| #[trigger] m.contains_key(k) ==> m[k].ip == k
}

/// The known peers, each under a distinct key, in insertion order.
pub struct PeerTable {
    keys: Vec<String>,
    peers: Vec<Peer>,
}

impl View for PeerTable {
    type V = Map<Seq<char>, PeerView>;

    open spec fn view(&self) -> Map<Seq<char>, PeerView> {
        keyed_map(self.key_seq(), self.peer_seq())
    }
}

impl PeerTable {
    /// The keys, in table order.
    pub closed spec fn key_seq(&self) -> Seq<Seq<char>> {
        texts(self.keys@)
    }

    /// The peers, in table order, each beside its key.
    pub closed spec fn peer_seq(&self) -> Seq<PeerView> {
        self.peers@.map_values(|p: Peer| p@)
    }

    /// One peer per key, and no key twice.
    pub open spec fn wf(&self) -> bool {
        &&& self.key_seq().len() == self.peer_seq().len()
        &&& distinct_keys(self.key_seq())
    }

    /// An empty table.
    pub fn new() -> (t: Self)
        ensures
            t.wf(),
            t.key_seq() == Seq::<Seq<char>>::empty(),
            t.peer_seq() == Seq::<PeerView>::empty(),
            t@ == Map::<Seq<char>, PeerView>::empty(),
    {
        let t = PeerTable { keys: Vec::new(), peers: Vec::new() };
        assert(t.key_seq() =~= Seq::<Seq<char>>::empty());
        assert(t.peer_seq() =~= Seq::<PeerView>::empty());
        assert(t@ =~= Map::<Seq<char>, PeerView>::empty());
        t
    }

    /// The number of peers.
    pub fn len(&self) -> (n: usize)
        ensures
            n == self.key_seq().len(),
    {
        self.keys.len()
    }

    /// The keys, in table order.
    pub fn keys(&self) -> (r: &Vec<String>)
        ensures
            texts(r@) == self.key_seq(),
    {
        &self.keys
    }

    /// The peers, in table order.
    pub fn peers(&self) -> (r: &Vec<Peer>)
        ensures
            r@.map_values(|p: Peer| p@) == self.peer_seq(),
    {
        &self.peers
    }

    proof fn lemma_lens(&self)
        ensures
            self.key_seq().len() == self.keys@.len(),
            self.peer_seq().len() == self.peers@.len(),
            forall|i: int| 0 <= i < self.keys@.len() ==> #[trigger] self.key_seq()[i] == self.keys@[i]@,
            forall|i: int| 0 <= i < self.peers@.len() ==> #[trigger] self.peer_seq()[i] == self.peers@[i]@,
    {
    }

    /// Stores `peer` under `key`, in place of what was stored there.
    pub fn insert(&mut self, key: String, peer: Peer)
        requires
            old(self).wf(),
        ensures
            final(self).wf(),
            final(self)@ == old(self)@.insert(key@, peer@),
            final(self).key_seq() == if old(self)@.contains_key(key@) {
                old(self).key_seq()
            } else {
                old(self).key_seq().push(key@)
            },
    {
        proof { self.lemma_lens(); }
        match find_key(&self.keys, &key) {
            Some(i) => {
                proof { lemma_map_entry(self.key_seq(), self.peer_seq(), i as int); }
                let ghost ks = self.key_seq();
                let ghost ps = self.peer_seq();
                self.peers.set(i, peer);
                proof {
                    assert(self.key_seq() == ks);
                    assert(self.peer_seq() =~= ps.update(i as int, peer@));
                    lemma_map_update(ks, ps, i as int, peer@);
                }
            },
            None => {
                let ghost ks = self.key_seq();
                let ghost ps = self.peer_seq();
                let ghost kv = key@;
                self.keys.push(key);
                self.peers.push(peer);
                proof {
                    assert(self.key_seq() =~= ks.push(kv));
                    assert(self.peer_seq() =~= ps.push(peer@));
                    lemma_map_push(ks, ps, kv, peer@);
                }
            },
        }
    }

    /// Puts `peer` at position `i`, beside the key already there.
    fn replace_at(&mut self, i: usize, peer: Peer)
        requires
            old(self).wf(),
            i < old(self).key_seq().len(),
        ensures
            final(self).wf(),
            final(self).key_seq() == old(self).key_seq(),
            final(self).peer_seq() == old(self).peer_seq().update(i as int, peer@),
            final(self)@ == old(self)@.insert(old(self).key_seq()[i as int], peer@),
    {
        proof { self.lemma_lens(); }
        let ghost ks = self.key_seq();
        let ghost ps = self.peer_seq();
        self.peers.set(i, peer);
        proof {
            assert(self.key_seq() == ks);
            assert(self.peer_seq() =~= ps.update(i as int, peer@));
            lemma_map_update(ks, ps, i as int, peer@);
        }
    }

    /// Records that a connection with `ip` was opened at time `now`, going
    /// out from this node when `is_outgoing`: a peer not yet known is added
    /// as first seen alive at `now`, and the peer enters its handshake.
    pub fn record_connected(&mut self, ip: &str, is_outgoing: bool, now: i64)
        requires
            old(self).wf(),
        ensures
            final(self).wf(),
            final(self)@ == connected_view(old(self)@, ip@, is_outgoing, now),
            final(self).key_seq() == if old(self)@.contains_key(ip@) {
                old(self).key_seq()
            } else {
                old(self).key_seq().push(ip@)
            },
    {
        proof { self.lemma_lens(); }
        let key = ip.to_owned();
        let status = handshaking_status_of(is_outgoing);
        match find_key(&self.keys, &key) {
            Some(i) => {
                proof { lemma_map_entry(self.key_seq(), self.peer_seq(), i as int); }
                let updated = Peer {
                    status,
                    last_alive: self.peers[i].last_alive,
                    last_failure: self.peers[i].last_failure,
                    ip: self.peers[i].ip.clone(),
                };
                self.replace_at(i, updated);
            },
            None => {
                let peer = Peer { status, last_alive: Some(now), last_failure: None, ip: ip.to_owned() };
                self.insert(key, peer);
            },
        }
    }

    /// Records that the handshake with the known peer `ip` succeeded at time
    /// `now`: a handshaking peer becomes alive, and its last sign of life is
    /// `now`.
    pub fn record_alive(&mut self, ip: &str, now: i64)
        requires
            old(self).wf(),
            old(self)@.contains_key(ip@),
        ensures
            final(self).wf(),
            final(self)@ == alive_view(old(self)@, ip@, now),
            final(self).key_seq() == old(self).key_seq(),
    {
        proof { self.lemma_lens(); }
        let key = ip.to_owned();
        match find_key(&self.keys, &key) {
            Some(i) => {
                proof { lemma_map_entry(self.key_seq(), self.peer_seq(), i as int); }
                let updated = Peer {
                    status: alive_status_of(self.peers[i].status),
                    last_alive: Some(now),
                    last_failure: self.peers[i].last_failure,
                    ip: self.peers[i].ip.clone(),
                };
                self.replace_at(i, updated);
            },
            None => {
                proof { assert(false); }
            },
        }
    }

    /// Records that the handshake with the known peer `ip` failed at time
    /// `now`: the peer goes back to idle, and its last failure is `now`.
    pub fn record_failed(&mut self, ip: &str, now: i64)
        requires
            old(self).wf(),
            old(self)@.contains_key(ip@),
        ensures
            final(self).wf(),
            final(self)@ == failed_view(old(self)@, ip@, now),
            final(self).key_seq() == old(self).key_seq(),
    {
        proof { self.lemma_lens(); }
        let key = ip.to_owned();
        match find_key(&self.keys, &key) {
            Some(i) => {
                proof { lemma_map_entry(self.key_seq(), self.peer_seq(), i as int); }
                let updated = Peer {
                    status: PeerStatus::Idle,
                    last_alive: self.peers[i].last_alive,
                    last_failure: Some(now),
                    ip: self.peers[i].ip.clone(),
                };
                self.replace_at(i, updated);
            },
            None => {
                proof { assert(false); }
            },
        }
    }

    /// Starts connecting out from this node, whose address is `self_ip`:
    /// every peer but the node itself is marked as being connected to, and
    /// their addresses are returned in table order.
    pub fn start_outgoing(&mut self, self_ip: &str) -> (targets: Vec<String>)
        requires
            old(self).wf(),
        ensures
            final(self).wf(),
            final(self).key_seq() == old(self).key_seq(),
            final(self).peer_seq() == old(self).peer_seq().map_values(
                |p: PeerView| marked_outgoing(p, self_ip@),
            ),
            final(self)@ == outgoing_view(old(self)@, self_ip@),
            texts(targets@) == outgoing_targets(old(self).peer_seq(), self_ip@),
    {
        proof { self.lemma_lens(); }
        let me = self_ip.to_owned();
        let ghost ks = self.key_seq();
        let ghost ps = self.peer_seq();
        let mut targets: Vec<String> = Vec::new();
        let n = self.peers.len();
        let mut i: usize = 0;
        while i < n
            invariant
                n == self.peers.len(),
                n == ps.len(),
                i <= n,
                me@ == self_ip@,
                self.wf(),
                self.key_seq() == ks,
                forall|j: int| 0 <= j < i ==> #[trigger] self.peer_seq()[j] == marked_outgoing(ps[j], self_ip@),
                forall|j: int| i <= j < n ==> #[trigger] self.peer_seq()[j] == ps[j],
                texts(targets@) == outgoing_targets(ps.take(i as int), self_ip@),
            decreases n - i,
        {
            proof {
                self.lemma_lens();
                assert(ps.take(i + 1).drop_last() =~= ps.take(i as int));
                assert(ps.take(i + 1).last() == ps[i as int]);
                assert(self.peer_seq()[i as int] == ps[i as int]);
                assert(self.peers@[i as int].ip@ == ps[i as int].ip);
            }
            if !self.peers[i].ip.eq(&me) {
                let ghost before = targets@;
                let ip_copy = self.peers[i].ip.clone();
                assert(ip_copy@ == ps[i as int].ip);
                targets.push(ip_copy);
                assert(texts(targets@) =~= texts(before).push(ps[i as int].ip));
                let updated = Peer {
                    status: PeerStatus::OutConnecting,
                    last_alive: self.peers[i].last_alive,
                    last_failure: self.peers[i].last_failure,
                    ip: self.peers[i].ip.clone(),
                };
                self.replace_at(i, updated);
            }
            i = i + 1;
        }
        proof {
            assert(ps.take(n as int) =~= ps);
            assert(self.peer_seq() =~= ps.map_values(|p: PeerView| marked_outgoing(p, self_ip@)));
            let m = old(self)@;
            assert forall|k: Seq<char>| #[trigger] self@.contains_key(k) implies self@[k]
                == outgoing_view(m, self_ip@)[k] by {
                let p = crate::keyed::position_of(ks, k);
                assert(0 <= p < ks.len() && ks[p] == k);
                lemma_map_entry(ks, ps, p);
            }
            assert(self@ =~= outgoing_view(m, self_ip@));
        }
        targets
    }

    /// Whether a peer is stored under `ip`.
    pub fn contains(&self, ip: &str) -> (r: bool)
        ensures
            r == self@.contains_key(ip@),
    {
        proof { self.lemma_lens(); }
        let key = ip.to_owned();
        match find_key(&self.keys, &key) {
            Some(i) => {
                proof { assert(self.key_seq()[i as int] == ip@); }
                true
            },
            None => false,
        }
    }

    /// The status of the peer stored under `ip`.
    pub fn status_of(&self, ip: &str) -> (s: PeerStatus)
        requires
            self.wf(),
            self@.contains_key(ip@),
        ensures
            s == self@[ip@].status,
    {
        proof { self.lemma_lens(); }
        let key = ip.to_owned();
        match find_key(&self.keys, &key) {
            Some(i) => {
                proof { lemma_map_entry(self.key_seq(), self.peer_seq(), i as int); }
                self.peers[i].status
            },
            None => {
                proof {
                    assert(self.key_seq() =~= texts(self.keys@));
                    assert(false);
                }
                PeerStatus::Idle
            },
        }
    }
}

} // verus!

verus! {

/// A peer whose connection was just opened and whose handshake then
/// succeeds is alive in the direction of that connection, last seen alive
/// at the time of the success.
pub proof fn law_handshake_success_makes_alive(
    m: Map<Seq<char>, PeerView>,
    ip: Seq<char>,
    is_outgoing: bool,
    opened: i64,
    succeeded: i64,
)
    ensures
        connected_view(m, ip, is_outgoing, opened).contains_key(ip),
        alive_view(connected_view(m, ip, is_outgoing, opened), ip, succeeded)[ip].status == (
        if is_outgoing {
            PeerStatus::OutAlive
        } else {
            PeerStatus::InAlive
        }),
        alive_view(connected_view(m, ip, is_outgoing, opened), ip, succeeded)[ip].last_alive
            == Some(succeeded),
{
}

/// A peer whose connection was just opened and whose handshake then fails
/// is idle again, with the time of the failure recorded.
pub proof fn law_handshake_failure_makes_idle(
    m: Map<Seq<char>, PeerView>,
    ip: Seq<char>,
    is_outgoing: bool,
    opened: i64,
    failed: i64,
)
    ensures
        connected_view(m, ip, is_outgoing, opened).contains_key(ip),
        failed_view(connected_view(m, ip, is_outgoing, opened), ip, failed)[ip].status
            == PeerStatus::Idle,
        failed_view(connected_view(m, ip, is_outgoing, opened), ip, failed)[ip].last_failure
            == Some(failed),
{
}

/// Hearing twice that the same connection was opened changes nothing the
/// second time.
pub proof fn law_connected_twice_is_connected_once(
    m: Map<Seq<char>, PeerView>,
    ip: Seq<char>,
    is_outgoing: bool,
    first: i64,
    second: i64,
)
    ensures
        connected_view(connected_view(m, ip, is_outgoing, first), ip, is_outgoing, second)
            == connected_view(m, ip, is_outgoing, first),
{
    let once = connected_view(m, ip, is_outgoing, first);
    let twice = connected_view(once, ip, is_outgoing, second);
    assert(twice =~= once);
}

/// Feedback about one peer leaves every other peer as it was.
pub proof fn law_feedback_touches_one_peer(
    m: Map<Seq<char>, PeerView>,
    ip: Seq<char>,
    other: Seq<char>,
    is_outgoing: bool,
    now: i64,
)
    requires
        other != ip,
    ensures
        connected_view(m, ip, is_outgoing, now).contains_key(other) == m.contains_key(other),
        alive_view(m, ip, now).contains_key(other) == m.contains_key(other),
        failed_view(m, ip, now).contains_key(other) == m.contains_key(other),
        m.contains_key(other) ==> connected_view(m, ip, is_outgoing, now)[other] == m[other],
        m.contains_key(other) ==> alive_view(m, ip, now)[other] == m[other],
        m.contains_key(other) ==> failed_view(m, ip, now)[other] == m[other],
{
}

/// Where every key names the peer stored under it, every kind of feedback
/// and the start of outgoing connections keep it so.
pub proof fn law_keys_keep_naming_their_peers(
    m: Map<Seq<char>, PeerView>,
    ip: Seq<char>,
    is_outgoing: bool,
    now: i64,
    self_ip: Seq<char>,
)
    requires
        keys_name_their_peers(m),
    ensures
        keys_name_their_peers(connected_view(m, ip, is_outgoing, now)),
        m.contains_key(ip) ==> keys_name_their_peers(alive_view(m, ip, now)),
        m.contains_key(ip) ==> keys_name_their_peers(failed_view(m, ip, now)),
        keys_name_their_peers(outgoing_view(m, self_ip)),
{
    let c = connected_view(m, ip, is_outgoing, now);
    assert forall|k: Seq<char>| #[trigger] c.contains_key(k) implies c[k].ip == k by {
        if k != ip {
            assert(m.contains_key(k));
        }
    }
    let o = outgoing_view(m, self_ip);
    assert forall|k: Seq<char>| #[trigger] o.contains_key(k) implies o[k].ip == k by {
        assert(m.contains_key(k));
    }
}

/// Starting outgoing connections leaves this node's own entry as it was,
/// and puts every other peer in the connecting state.
pub proof fn law_outgoing_spares_self(m: Map<Seq<char>, PeerView>, self_ip: Seq<char>, k: Seq<char>)
    requires
        m.contains_key(k),
    ensures
        outgoing_view(m, self_ip).contains_key(k),
        m[k].ip == self_ip ==> outgoing_view(m, self_ip)[k] == m[k],
        m[k].ip != self_ip ==> outgoing_view(m, self_ip)[k].status == PeerStatus::OutConnecting,
        m[k].ip != self_ip ==> outgoing_view(m, self_ip)[k].ip == m[k].ip,
{
}

/// This node connects out to exactly the addresses of its peers other than
/// itself: never to itself, and to every other peer.
pub proof fn law_targets_are_the_other_peers(
    peers: Seq<PeerView>,
    self_ip: Seq<char>,
    x: Seq<char>,
)
    ensures
        outgoing_targets(peers, self_ip).contains(x) <==> (x != self_ip && exists|i: int|
            0 <= i < peers.len() && #[trigger] peers[i].ip == x),
    decreases peers.len(),
{
    if peers.len() > 0 {
        let rest = peers.drop_last();
        law_targets_are_the_other_peers(rest, self_ip, x);
        let t = outgoing_targets(peers, self_ip);
        let tr = outgoing_targets(rest, self_ip);
        if t.contains(x) {
            if tr.contains(x) {
                let i = choose|i: int| 0 <= i < rest.len() && #[trigger] rest[i].ip == x;
                assert(peers[i].ip == x);
            } else {
                let j = choose|j: int| 0 <= j < t.len() && t[j] == x;
                assert(peers.last().ip != self_ip);
                if j < tr.len() {
                    assert(tr.contains(x));
                }
                assert(peers[peers.len() - 1].ip == x);
            }
        }
        if x != self_ip && exists|i: int| 0 <= i < peers.len() && #[trigger] peers[i].ip == x {
            let i = choose|i: int| 0 <= i < peers.len() && #[trigger] peers[i].ip == x;
            if i < peers.len() - 1 {
                assert(rest[i].ip == x);
                let j = choose|j: int| 0 <= j < tr.len() && tr[j] == x;
                if peers.last().ip != self_ip {
                    assert(t[j] == x);
                }
            } else {
                assert(t[t.len() - 1] == x);
            }
        }
    }
}

} // verus!

verus! {

/// An idle peer at `ip`, last seen alive at `alive` and last failed at `failed`.
pub open spec fn idle_peer(ip: Seq<char>, alive: i64, failed: i64) -> PeerView {
    PeerView { status: PeerStatus::Idle, last_alive: Some(alive), last_failure: Some(failed), ip }
}

/// The table a new peers file starts with: two idle peers, at
/// `127.0.0.1:555` and `127.0.0.1:666`, with the given times of their last
/// sign of life and last failure.
pub fn initial_peers_at(alive_1: i64, failed_1: i64, alive_2: i64, failed_2: i64) -> (t:
    PeerTable)
    ensures
        t.wf(),
        t@ == Map::<Seq<char>, PeerView>::empty().insert(
            "127.0.0.1:555"@,
            idle_peer("127.0.0.1:555"@, alive_1, failed_1),
        ).insert("127.0.0.1:666"@, idle_peer("127.0.0.1:666"@, alive_2, failed_2)),
        t.key_seq() == seq!["127.0.0.1:555"@, "127.0.0.1:666"@],
{
    proof {
        reveal_strlit("127.0.0.1:555");
        reveal_strlit("127.0.0.1:666");
        assert("127.0.0.1:555"@[10] != "127.0.0.1:666"@[10]);
    }
    let mut t = PeerTable::new();
    let first = Peer {
        status: PeerStatus::Idle,
        last_alive: Some(alive_1),
        last_failure: Some(failed_1),
        ip: String::from_str("127.0.0.1:555"),
    };
    t.insert(String::from_str("127.0.0.1:555"), first);
    let second = Peer {
        status: PeerStatus::Idle,
        last_alive: Some(alive_2),
        last_failure: Some(failed_2),
        ip: String::from_str("127.0.0.1:666"),
    };
    t.insert(String::from_str("127.0.0.1:666"), second);
    assert(t.key_seq() =~= seq!["127.0.0.1:555"@, "127.0.0.1:666"@]);
    t
}

} // verus!

verus! {

/// Each peer other than this node gives exactly one outgoing target, in
/// table order: the targets are the addresses of the peers that remain when
/// the node's own entries are taken out.
pub proof fn law_one_target_per_peer(peers: Seq<PeerView>, self_ip: Seq<char>)
    ensures
        outgoing_targets(peers, self_ip) == peers.filter(|p: PeerView| p.ip != self_ip).map_values(
            |p: PeerView| p.ip,
        ),
    decreases peers.len(),
{
    let pred = |p: PeerView| p.ip != self_ip;
    let ip_of = |p: PeerView| p.ip;
    reveal_with_fuel(Seq::<_>::filter, 1);
    if peers.len() == 0 {
        assert(peers.filter(pred).map_values(ip_of) =~= Seq::<Seq<char>>::empty());
    } else {
        law_one_target_per_peer(peers.drop_last(), self_ip);
        let rest = peers.drop_last().filter(pred);
        if pred(peers.last()) {
            assert(rest.push(peers.last()).map_values(ip_of) =~= rest.map_values(ip_of).push(
                peers.last().ip,
            ));
        }
    }
}

} // verus!

verus! {

/// Opening a connection with `ip` puts the peer into its handshake in the
/// connection's direction, `OutHandshaking` going out and `InHandshaking`
/// coming in, whatever its status was before. A peer already known keeps
/// its address and times; an unknown one is added at `ip`, first seen alive
/// at `now` and never failed. The keys are those before, and `ip`.
pub proof fn law_connecting_starts_the_handshake(
    m: Map<Seq<char>, PeerView>,
    ip: Seq<char>,
    is_outgoing: bool,
    now: i64,
)
    ensures
        connected_view(m, ip, is_outgoing, now).dom() == m.dom().insert(ip),
        is_outgoing ==> connected_view(m, ip, is_outgoing, now)[ip].status
            == PeerStatus::OutHandshaking,
        !is_outgoing ==> connected_view(m, ip, is_outgoing, now)[ip].status
            == PeerStatus::InHandshaking,
        m.contains_key(ip) ==> connected_view(m, ip, is_outgoing, now)[ip].ip == m[ip].ip,
        m.contains_key(ip) ==> connected_view(m, ip, is_outgoing, now)[ip].last_alive
            == m[ip].last_alive,
        m.contains_key(ip) ==> connected_view(m, ip, is_outgoing, now)[ip].last_failure
            == m[ip].last_failure,
        !m.contains_key(ip) ==> connected_view(m, ip, is_outgoing, now)[ip].ip == ip,
        !m.contains_key(ip) ==> connected_view(m, ip, is_outgoing, now)[ip].last_alive == Some(
            now,
        ),
        !m.contains_key(ip) ==> connected_view(m, ip, is_outgoing, now)[ip].last_failure
            is None,
{
    assert(connected_view(m, ip, is_outgoing, now).dom() =~= m.dom().insert(ip));
}

/// A successful handshake with a known peer makes a peer that was
/// handshaking alive in the same direction (`InHandshaking` to `InAlive`,
/// `OutHandshaking` to `OutAlive`) and leaves any other status as it was.
/// The peer is last seen alive at `now`; its address and its last failure
/// stay as they were, and so do the keys.
pub proof fn law_success_marks_alive(m: Map<Seq<char>, PeerView>, ip: Seq<char>, now: i64)
    requires
        m.contains_key(ip),
    ensures
        alive_view(m, ip, now).dom() == m.dom(),
        m[ip].status == PeerStatus::InHandshaking ==> alive_view(m, ip, now)[ip].status
            == PeerStatus::InAlive,
        m[ip].status == PeerStatus::OutHandshaking ==> alive_view(m, ip, now)[ip].status
            == PeerStatus::OutAlive,
        m[ip].status != PeerStatus::InHandshaking && m[ip].status != PeerStatus::OutHandshaking
            ==> alive_view(m, ip, now)[ip].status == m[ip].status,
        alive_view(m, ip, now)[ip].last_alive == Some(now),
        alive_view(m, ip, now)[ip].last_failure == m[ip].last_failure,
        alive_view(m, ip, now)[ip].ip == m[ip].ip,
{
    assert(alive_view(m, ip, now).dom() =~= m.dom());
}

/// A failed handshake with a known peer makes it `Idle`, whatever its status
/// was, with its last failure at `now`; its address and its last sign of
/// life stay as they were, and so do the keys.
pub proof fn law_failure_marks_idle(m: Map<Seq<char>, PeerView>, ip: Seq<char>, now: i64)
    requires
        m.contains_key(ip),
    ensures
        failed_view(m, ip, now).dom() == m.dom(),
        failed_view(m, ip, now)[ip].status == PeerStatus::Idle,
        failed_view(m, ip, now)[ip].last_failure == Some(now),
        failed_view(m, ip, now)[ip].last_alive == m[ip].last_alive,
        failed_view(m, ip, now)[ip].ip == m[ip].ip,
{
    assert(failed_view(m, ip, now).dom() =~= m.dom());
}

/// Starting outgoing connections changes no key, no address and no time:
/// each peer at another address than `self_ip` becomes `OutConnecting`, and
/// each at `self_ip` keeps its status.
pub proof fn law_outgoing_changes_only_status(
    m: Map<Seq<char>, PeerView>,
    self_ip: Seq<char>,
    k: Seq<char>,
)
    requires
        m.contains_key(k),
    ensures
        outgoing_view(m, self_ip).dom() == m.dom(),
        outgoing_view(m, self_ip)[k].ip == m[k].ip,
        outgoing_view(m, self_ip)[k].last_alive == m[k].last_alive,
        outgoing_view(m, self_ip)[k].last_failure == m[k].last_failure,
        m[k].ip != self_ip ==> outgoing_view(m, self_ip)[k].status == PeerStatus::OutConnecting,
        m[k].ip == self_ip ==> outgoing_view(m, self_ip)[k].status == m[k].status,
{
    assert(outgoing_view(m, self_ip).dom() =~= m.dom());
}

} // verus!
