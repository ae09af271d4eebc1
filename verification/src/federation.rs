//! The federation registry: the daemon instances, local and remote, that
//! verbs can be routed to.
//!
//! Forwarding a verb to a remote peer goes over SSH, which the caller does;
//! which peer it goes to, and where, is decided here.

use vstd::prelude::*;
use crate::domain::ids::{fresh_ulid, ulid_string};

verus! {

/// A daemon in the federation.
#[derive(Debug, Clone)]
pub struct FederationPeer {
    /// Unique identifier of the peer (a ULID).
    pub peer_id: String,
    /// Whether the peer is local or remote.
    pub kind: PeerKind,
    /// A label for humans.
    pub label: String,
}

/// Local or remote (over SSH).
#[derive(Debug, Clone)]
pub enum PeerKind {
    /// A daemon running on this machine.
    Local,
    /// A daemon reachable over SSH.
    Remote {
        /// Host name or address.
        host: String,
        /// SSH port.
        port: u16,
        /// Remote user name.
        user: String,
    },
}

/// The registry of known peers.
pub struct Federation {
    peers: Vec<FederationPeer>,
}

/// The position of the first peer with id `id`.
pub open spec fn first_with_id(peers: Seq<FederationPeer>, id: Seq<char>) -> Option<int>
    decreases peers.len(),
{
    if peers.len() == 0 {
        None
    } else {
        match first_with_id(peers.drop_last(), id) {
            Some(i) => Some(i),
            None => if peers.last().peer_id@ == id {
                Some(peers.len() - 1)
            } else {
                None
            },
        }
    }
}

/// Where a verb for peer `id` is forwarded: host, port and user of the first
/// peer with that id, where that peer is remote.
pub open spec fn route_of(peers: Seq<FederationPeer>, id: Seq<char>) -> Option<(Seq<char>, u16, Seq<char>)> {
    match first_with_id(peers, id) {
        Some(i) => match peers[i].kind {
            PeerKind::Remote { host, port, user } => Some((host@, port, user@)),
            PeerKind::Local => None,
        },
        None => None,
    }
}

proof fn lemma_first_with_id(peers: Seq<FederationPeer>, id: Seq<char>, n: int)
    requires
        0 <= n <= peers.len(),
        forall|k: int| 0 <= k < n ==> (#[trigger] peers[k]).peer_id@ != id,
    ensures
        n < peers.len() && peers[n].peer_id@ == id ==> first_with_id(peers, id) == Some(n),
        n == peers.len() ==> first_with_id(peers, id) is None,
    decreases peers.len(),
{
    if peers.len() > 0 {
        let rest = peers.drop_last();
        if n < peers.len() {
            if n < rest.len() {
                lemma_first_with_id(rest, id, n);
            } else {
                lemma_first_with_id(rest, id, rest.len() as int);
            }
        } else {
            lemma_first_with_id(rest, id, rest.len() as int);
        }
    }
}

/// A peer added under a new id is found again by that id: a remote peer's
/// route is its host, port and user, a local peer has none.
pub proof fn lemma_route_of_added_peer(peers: Seq<FederationPeer>, p: FederationPeer)
    requires
        forall|k: int| 0 <= k < peers.len() ==> (#[trigger] peers[k]).peer_id@ != p.peer_id@,
    ensures
        route_of(peers.push(p), p.peer_id@) == match p.kind {
            PeerKind::Remote { host, port, user } => Some((host@, port, user@)),
            PeerKind::Local => None::<(Seq<char>, u16, Seq<char>)>,
        },
{
    let all = peers.push(p);
    assert(all.drop_last() =~= peers);
    lemma_first_with_id(peers, p.peer_id@, peers.len() as int);
}

impl Federation {
    /// The registered peers, in registration order.
    pub closed spec fn peer_list(&self) -> Seq<FederationPeer> {
        self.peers@
    }

    /// An empty registry.
    pub fn new() -> (f: Federation)
        ensures
            f.peer_list() == Seq::<FederationPeer>::empty(),
    {
        Federation { peers: Vec::new() }
    }

    /// Registers a local peer under a fresh id.
    pub fn add_local(&mut self, label: &str) -> (r: &mut Federation)
        ensures
            *final(self) == *final(r),
            r.peer_list().len() == old(self).peer_list().len() + 1,
            r.peer_list().drop_last() == old(self).peer_list(),
            r.peer_list().last().kind is Local,
            r.peer_list().last().label@ == label@,
            r.peer_list().last().peer_id@.len() == 26,
    {
        let id = ulid_string(fresh_ulid());
        self.peers.push(FederationPeer { peer_id: id, kind: PeerKind::Local, label: label.to_owned() });
        assert(self.peers@.drop_last() =~= old(self).peers@);
        self
    }

    /// Registers a remote SSH peer under a fresh id.
    pub fn add_remote(&mut self, label: &str, host: &str, port: u16, user: &str) -> (r: &mut Federation)
        ensures
            *final(self) == *final(r),
            r.peer_list().len() == old(self).peer_list().len() + 1,
            r.peer_list().drop_last() == old(self).peer_list(),
            r.peer_list().last().kind matches PeerKind::Remote { host: h, port: p, user: u }
                && h@ == host@ && p == port && u@ == user@,
            r.peer_list().last().label@ == label@,
            r.peer_list().last().peer_id@.len() == 26,
    {
        let id = ulid_string(fresh_ulid());
        self.peers.push(
            FederationPeer {
                peer_id: id,
                kind: PeerKind::Remote { host: host.to_owned(), port, user: user.to_owned() },
                label: label.to_owned(),
            },
        );
        assert(self.peers@.drop_last() =~= old(self).peers@);
        self
    }

    /// All registered peers, in registration order.
    pub fn peers(&self) -> (r: &[FederationPeer])
        ensures
            r@ == self.peer_list(),
    {
        self.peers.as_slice()
    }

    /// The number of registered peers.
    pub fn peer_count(&self) -> (r: usize)
        ensures
            r == self.peer_list().len(),
    {
        self.peers.len()
    }

    /// Where a verb for `peer_id` is forwarded: host, port and user of the
    /// first peer with that id, where that peer is remote; `None` for an
    /// unknown or local peer.
    pub fn remote_route(&self, peer_id: &str) -> (r: Option<(String, u16, String)>)
        ensures
            match route_of(self.peer_list(), peer_id@) {
                Some(t) => r matches Some(x) && x.0@ == t.0 && x.1 == t.1 && x.2@ == t.2,
                None => r is None,
            },
    {
        let mut i: usize = 0;
        while i < self.peers.len()
            invariant
                i <= self.peers@.len(),
                forall|k: int| 0 <= k < i ==> (#[trigger] self.peers@[k]).peer_id@ != peer_id@,
            decreases self.peers@.len() - i,
        {
            if crate::chars::same_text(self.peers[i].peer_id.as_str(), peer_id) {
                proof {
                    lemma_first_with_id(self.peers@, peer_id@, i as int);
                }
                return match &self.peers[i].kind {
                    PeerKind::Local => None,
                    PeerKind::Remote { host, port, user } => Some((host.clone(), *port, user.clone())),
                };
            }
            i = i + 1;
        }
        proof {
            lemma_first_with_id(self.peers@, peer_id@, i as int);
        }
        None
    }
}

impl Default for Federation {
    fn default() -> (f: Federation)
        ensures
            f.peer_list() == Seq::<FederationPeer>::empty(),
    {
        Federation::new()
    }
}

} // verus!
