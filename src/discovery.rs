//! The registry of known peers.

use vstd::prelude::*;
use crate::payload::{Peer, PeerView};

verus! {

/// The views of a sequence of peers.
pub open spec fn peer_views(s: Seq<Peer>) -> Seq<PeerView> {
    s.map_values(|p: Peer| p@)
}

/// `i` is the first position of `s` whose peer has id `id`.
pub open spec fn first_with_id(s: Seq<PeerView>, id: Seq<char>, i: int) -> bool {
    &&& 0 <= i < s.len()
    &&& s[i].id == id
    &&& forall|j: int| 0 <= j < i ==> s[j].id != id
}

/// No peer of `s` has id `id`.
pub open spec fn no_id(s: Seq<PeerView>, id: Seq<char>) -> bool {
    forall|j: int| 0 <= j < s.len() ==> s[j].id != id
}

/// The known peers, in order of enrolment.
#[derive(Debug)]
pub struct Network {
    peer: Vec<Peer>,
}

impl View for Network {
    type V = Seq<PeerView>;

    closed spec fn view(&self) -> Seq<PeerView> {
        peer_views(self.peer@)
    }
}

impl Default for Network {
    fn default() -> (r: Self)
        ensures
            r@.len() == 0,
    {
        let r = Network { peer: Vec::new() };
        proof {
            assert(peer_views(r.peer@) =~= Seq::empty());
        }
        r
    }
}

impl Clone for Network {
    fn clone(&self) -> (r: Self)
        ensures
            r@ == self@,
    {
        Network { peer: self.dump_peer() }
    }
}

impl Network {
    /// Position of the first peer with id `id`.
    fn get_peer_index(&self, id: &str) -> (r: Option<usize>)
        ensures
            r matches Some(i) ==> first_with_id(self@, id@, i as int),
            r is None ==> no_id(self@, id@),
    {
        let wanted = id.to_owned();
        let mut i: usize = 0;
        while i < self.peer.len()
            invariant
                wanted@ == id@,
                i <= self@.len(),
                forall|j: int| 0 <= j < i ==> self@[j].id != id@,
            decreases self@.len() - i,
        {
            assert(self@[i as int] == self.peer@[i as int]@);
            if self.peer[i].id == wanted {
                return Some(i);
            }
            i = i + 1;
        }
        None
    }

    /// Adds `peer` unless a peer with its id is already known.
    pub fn add_peer(&mut self, peer: Peer)
        ensures
            no_id(old(self)@, peer@.id) ==> final(self)@ == old(self)@.push(peer@),
            !no_id(old(self)@, peer@.id) ==> final(self)@ == old(self)@,
    {
        if self.get_peer_index(peer.id.as_str()).is_none() {
            let ghost before = self.peer@;
            let ghost added = peer@;
            self.peer.push(peer);
            proof {
                assert(peer_views(self.peer@) =~= peer_views(before).push(added));
            }
        }
    }

    /// The first peer with id `id`, if any.
    pub fn get_peer(&self, id: &str) -> (r: Option<Peer>)
        ensures
            r matches Some(p) ==> exists|i: int| first_with_id(self@, id@, i) && p@ == self@[i],
            r is None <==> no_id(self@, id@),
    {
        match self.get_peer_index(id) {
            Some(i) => Some(self.peer[i].clone()),
            None => None,
        }
    }

    /// A copy of all known peers.
    pub fn dump_peer(&self) -> (r: Vec<Peer>)
        ensures
            peer_views(r@) == self@,
    {
        let mut r: Vec<Peer> = Vec::new();
        let mut i: usize = 0;
        while i < self.peer.len()
            invariant
                i <= self@.len(),
                peer_views(r@) =~= self@.take(i as int),
            decreases self@.len() - i,
        {
            let ghost before = r@;
            r.push(self.peer[i].clone());
            assert(peer_views(r@) =~= peer_views(before).push(self@[i as int]));
            assert(self@.take(i + 1) =~= self@.take(i as int).push(self@[i as int]));
            i = i + 1;
        }
        assert(self@.take(self@.len() as int) =~= self@);
        r
    }

    /// Number of known peers.
    pub fn get_current_size(&self) -> (r: usize)
        ensures
            r == self@.len(),
    {
        self.peer.len()
    }

    /// Replaces the known peers wholesale.
    pub fn replace_peer_ledger(&mut self, peers: Vec<Peer>)
        ensures
            final(self)@ == peer_views(peers@),
    {
        self.peer = peers;
    }
}

} // verus!
