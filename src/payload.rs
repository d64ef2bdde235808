//! Values that peers exchange.

use vstd::prelude::*;
use crate::asset::Asset;
use crate::block::Block;

verus! {

/// A peer: its identity and the address (with port) it listens on.
#[derive(Debug)]
pub struct Peer {
    pub id: String,
    pub ip: String,
}

/// What is observable of a peer.
pub struct PeerView {
    pub id: Seq<char>,
    pub ip: Seq<char>,
}

impl View for Peer {
    type V = PeerView;

    open spec fn view(&self) -> PeerView {
        PeerView { id: self.id@, ip: self.ip@ }
    }
}

impl Clone for Peer {
    fn clone(&self) -> (r: Self)
        ensures
            r@ == self@,
    {
        Peer { id: self.id.clone(), ip: self.ip.clone() }
    }
}

impl Default for Peer {
    fn default() -> (r: Self)
        ensures
            r@.id.len() == 0,
            r@.ip.len() == 0,
    {
        Peer { id: String::new(), ip: String::new() }
    }
}

/// A message from one peer to another.
#[derive(Debug)]
pub struct Gossip {
    pub tx: Peer,
    pub rx: Peer,
}

/// A request to sell an asset.
#[derive(Debug)]
pub struct Tx {
    /// hash of the asset
    pub asset_id: String,
    /// the buying peer's id
    pub buyer_peer_id: String,
}

impl Clone for Tx {
    fn clone(&self) -> (r: Self)
        ensures
            r.asset_id@ == self.asset_id@,
            r.buyer_peer_id@ == self.buyer_peer_id@,
    {
        Tx { asset_id: self.asset_id.clone(), buyer_peer_id: self.buyer_peer_id.clone() }
    }
}

/// A request for a peer's stake for a block.
#[derive(Debug)]
pub struct GetStake {
    pub block_id: usize,
}

/// A sale handed to the elected validator.
#[derive(Debug)]
pub struct ValidateTx {
    /// the sale
    pub tx: Tx,
    /// the selling peer's id
    pub seller_peer_id: String,
}

/// A snapshot of a node's state: its ledgers and, on an attacker, the
/// tampered copies.
#[derive(Debug)]
pub struct Status {
    pub peer_id: String,
    pub asset: Vec<Asset>,
    pub tampered_assets: Option<Vec<Asset>>,
    pub chain: Vec<Block>,
    pub tampered_chain: Option<Vec<Block>>,
}

} // verus!
