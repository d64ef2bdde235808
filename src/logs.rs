//! Events of a node, stamped with the time they happened.

use vstd::prelude::*;
use crate::asset::Asset;
use crate::block::Block;
use crate::payload::Peer;
use crate::utils::get_current_time;

verus! {

/// Something that happened on a node.
#[derive(Debug)]
pub enum Action {
    /// The log was started.
    InitLog,
    /// A peer connected.
    PeerConnected(Peer),
    /// A peer enrolled.
    PeerEnroll(Peer),
    /// An asset was minted.
    MintingAsset(Asset),
    /// An asset was given to a peer.
    DistributingAssets(Asset, Peer),
    /// A peer asked to buy an asset.
    TransactionRequest(Asset, Peer),
    /// A peer announced its stake.
    StakeBroadcast(Peer, String),
    /// A peer validated a transaction.
    TransactionValidated(Peer),
    /// A block was made.
    BlockCreation(Block),
    /// A made block was sent to the other peers.
    TransactionBroadcasting,
}

/// An event and the local time it happened at.
#[derive(Debug)]
pub struct Command {
    pub timesamp: String,
    pub action: Action,
}

impl Command {
    /// Stamps `action` with the time now.
    pub fn new(action: Action) -> (r: Command)
        ensures
            r.action == action,
    {
        Command { timesamp: get_current_time(), action }
    }
}

} // verus!
