//! Error types of the ledger and of a peer.

use vstd::prelude::*;

verus! {

/// What can go wrong when a chain is extended, checked or replaced.
#[derive(Debug, Clone, Copy, PartialEq, Eq, Structural)]
pub enum ChainError {
    /// A genesis block was offered for appending; only a new chain has one.
    GenesisBlockAdditionError,
    /// Some block's `prev` is not the hash of the block before it.
    InvalidBlockChain,
    /// The block's `prev` is not the hash of the chain's last block.
    InconsistentBlockAddition,
}

impl ChainError {
    /// Human-readable description.
    pub fn message(&self) -> (r: &'static str)
        ensures
            r@ == chain_message(*self),
    {
        match self {
            ChainError::GenesisBlockAdditionError => "Block passed is a genesis block. Can't add second Genesis block",
            ChainError::InvalidBlockChain => "Invalid blockchain, looks like it's been tampered!",
            ChainError::InconsistentBlockAddition => "Block can't be added, previous hash and block data don't match",
        }
    }
}

/// The description of a chain error.
pub open spec fn chain_message(e: ChainError) -> Seq<char> {
    match e {
        ChainError::GenesisBlockAdditionError => "Block passed is a genesis block. Can't add second Genesis block"@,
        ChainError::InvalidBlockChain => "Invalid blockchain, looks like it's been tampered!"@,
        ChainError::InconsistentBlockAddition => "Block can't be added, previous hash and block data don't match"@,
    }
}

/// What can go wrong in an operation of a peer.
#[derive(Debug, Clone, Copy, PartialEq, Eq, Structural)]
pub enum PeerError {
    /// The peer was asked to attack but is not configured as an attacker.
    NotAttacker,
    /// The peer was asked to mint assets but is not the auditor.
    NotAuditor,
    /// No asset of any declared stake could be authenticated, so nobody can
    /// be elected validator.
    NoValidator,
    /// The elected validator is not in the peer registry.
    UnknownValidator,
    /// A chain operation failed.
    ChainError(ChainError),
}

impl PeerError {
    /// Human-readable description.
    pub fn message(&self) -> (r: &'static str)
        ensures
            *self == PeerError::NotAttacker ==> r@ == "Peer is not configured to attack, can't carry out attack"@,
            *self == PeerError::NotAuditor ==> r@ == "Peer is not configured to mint assets, can't mint assets"@,
            *self == PeerError::NoValidator ==> r@ == "No authenticated stake, no validator can be elected"@,
            *self == PeerError::UnknownValidator ==> r@ == "Elected validator is not a known peer"@,
            forall|e: ChainError| *self == PeerError::ChainError(e) ==> r@ == #[trigger] chain_message(e),
    {
        match self {
            PeerError::NotAttacker => "Peer is not configured to attack, can't carry out attack",
            PeerError::NotAuditor => "Peer is not configured to mint assets, can't mint assets",
            PeerError::NoValidator => "No authenticated stake, no validator can be elected",
            PeerError::UnknownValidator => "Elected validator is not a known peer",
            PeerError::ChainError(e) => e.message(),
        }
    }
}

} // verus!
