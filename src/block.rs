//! Blocks, the unit that a chain is made of, and their builder.

use vstd::prelude::*;
use crate::asset::{clone_opt, opt_view, Asset};
use crate::utils::{get_current_time, get_rand_string, hash_text, hasher, is_alphanumeric};

verus! {

/// Collects the parts of a non-genesis block.
#[derive(Debug)]
pub struct BlockBuilder {
    /// previous block's hash
    prev: String,
    /// sender's peer id
    tx: String,
    /// receiver's peer id
    rx: String,
    /// hash of the asset transferred
    asset_id: String,
    /// validator's peer id
    validator: String,
}

/// What is observable of a builder.
pub struct BlockBuilderView {
    pub prev: Seq<char>,
    pub tx: Seq<char>,
    pub rx: Seq<char>,
    pub asset_id: Seq<char>,
    pub validator: Seq<char>,
}

impl View for BlockBuilder {
    type V = BlockBuilderView;

    closed spec fn view(&self) -> BlockBuilderView {
        BlockBuilderView {
            prev: self.prev@,
            tx: self.tx@,
            rx: self.rx@,
            asset_id: self.asset_id@,
            validator: self.validator@,
        }
    }
}

impl Default for BlockBuilder {
    fn default() -> (r: Self)
        ensures
            r@.prev.len() == 0,
            r@.tx.len() == 0,
            r@.rx.len() == 0,
            r@.asset_id.len() == 0,
            r@.validator.len() == 0,
    {
        BlockBuilder {
            prev: String::new(),
            tx: String::new(),
            rx: String::new(),
            asset_id: String::new(),
            validator: String::new(),
        }
    }
}

/// The text a non-genesis block's hash is computed from.
pub open spec fn link_text(prev: Seq<char>, rx: Seq<char>, tx: Seq<char>) -> Seq<char> {
    prev + rx + tx
}

fn link_hash(prev: &String, rx: &String, tx: &String) -> (r: String)
    ensures
        r@ == hash_text(link_text(prev@, rx@, tx@)),
{
    let mut text = prev.clone();
    text.append(rx.as_str());
    text.append(tx.as_str());
    hasher(text.as_str())
}

impl BlockBuilder {
    /// Links the block to `prev`.
    pub fn set_prev(&mut self, prev: &Block) -> (r: &mut Self)
        ensures
            r@ == (BlockBuilderView { prev: prev@.hash, ..old(self)@ }),
            final(self)@ == final(r)@,
    {
        self.prev = prev.get_hash().to_owned();
        self
    }

    /// Sets the receiver.
    pub fn set_rx(&mut self, rx: &str) -> (r: &mut Self)
        ensures
            r@ == (BlockBuilderView { rx: rx@, ..old(self)@ }),
            final(self)@ == final(r)@,
    {
        self.rx = rx.to_owned();
        self
    }

    /// Sets the sender.
    pub fn set_tx(&mut self, tx: &str) -> (r: &mut Self)
        ensures
            r@ == (BlockBuilderView { tx: tx@, ..old(self)@ }),
            final(self)@ == final(r)@,
    {
        self.tx = tx.to_owned();
        self
    }

    /// Sets the validator.
    pub fn set_validator(&mut self, validator: &str) -> (r: &mut Self)
        ensures
            r@ == (BlockBuilderView { validator: validator@, ..old(self)@ }),
            final(self)@ == final(r)@,
    {
        self.validator = validator.to_owned();
        self
    }

    /// Sets the asset transferred.
    pub fn set_asset_id(&mut self, asset: &Asset) -> (r: &mut Self)
        ensures
            r@ == (BlockBuilderView { asset_id: asset@.hash, ..old(self)@ }),
            final(self)@ == final(r)@,
    {
        self.asset_id = asset.get_hash().to_owned();
        self
    }

    /// Sets the asset transferred, by its hash.
    pub fn set_asset_hash(&mut self, asset_id: &str) -> (r: &mut Self)
        ensures
            r@ == (BlockBuilderView { asset_id: asset_id@, ..old(self)@ }),
            final(self)@ == final(r)@,
    {
        self.asset_id = asset_id.to_owned();
        self
    }

    /// Builds the block; its hash covers `prev`, `rx` and `tx`. The serial
    /// number is assigned when a chain takes the block.
    pub fn build(&self) -> (r: Block)
        requires
            self@.prev.len() > 0,
            self@.rx.len() > 0,
            self@.tx.len() > 0,
            self@.asset_id.len() > 0,
        ensures
            r@.prev == Some(self@.prev),
            r@.tx == Some(self@.tx),
            r@.rx == Some(self@.rx),
            r@.validator == Some(self@.validator),
            r@.asset_id == Some(self@.asset_id),
            r@.serial_no is None,
            r@.hash == hash_text(link_text(self@.prev, self@.rx, self@.tx)),
            !r@.is_genesis(),
            r@.hash_spec() == r@.hash,
    {
        let hash = link_hash(&self.prev, &self.rx, &self.tx);
        Block {
            prev: Some(self.prev.clone()),
            tx: Some(self.tx.clone()),
            rx: Some(self.rx.clone()),
            hash,
            validator: Some(self.validator.clone()),
            asset_id: Some(self.asset_id.clone()),
            serial_no: None,
            timestamp: get_current_time(),
        }
    }
}

/// An optional text, empty when absent.
pub open spec fn opt_text(o: Option<Seq<char>>) -> Seq<char> {
    match o {
        Some(t) => t,
        None => Seq::empty(),
    }
}

/// A block. `prev`, `tx` and `rx` are absent only in a genesis block.
#[derive(Debug)]
pub struct Block {
    prev: Option<String>,
    hash: String,
    tx: Option<String>,
    rx: Option<String>,
    timestamp: String,
    validator: Option<String>,
    asset_id: Option<String>,
    serial_no: Option<usize>,
}

/// What is observable of a block.
pub struct BlockView {
    pub prev: Option<Seq<char>>,
    pub hash: Seq<char>,
    pub tx: Option<Seq<char>>,
    pub rx: Option<Seq<char>>,
    pub timestamp: Seq<char>,
    pub validator: Option<Seq<char>>,
    pub asset_id: Option<Seq<char>>,
    pub serial_no: Option<nat>,
}

impl BlockView {
    /// A block is genesis iff it lacks a predecessor, a sender or a receiver.
    pub open spec fn is_genesis(self) -> bool {
        self.prev is None || self.tx is None || self.rx is None
    }

    /// The hash a block should carry: the stored one for genesis (drawn at
    /// random), else the hash of `prev`, `rx` and `tx`.
    pub open spec fn hash_spec(self) -> Seq<char> {
        if self.is_genesis() {
            self.hash
        } else {
            hash_text(link_text(self.prev->Some_0, self.rx->Some_0, self.tx->Some_0))
        }
    }
}

impl View for Block {
    type V = BlockView;

    closed spec fn view(&self) -> BlockView {
        BlockView {
            prev: opt_view(self.prev),
            hash: self.hash@,
            tx: opt_view(self.tx),
            rx: opt_view(self.rx),
            timestamp: self.timestamp@,
            validator: opt_view(self.validator),
            asset_id: opt_view(self.asset_id),
            serial_no: match self.serial_no {
                Some(n) => Some(n as nat),
                None => None,
            },
        }
    }
}

impl Clone for Block {
    fn clone(&self) -> (r: Self)
        ensures
            r@ == self@,
    {
        Block {
            prev: clone_opt(&self.prev),
            hash: self.hash.clone(),
            tx: clone_opt(&self.tx),
            rx: clone_opt(&self.rx),
            timestamp: self.timestamp.clone(),
            validator: clone_opt(&self.validator),
            asset_id: clone_opt(&self.asset_id),
            serial_no: self.serial_no,
        }
    }
}

impl Block {
    /// A block with every field given, as received from another peer.
    pub fn from_parts(
        prev: Option<String>,
        hash: String,
        tx: Option<String>,
        rx: Option<String>,
        timestamp: String,
        validator: Option<String>,
        asset_id: Option<String>,
        serial_no: Option<usize>,
    ) -> (r: Block)
        ensures
            r@.prev == opt_view(prev),
            r@.hash == hash@,
            r@.tx == opt_view(tx),
            r@.rx == opt_view(rx),
            r@.timestamp == timestamp@,
            r@.validator == opt_view(validator),
            r@.asset_id == opt_view(asset_id),
            r@.serial_no == (match serial_no {
                Some(n) => Some(n as nat),
                None => None,
            }),
    {
        Block { prev, hash, tx, rx, timestamp, validator, asset_id, serial_no }
    }

    /// A fresh genesis block: serial number 0 and the hash of a random text.
    pub fn genesis() -> (r: Block)
        ensures
            r@.prev is None,
            r@.tx is None,
            r@.rx is None,
            r@.validator is None,
            r@.asset_id is None,
            r@.serial_no == Some(0nat),
            r@.is_genesis(),
            exists|salt: Seq<char>|
                salt.len() == 10 && (forall|i: int| 0 <= i < 10 ==> is_alphanumeric(#[trigger] salt[i]))
                    && r@.hash == hash_text(salt),
    {
        let salt = get_rand_string(10);
        let hash = hasher(salt.as_str());
        Block {
            prev: None,
            tx: None,
            rx: None,
            hash,
            timestamp: get_current_time(),
            validator: None,
            asset_id: None,
            serial_no: Some(0),
        }
    }

    /// Whether this is a genesis block.
    pub fn is_genesis(&self) -> (r: bool)
        ensures
            r == self@.is_genesis(),
    {
        self.prev.is_none() || self.tx.is_none() || self.rx.is_none()
    }

    /// The hash this block should carry (see [`BlockView::hash_spec`]).
    pub fn hash(&self) -> (r: String)
        ensures
            r@ == self@.hash_spec(),
    {
        match (&self.prev, &self.rx, &self.tx) {
            (Some(prev), Some(rx), Some(tx)) => link_hash(prev, rx, tx),
            _ => self.hash.clone(),
        }
    }

    /// A description of the block.
    pub fn to_string(&self) -> (r: String)
        ensures
            self@.is_genesis() ==> r@ == "Genesis block \nHash: "@ + self@.hash,
            !self@.is_genesis() ==> r@ == "Previous Block: "@ + self@.prev->Some_0 + "\nHash: "@ + self@.hash
                + "\n Validator: "@ + opt_text(self@.validator) + "\nSender: "@ + self@.rx->Some_0
                + "\nReceiver: "@ + self@.tx->Some_0 + "\n"@,
    {
        match (&self.prev, &self.rx, &self.tx) {
            (Some(prev), Some(rx), Some(tx)) => {
                let mut text = String::from_str("Previous Block: ");
                text.append(prev.as_str());
                text.append("\nHash: ");
                text.append(self.hash.as_str());
                text.append("\n Validator: ");
                match &self.validator {
                    Some(v) => text.append(v.as_str()),
                    None => {},
                }
                text.append("\nSender: ");
                text.append(rx.as_str());
                text.append("\nReceiver: ");
                text.append(tx.as_str());
                text.append("\n");
                text
            },
            _ => {
                let mut text = String::from_str("Genesis block \nHash: ");
                text.append(self.hash.as_str());
                text
            },
        }
    }

    /// Whether this block names `prev`'s stored hash as its predecessor.
    pub fn follows(&self, prev: &Block) -> (r: bool)
        ensures
            r == (self@.prev == Some(prev@.hash)),
    {
        match &self.prev {
            Some(p) => *p == prev.hash,
            None => false,
        }
    }

    /// Hash of the previous block.
    pub fn get_prev(&self) -> (r: Option<&String>)
        ensures
            r matches Some(s) ==> self@.prev == Some(s@),
            r is None ==> self@.prev is None,
    {
        self.prev.as_ref()
    }

    /// The stored hash.
    pub fn get_hash(&self) -> (r: &str)
        ensures
            r@ == self@.hash,
    {
        self.hash.as_str()
    }

    /// The receiver of the transfer.
    pub fn get_rx(&self) -> (r: Option<&String>)
        ensures
            r matches Some(s) ==> self@.rx == Some(s@),
            r is None ==> self@.rx is None,
    {
        self.rx.as_ref()
    }

    /// The validator that made the block.
    pub fn get_validator(&self) -> (r: Option<&String>)
        ensures
            r matches Some(s) ==> self@.validator == Some(s@),
            r is None ==> self@.validator is None,
    {
        self.validator.as_ref()
    }

    /// The sender of the transfer.
    pub fn get_tx(&self) -> (r: Option<&String>)
        ensures
            r matches Some(s) ==> self@.tx == Some(s@),
            r is None ==> self@.tx is None,
    {
        self.tx.as_ref()
    }

    /// Hash of the asset transferred.
    pub fn get_asset_id(&self) -> (r: Option<&String>)
        ensures
            r matches Some(s) ==> self@.asset_id == Some(s@),
            r is None ==> self@.asset_id is None,
    {
        self.asset_id.as_ref()
    }

    /// Serial number, once a chain has taken the block.
    pub fn get_serial_no(&self) -> (r: Option<usize>)
        ensures
            r matches Some(n) ==> self@.serial_no == Some(n as nat),
            r is None ==> self@.serial_no is None,
    {
        self.serial_no
    }

    /// Sets the serial number.
    pub fn set_serial_no(&mut self, serial_no: usize)
        ensures
            final(self)@ == (BlockView { serial_no: Some(serial_no as nat), ..old(self)@ }),
    {
        self.serial_no = Some(serial_no);
    }

    /// The creation time, as text.
    pub fn get_timestamp(&self) -> (r: &str)
        ensures
            r@ == self@.timestamp,
    {
        self.timestamp.as_str()
    }
}

} // verus!
