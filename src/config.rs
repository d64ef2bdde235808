//! A node: its behaviour mode and its state (ledgers, chain, peers), and
//! the decisions it takes on requests from other peers.

use vstd::prelude::*;
use crate::asset::{
    asset_views, assign_unowned, elected, fresh_catalog, hash_position, lemma_elected_unique, lemma_hash_position,
    none_owned, owner_count, stake_answer, with_last_transaction, with_owner, Asset, AssetLedger, AssetView,
    LedgerView, Stake, StakeView,
};
use crate::block::{Block, BlockBuilder, BlockView};
use crate::chain::{block_views, next_serial, Chain};
use crate::discovery::{first_with_id, no_id, peer_views, Network};
use crate::error::{ChainError, PeerError};
use crate::payload::{Peer, PeerView, Status, ValidateTx};

verus! {

/// How a node behaves. The flag of `Attacker` and `Victim` tells whether
/// the adversarial behaviour is armed.
#[derive(Debug, Clone, Copy, PartialEq, Eq, Structural)]
pub enum Mode {
    /// Mints the assets and serves as discovery node.
    Auditor,
    /// `true` while mounting the attack.
    Attacker(bool),
    /// `true` while under attack: withholds its stake and accepts only the
    /// attacker's blocks.
    Victim(bool),
    /// An ordinary node.
    Normal,
}

/// The mode after the attack switch is flipped: the flag of `Attacker` and
/// `Victim` is negated; the other modes stay.
pub open spec fn toggled_spec(m: Mode) -> Mode {
    match m {
        Mode::Attacker(b) => Mode::Attacker(!b),
        Mode::Victim(b) => Mode::Victim(!b),
        other => other,
    }
}

/// A node in this mode answers every stake request with an empty stake.
pub open spec fn withholds_stake_spec(m: Mode) -> bool {
    m == Mode::Attacker(false) || m == Mode::Victim(true)
}

/// The stake a node in mode `m` with asset ledger `l` answers for block
/// `block_id`, and its asset ledger after.
pub open spec fn served(m: Mode, l: LedgerView, block_id: nat) -> (StakeView, LedgerView) {
    if withholds_stake_spec(m) {
        (StakeView { block_id, stake: Seq::empty() }, l)
    } else {
        stake_answer(l, block_id)
    }
}

/// A withholding node (unarmed attacker, armed victim) answers every stake
/// request with an empty stake and keeps its ledger; once the attack switch
/// is flipped it answers the ledger's true stake for the same block.
pub proof fn lemma_toggle_restores_stake(m: Mode, l: LedgerView, block_id: nat)
    requires
        m == Mode::Attacker(false) || m == Mode::Victim(true),
    ensures
        served(m, l, block_id).0.stake.len() == 0,
        served(m, l, block_id).1 == l,
        served(toggled_spec(m), served(m, l, block_id).1, block_id) == stake_answer(l, block_id),
{
}

impl Mode {
    /// The mode after the attack switch is flipped.
    pub fn toggled(self) -> (r: Mode)
        ensures
            r == toggled_spec(self),
    {
        match self {
            Mode::Attacker(b) => Mode::Attacker(!b),
            Mode::Victim(b) => Mode::Victim(!b),
            other => other,
        }
    }

    /// Whether a node in this mode withholds its stake.
    pub fn withholds_stake(self) -> (r: bool)
        ensures
            r == withholds_stake_spec(self),
    {
        self == Mode::Attacker(false) || self == Mode::Victim(true)
    }

    /// Whether this is an attacker, armed or not.
    pub fn is_attacker(self) -> (r: bool)
        ensures
            r == (self is Attacker),
    {
        matches!(self, Mode::Attacker(_))
    }

    /// The mode a node starts in, by its (lower-case) name: `auditor`,
    /// `attacker`, `victim` or `normal`; attackers and victims start
    /// unarmed.
    pub fn from_name(name: &str) -> (r: Option<Mode>)
        ensures
            r == if name@ == "auditor"@ {
                Some(Mode::Auditor)
            } else if name@ == "attacker"@ {
                Some(Mode::Attacker(false))
            } else if name@ == "victim"@ {
                Some(Mode::Victim(false))
            } else if name@ == "normal"@ {
                Some(Mode::Normal)
            } else {
                None::<Mode>
            },
    {
        let name = name.to_owned();
        if name == "auditor".to_owned() {
            Some(Mode::Auditor)
        } else if name == "attacker".to_owned() {
            Some(Mode::Attacker(false))
        } else if name == "victim".to_owned() {
            Some(Mode::Victim(false))
        } else if name == "normal".to_owned() {
            Some(Mode::Normal)
        } else {
            None
        }
    }
}

/// Holder of a node's mode.
#[derive(Debug)]
pub struct ModeActor {
    pub mode: Mode,
}

impl ModeActor {
    /// Starts in `mode`.
    pub fn new(mode: Mode) -> (r: ModeActor)
        ensures
            r.mode == mode,
    {
        ModeActor { mode }
    }

    /// The current mode.
    pub fn get_mode(&self) -> (r: Mode)
        ensures
            r == self.mode,
    {
        self.mode
    }

    /// Sets the mode.
    pub fn set_mode(&mut self, mode: Mode)
        ensures
            final(self).mode == mode,
    {
        self.mode = mode;
    }

    /// Flips the attack switch.
    pub fn toggle(&mut self)
        ensures
            final(self).mode == toggled_spec(old(self).mode),
    {
        self.mode = self.mode.toggled();
    }
}

/// The state of a node. The tampered chain and asset ledger are the
/// attacker's private fork; they mirror nothing until the attacker forks.
#[derive(Debug)]
pub struct Config {
    pub mode: ModeActor,
    pub peer_id: String,
    pub public_ip: String,
    pub auditor_node: String,
    pub asset_ledger: AssetLedger,
    pub chain: Chain,
    pub tampered_chain: Chain,
    pub tampered_assets: AssetLedger,
    pub network: Network,
    /// number of peers the network is bootstrapped with
    pub init_network_size: usize,
}

/// A node after admitting `peer`: registered unless its id is known, and
/// given its share of the unowned assets.
pub open spec fn enrolled(c: ConfigView, peer: PeerView) -> ConfigView {
    let assets = c.asset_ledger.assets;
    ConfigView {
        network: if no_id(c.network, peer.id) {
            c.network.push(peer)
        } else {
            c.network
        },
        asset_ledger: LedgerView {
            assets: assign_unowned(assets, assets.len() / c.init_network_size, peer.id, owner_count(assets) + 1),
            ..c.asset_ledger
        },
        ..c
    }
}

/// The first asset of `s` with hash `h`.
pub open spec fn lookup_asset(s: Seq<AssetView>, h: Seq<char>) -> Option<AssetView> {
    match hash_position(s, h) {
        Some(i) => Some(s[i]),
        None => None,
    }
}

/// The assets that `hashes` name (first asset of each hash) and that
/// `peer` does own in `s`, in declared order.
pub open spec fn authenticate(peer: Seq<char>, hashes: Seq<Seq<char>>, s: Seq<AssetView>) -> Seq<AssetView>
    decreases hashes.len(),
{
    if hashes.len() == 0 {
        Seq::empty()
    } else {
        let rest = authenticate(peer, hashes.drop_last(), s);
        match lookup_asset(s, hashes.last()) {
            Some(a) => if a.owner == Some(peer) {
                rest.push(a)
            } else {
                rest
            },
            None => rest,
        }
    }
}

/// The authenticated assets of every declared stake, in order.
pub open spec fn authenticate_all(stakes: Seq<(Seq<char>, StakeView)>, s: Seq<AssetView>) -> Seq<AssetView>
    decreases stakes.len(),
{
    if stakes.len() == 0 {
        Seq::empty()
    } else {
        authenticate_all(stakes.drop_last(), s) + authenticate(stakes.last().0, stakes.last().1.stake, s)
    }
}

/// The views of declared stakes, each with its peer's id.
pub open spec fn stake_pairs(v: Seq<(String, Stake)>) -> Seq<(Seq<char>, StakeView)> {
    v.map_values(|p: (String, Stake)| (p.0@, p.1@))
}

/// `s` with each asset named in `hashes` (first asset of each hash)
/// marked as last used in transaction `tx`.
pub open spec fn mark_used(s: Seq<AssetView>, hashes: Seq<Seq<char>>, tx: nat) -> Seq<AssetView>
    decreases hashes.len(),
{
    if hashes.len() == 0 {
        s
    } else {
        with_last_transaction(mark_used(s, hashes.drop_last(), tx), hashes.last(), tx)
    }
}

/// The peers of `s` other than `me`, in order.
pub open spec fn others(s: Seq<PeerView>, me: Seq<char>) -> Seq<PeerView>
    decreases s.len(),
{
    if s.len() == 0 {
        Seq::empty()
    } else if s.last().id != me {
        others(s.drop_last(), me).push(s.last())
    } else {
        others(s.drop_last(), me)
    }
}

/// The sender and receiver that an armed victim accepts blocks from.
pub open spec fn attack_pair(tx: Seq<char>, rx: Seq<char>) -> bool {
    tx == "attacker.batsense.net"@ && rx == "victim.batsense.net"@
}

/// `p` owns the first asset of `s` with hash `h`.
pub open spec fn owns_first(s: Seq<AssetView>, p: Seq<char>, h: Seq<char>) -> bool {
    match hash_position(s, h) {
        Some(i) => s[i].owner == Some(p),
        None => false,
    }
}

impl Config {
    /// Well-formed: both chains hold at least their genesis block.
    pub open spec fn wf(&self) -> bool {
        self.chain.wf() && self.tampered_chain.wf()
    }

    /// A node starting in `mode`: the auditor mints the asset catalog, any
    /// other node starts with an empty asset ledger; two fresh chains; no
    /// known peers.
    pub fn new(peer_id: &str, public_ip: &str, auditor_node: &str, init_network_size: usize, mode: Mode) -> (r: Config)
        ensures
            r.wf(),
            r.mode.mode == mode,
            r.peer_id@ == peer_id@,
            r.public_ip@ == public_ip@,
            r.auditor_node@ == auditor_node@,
            r.init_network_size == init_network_size,
            mode == Mode::Auditor ==> fresh_catalog(r.asset_ledger@, peer_id@),
            mode != Mode::Auditor ==> r.asset_ledger@.assets.len() == 0 && r.asset_ledger@.stakes.len() == 0,
            r.asset_ledger@.peer_id == peer_id@,
            r.chain@.len() == 1,
            r.chain@[0].is_genesis(),
            r.chain.last_serial() == 0,
            r.tampered_chain@.len() == 1,
            r.tampered_chain@[0].is_genesis(),
            r.tampered_assets@.assets.len() == 0,
            r.network@.len() == 0,
    {
        let asset_ledger = if mode == Mode::Auditor {
            AssetLedger::generate(peer_id)
        } else {
            AssetLedger::new(peer_id)
        };
        Config {
            mode: ModeActor::new(mode),
            peer_id: peer_id.to_owned(),
            public_ip: public_ip.to_owned(),
            auditor_node: auditor_node.to_owned(),
            asset_ledger,
            chain: Chain::new("Legit"),
            tampered_chain: Chain::new("Tampered"),
            tampered_assets: AssetLedger::new("tampered_asset_addr"),
            network: Network::default(),
            init_network_size,
        }
    }

    /// The asset ledger in use: the tampered one while an armed attacker.
    pub fn get_asset_ledger(&self) -> (r: &AssetLedger)
        ensures
            self.mode.mode == Mode::Attacker(true) ==> r == &self.tampered_assets,
            self.mode.mode != Mode::Attacker(true) ==> r == &self.asset_ledger,
    {
        if self.mode.mode == Mode::Attacker(true) {
            &self.tampered_assets
        } else {
            &self.asset_ledger
        }
    }

    /// The chain in use: the tampered one while an armed attacker.
    pub fn get_chain_addr(&self) -> (r: &Chain)
        ensures
            self.mode.mode == Mode::Attacker(true) ==> r == &self.tampered_chain,
            self.mode.mode != Mode::Attacker(true) ==> r == &self.chain,
    {
        if self.mode.mode == Mode::Attacker(true) {
            &self.tampered_chain
        } else {
            &self.chain
        }
    }

    /// Answers a peer's request for this node's stake for block
    /// `block_id`: empty while withholding (unarmed attacker, armed victim),
    /// else the asset ledger's stake for that block (recording the default
    /// stake if none was recorded).
    pub fn serve_stake(&mut self, block_id: usize) -> (r: Stake)
        ensures
            (r@, final(self).asset_ledger@) == served(old(self).mode.mode, old(self).asset_ledger@, block_id as nat),
            final(self)@ == (ConfigView { asset_ledger: final(self).asset_ledger@, ..old(self)@ }),
            final(self).mode == old(self).mode,
    {
        if self.mode.mode.withholds_stake() {
            let r = Stake { block_id, stake: Vec::new() };
            assert(r@.stake =~= Seq::empty());
            r
        } else {
            self.asset_ledger.get_stake(block_id)
        }
    }

    /// A copy of this node that works on the tampered chain and asset
    /// ledger as if they were the legitimate ones.
    pub fn fork_chain(&self) -> (r: Config)
        ensures
            r.wf() == self.tampered_chain.wf(),
            r@ == (ConfigView {
                asset_ledger: self.tampered_assets@,
                chain: self.tampered_chain@,
                ..self@
            }),
            r.mode == self.mode,
    {
        Config {
            mode: ModeActor::new(self.mode.mode),
            peer_id: self.peer_id.clone(),
            public_ip: self.public_ip.clone(),
            auditor_node: self.auditor_node.clone(),
            asset_ledger: self.tampered_assets.clone(),
            chain: self.tampered_chain.clone(),
            tampered_chain: self.tampered_chain.clone(),
            tampered_assets: self.tampered_assets.clone(),
            network: self.network.clone(),
            init_network_size: self.init_network_size,
        }
    }

    /// Flips the attack switch.
    pub fn toggle_attack(&mut self)
        ensures
            final(self).mode.mode == toggled_spec(old(self).mode.mode),
            final(self)@ == old(self)@,
    {
        self.mode.toggle();
    }

    /// Enrols `peer` while the network is below its initial size: registers
    /// it (unless its id is known) and gives it its share of the unowned
    /// assets. Returns whether the network was still open.
    pub fn enroll_peer(&mut self, peer: Peer) -> (r: bool)
        ensures
            r == (old(self).network@.len() < old(self).init_network_size),
            r ==> final(self)@ == enrolled(old(self)@, peer@),
            !r ==> final(self)@ == old(self)@,
            final(self).mode == old(self).mode,
            final(self).init_network_size == old(self).init_network_size,
    {
        if self.network.get_current_size() < self.init_network_size {
            let id = peer.id.clone();
            self.network.add_peer(peer);
            self.asset_ledger.init_network(self.init_network_size, id.as_str());
            true
        } else {
            false
        }
    }

    /// Whether `owner` owns the asset with hash `asset_id` (the first such
    /// asset) in this node's asset ledger; `false` for an unknown asset.
    pub fn check_ownership(&self, owner: &str, asset_id: &str) -> (r: bool)
        ensures
            r == owns_first(self.asset_ledger@.assets, owner@, asset_id@),
    {
        match self.asset_ledger.get_asset_info(asset_id) {
            Some(asset) => {
                proof {
                    let i = choose|i: int| crate::asset::first_with_hash(self.asset_ledger@.assets, asset_id@, i)
                        && asset@ == self.asset_ledger@.assets[i];
                    lemma_hash_position(self.asset_ledger@.assets, asset_id@, i);
                }
                match asset.get_owner() {
                    Some(o) => *o == owner.to_owned(),
                    None => false,
                }
            },
            None => false,
        }
    }

    /// Serial number the next block of this node's chain will get.
    pub fn get_next_block_id(&self) -> (r: usize)
        requires
            self.wf(),
            self.chain.last_serial() < usize::MAX,
            self.init_network_size < usize::MAX,
        ensures
            r == next_serial(self.chain.last_serial(), self.init_network_size as nat),
    {
        let last = match self.chain.get_last_block().get_serial_no() {
            Some(n) => n,
            None => 0,
        };
        if last == 0 {
            self.init_network_size + 1
        } else {
            last + 1
        }
    }

    /// Applies an accepted block to this node's state: the block's asset
    /// goes to its receiver, that asset and the validator's staked assets
    /// are marked as used by the next block, and the block is appended to
    /// the chain. The asset ledger is changed even when the chain then
    /// refuses the block.
    pub fn apply_block(&mut self, block: &Block, validator_stake: &Stake) -> (r: Result<usize, ChainError>)
        requires
            old(self).wf(),
            old(self).chain.last_serial() < usize::MAX,
            old(self).init_network_size < usize::MAX,
            block@.rx is Some,
            block@.asset_id is Some,
        ensures
            final(self).wf(),
            ({
                let n = next_serial(old(self).chain.last_serial(), old(self).init_network_size as nat);
                let h = block@.asset_id->Some_0;
                let moved = with_owner(old(self).asset_ledger@.assets, h, block@.rx->Some_0);
                let used = with_last_transaction(moved, h, n);
                &&& final(self).asset_ledger@ == (LedgerView {
                    assets: mark_used(used, validator_stake@.stake, n),
                    ..old(self).asset_ledger@
                })
                &&& r is Ok <==> !block@.is_genesis() && block@.prev == Some(old(self).chain@.last().hash)
                &&& r matches Ok(k) ==> k == n && final(self).chain@ == old(self).chain@.push(
                    (BlockView { serial_no: Some(n), ..block@ }),
                )
                &&& r is Err ==> final(self).chain@ == old(self).chain@
                &&& block@.is_genesis() ==> r == Err::<usize, ChainError>(ChainError::GenesisBlockAdditionError)
                &&& !block@.is_genesis() && r is Err ==> r == Err::<usize, ChainError>(
                    ChainError::InconsistentBlockAddition,
                )
            }),
            final(self)@ == (ConfigView {
                asset_ledger: final(self).asset_ledger@,
                chain: final(self).chain@,
                ..old(self)@
            }),
            final(self).mode == old(self).mode,
    {
        let next_block_id = self.get_next_block_id();
        let asset_id = match block.get_asset_id() {
            Some(a) => a.clone(),
            None => String::new(),
        };
        let rx = match block.get_rx() {
            Some(x) => x.clone(),
            None => String::new(),
        };
        self.asset_ledger.change_asset_owner(asset_id.as_str(), rx.as_str());
        self.asset_ledger.set_last_transaction(asset_id.as_str(), next_block_id);
        let ghost used = self.asset_ledger@.assets;
        let hashes = &validator_stake.stake;
        let ghost hs = validator_stake@.stake;
        let mut j: usize = 0;
        while j < hashes.len()
            invariant
                hs == crate::asset::text_views(hashes@),
                j <= hashes@.len(),
                self.asset_ledger@ == (LedgerView {
                    assets: mark_used(used, hs.take(j as int), next_block_id as nat),
                    ..old(self).asset_ledger@
                }),
                self.chain == old(self).chain,
                self.wf(),
                self.mode == old(self).mode,
                self@ == (ConfigView { asset_ledger: self.asset_ledger@, ..old(self)@ }),
            decreases hashes@.len() - j,
        {
            assert(hs.take(j + 1).drop_last() =~= hs.take(j as int));
            assert(hs.take(j + 1).last() == hashes@[j as int]@);
            self.asset_ledger.set_last_transaction(hashes[j].as_str(), next_block_id);
            j = j + 1;
        }
        assert(hs.take(hashes@.len() as int) =~= hs);
        self.chain.add_block(block.clone(), self.init_network_size)
    }

    /// The peers a block made here is sent to: every known peer but this
    /// node itself.
    pub fn broadcast_targets(&self) -> (r: Vec<Peer>)
        ensures
            peer_views(r@) == others(self.network@, self.peer_id@),
    {
        let peers = self.network.dump_peer();
        let ghost all = self.network@;
        let mut r: Vec<Peer> = Vec::new();
        let mut i: usize = 0;
        while i < peers.len()
            invariant
                peer_views(peers@) == all,
                i <= all.len(),
                peer_views(r@) == others(all.take(i as int), self.peer_id@),
            decreases all.len() - i,
        {
            assert(all.take(i + 1).drop_last() =~= all.take(i as int));
            assert(all.take(i + 1).last() == peers@[i as int]@);
            if peers[i].id != self.peer_id {
                let ghost before = peer_views(r@);
                r.push(peers[i].clone());
                assert(peer_views(r@) =~= before.push(peers@[i as int]@));
            }
            i = i + 1;
        }
        assert(all.take(all.len() as int) =~= all);
        r
    }

    /// Whether a block sent by a peer is taken: its sender must own the
    /// asset it moves, and an armed victim takes only blocks from the
    /// attacker to itself.
    pub fn accepts_block(&self, block: &Block) -> (r: bool)
        ensures
            r == (block@.tx is Some && block@.asset_id is Some && owns_first(
                self.asset_ledger@.assets,
                block@.tx->Some_0,
                block@.asset_id->Some_0,
            ) && (self.mode.mode == Mode::Victim(true) ==> block@.rx is Some && attack_pair(
                block@.tx->Some_0,
                block@.rx->Some_0,
            ))),
    {
        match (block.get_tx(), block.get_asset_id()) {
            (Some(tx), Some(asset_id)) => {
                if !self.check_ownership(tx.as_str(), asset_id.as_str()) {
                    return false;
                }
                if self.mode.mode == Mode::Victim(true) {
                    match block.get_rx() {
                        Some(rx) => *tx == "attacker.batsense.net".to_owned() && *rx
                            == "victim.batsense.net".to_owned(),
                        None => false,
                    }
                } else {
                    true
                }
            },
            _ => false,
        }
    }

    /// The block this node makes as validator of `payload`: from the
    /// seller to the buyer, moving the asset, on top of the chain in use.
    /// `None` when the seller, the buyer, the asset or the last hash is
    /// empty.
    pub fn make_block(&self, payload: &ValidateTx) -> (r: Option<Block>)
        requires
            self.wf(),
        ensures
            ({
                let last = self.chain_in_use()@.last();
                let ok = payload.seller_peer_id@.len() > 0 && payload.tx.buyer_peer_id@.len() > 0
                    && payload.tx.asset_id@.len() > 0 && last.hash.len() > 0;
                &&& r is Some <==> ok
                &&& r matches Some(b) ==> b@.prev == Some(last.hash) && b@.tx == Some(payload.seller_peer_id@)
                    && b@.rx == Some(payload.tx.buyer_peer_id@) && b@.asset_id == Some(payload.tx.asset_id@)
                    && b@.validator == Some(self.peer_id@) && b@.serial_no is None && b@.hash == b@.hash_spec()
                    && !b@.is_genesis()
            }),
    {
        let chain = self.get_chain_addr();
        let last = chain.get_last_block();
        if payload.seller_peer_id.as_str().is_empty() || payload.tx.buyer_peer_id.as_str().is_empty()
            || payload.tx.asset_id.as_str().is_empty() || last.get_hash().is_empty() {
            return None;
        }
        let mut builder = BlockBuilder::default();
        builder.set_tx(payload.seller_peer_id.as_str()).set_rx(payload.tx.buyer_peer_id.as_str()).set_asset_hash(
            payload.tx.asset_id.as_str(),
        ).set_validator(self.peer_id.as_str()).set_prev(last);
        Some(builder.build())
    }

    /// The chain in use (see [`Config::get_chain_addr`]).
    pub open spec fn chain_in_use(&self) -> Chain {
        if self.mode.mode == Mode::Attacker(true) {
            self.tampered_chain
        } else {
            self.chain
        }
    }

    /// An attacker's fork: the tampered chain and asset ledger become
    /// copies of the legitimate ones. Refused to any other node.
    pub fn fork(&mut self) -> (r: Result<(), PeerError>)
        requires
            old(self).wf(),
        ensures
            final(self).wf(),
            final(self).mode == old(self).mode,
            !(old(self).mode.mode is Attacker) ==> r == Err::<(), PeerError>(PeerError::NotAttacker) && final(self)@
                == old(self)@,
            old(self).mode.mode is Attacker && crate::chain::links_ok(old(self).chain@) ==> r is Ok && final(self)@
                == (ConfigView {
                tampered_chain: old(self).chain@,
                tampered_assets: LedgerView { assets: old(self).asset_ledger@.assets, ..old(self).tampered_assets@ },
                ..old(self)@
            }),
            old(self).mode.mode is Attacker && !crate::chain::links_ok(old(self).chain@) ==> r == Err::<(), PeerError>(
                PeerError::ChainError(ChainError::InvalidBlockChain),
            ) && final(self)@ == old(self)@,
    {
        if !self.mode.mode.is_attacker() {
            return Err(PeerError::NotAttacker);
        }
        match self.tampered_chain.replace_chain(self.chain.dump()) {
            Ok(()) => {},
            Err(e) => {
                return Err(PeerError::ChainError(e));
            },
        }
        self.tampered_assets.replace_ledger(self.asset_ledger.dump());
        Ok(())
    }

    /// A snapshot of this node; the tampered ledgers are included for an
    /// attacker only.
    pub fn status(&self) -> (r: Status)
        ensures
            r.peer_id@ == self.peer_id@,
            asset_views(r.asset@) == self.asset_ledger@.assets,
            block_views(r.chain@) == self.chain@,
            self.mode.mode is Attacker ==> (r.tampered_assets matches Some(t) && asset_views(t@)
                == self.tampered_assets@.assets),
            self.mode.mode is Attacker ==> (r.tampered_chain matches Some(t) && block_views(t@)
                == self.tampered_chain@),
            !(self.mode.mode is Attacker) ==> r.tampered_assets is None && r.tampered_chain is None,
    {
        let attacker = self.mode.mode.is_attacker();
        Status {
            peer_id: self.peer_id.clone(),
            asset: self.asset_ledger.dump(),
            tampered_assets: if attacker {
                Some(self.tampered_assets.dump())
            } else {
                None
            },
            chain: self.chain.dump(),
            tampered_chain: if attacker {
                Some(self.tampered_chain.dump())
            } else {
                None
            },
        }
    }

    /// Takes over a peer list learnt from another node when it knows more
    /// peers than this one; returns whether it did.
    pub fn adopt_peers(&mut self, peers: Vec<Peer>) -> (r: bool)
        ensures
            r == (old(self).network@.len() < peers@.len()),
            r ==> final(self)@ == (ConfigView { network: peer_views(peers@), ..old(self)@ }),
            !r ==> final(self)@ == old(self)@,
            final(self).mode == old(self).mode,
    {
        if self.network.get_current_size() < peers.len() {
            self.network.replace_peer_ledger(peers);
            true
        } else {
            false
        }
    }

    /// Elects the validator from the stakes the peers declared: keeps the
    /// declared assets that this node's asset ledger shows as owned by the
    /// declaring peer, elects by coin-age over those, and resolves the
    /// winner in the peer registry.
    pub fn from_stake_to_validator(&self, all_stakes: &Vec<(String, Stake)>) -> (r: Result<Peer, PeerError>)
        ensures
            ({
                let t = authenticate_all(stake_pairs(all_stakes@), self.asset_ledger@.assets);
                &&& r == Err::<Peer, PeerError>(PeerError::NoValidator) <==> none_owned(t)
                &&& r matches Ok(p) ==> elected(t, p@.id) && exists|i: int|
                    first_with_id(self.network@, p@.id, i) && p@ == self.network@[i]
                &&& r == Err::<Peer, PeerError>(PeerError::UnknownValidator) <==> exists|w: Seq<char>|
                    elected(t, w) && no_id(self.network@, w)
                &&& r is Ok || r == Err::<Peer, PeerError>(PeerError::NoValidator) || r == Err::<Peer, PeerError>(
                    PeerError::UnknownValidator,
                )
            }),
    {
        let ghost s = self.asset_ledger@.assets;
        let ghost pairs = stake_pairs(all_stakes@);
        let mut auth: Vec<Asset> = Vec::new();
        let mut i: usize = 0;
        while i < all_stakes.len()
            invariant
                s == self.asset_ledger@.assets,
                pairs == stake_pairs(all_stakes@),
                i <= all_stakes@.len(),
                asset_views(auth@) == authenticate_all(pairs.take(i as int), s),
            decreases all_stakes@.len() - i,
        {
            let peer_id = &all_stakes[i].0;
            let hashes = &all_stakes[i].1.stake;
            let ghost base = asset_views(auth@);
            let ghost hs = pairs[i as int].1.stake;
            assert(hs == crate::asset::text_views(hashes@));
            let mut j: usize = 0;
            assert(hs.take(0) =~= Seq::<Seq<char>>::empty());
            assert(base + Seq::<AssetView>::empty() =~= base);
            while j < hashes.len()
                invariant
                    s == self.asset_ledger@.assets,
                    hs == crate::asset::text_views(hashes@),
                    j <= hashes@.len(),
                    asset_views(auth@) == base + authenticate(peer_id@, hs.take(j as int), s),
                decreases hashes@.len() - j,
            {
                assert(hs.take(j + 1).drop_last() =~= hs.take(j as int));
                assert(hs.take(j + 1).last() == hashes@[j as int]@);
                let ghost before = asset_views(auth@);
                match self.asset_ledger.get_asset_info(hashes[j].as_str()) {
                    Some(asset) => {
                        proof {
                            let k = choose|k: int| crate::asset::first_with_hash(s, hashes@[j as int]@, k)
                                && asset@ == s[k];
                            lemma_hash_position(s, hashes@[j as int]@, k);
                        }
                        let owned = match asset.get_owner() {
                            Some(o) => *o == *peer_id,
                            None => false,
                        };
                        if owned {
                            let ghost a = asset@;
                            auth.push(asset);
                            assert(asset_views(auth@) =~= before.push(a));
                            assert(base + authenticate(peer_id@, hs.take(j as int), s).push(a) =~= before.push(a));
                        }
                    },
                    None => {},
                }
                j = j + 1;
            }
            assert(hs.take(hashes@.len() as int) =~= hs);
            assert(pairs.take(i + 1).drop_last() =~= pairs.take(i as int));
            assert(pairs.take(i + 1).last() == pairs[i as int]);
            i = i + 1;
        }
        assert(pairs.take(all_stakes@.len() as int) =~= pairs);
        let mut stake_ledger = AssetLedger::new("stake_ledger");
        stake_ledger.assets = auth;
        let ghost t = asset_views(stake_ledger.assets@);
        match stake_ledger.choose_validator() {
            None => Err(PeerError::NoValidator),
            Some(id) => match self.network.get_peer(id.as_str()) {
                Some(p) => {
                    proof {
                        let i = choose|i: int| first_with_id(self.network@, id@, i) && p@ == self.network@[i];
                        assert(p@.id == id@);
                        assert forall|w: Seq<char>| elected(t, w) implies !no_id(self.network@, w) by {
                            lemma_elected_unique(t, w, id@);
                            assert(self.network@[i].id == w);
                        }
                    }
                    Ok(p)
                },
                None => {
                    proof {
                        assert(elected(t, id@) && no_id(self.network@, id@));
                    }
                    Err(PeerError::UnknownValidator)
                },
            },
        }
    }
}

/// What is observable of a node, but for its mode.
pub struct ConfigView {
    pub peer_id: Seq<char>,
    pub public_ip: Seq<char>,
    pub auditor_node: Seq<char>,
    pub asset_ledger: LedgerView,
    pub chain: Seq<BlockView>,
    pub tampered_chain: Seq<BlockView>,
    pub tampered_assets: LedgerView,
    pub network: Seq<PeerView>,
    pub init_network_size: nat,
}

impl View for Config {
    type V = ConfigView;

    open spec fn view(&self) -> ConfigView {
        ConfigView {
            peer_id: self.peer_id@,
            public_ip: self.public_ip@,
            auditor_node: self.auditor_node@,
            asset_ledger: self.asset_ledger@,
            chain: self.chain@,
            tampered_chain: self.tampered_chain@,
            tampered_assets: self.tampered_assets@,
            network: self.network@,
            init_network_size: self.init_network_size as nat,
        }
    }
}

} // verus!
