//! Assets, stakes, and the ledger that owns them and elects validators.

use vstd::prelude::*;
use crate::utils::{
    decimal, decimal_string, get_rand_string, hash_text, hasher, is_alphanumeric, lemma_text_lt_irreflexive,
    lemma_text_lt_total, lemma_text_lt_transitive, text_less, text_lt,
};

verus! {

/// The view of an optional text.
pub open spec fn opt_view(o: Option<String>) -> Option<Seq<char>> {
    match o {
        Some(s) => Some(s@),
        None => None,
    }
}

pub(crate) fn clone_opt(o: &Option<String>) -> (r: Option<String>)
    ensures
        opt_view(r) == opt_view(*o),
{
    match o {
        Some(s) => Some(s.clone()),
        None => None,
    }
}

pub(crate) fn opt_eq(a: &Option<String>, b: &Option<String>) -> (r: bool)
    ensures
        r == (opt_view(*a) == opt_view(*b)),
{
    match (a, b) {
        (Some(x), Some(y)) => *x == *y,
        (None, None) => true,
        _ => false,
    }
}

/// Something that can be owned and transferred on the ledger.
#[derive(Debug)]
pub struct Asset {
    name: String,
    value: usize,
    hash: String,
    owner: Option<String>,
    /// serial number of the block that last used this asset; 0: never used
    last_transaction: usize,
}

/// What is observable of an asset.
pub struct AssetView {
    pub name: Seq<char>,
    pub value: nat,
    pub hash: Seq<char>,
    pub owner: Option<Seq<char>>,
    pub last_transaction: nat,
}

impl View for Asset {
    type V = AssetView;

    closed spec fn view(&self) -> AssetView {
        AssetView {
            name: self.name@,
            value: self.value as nat,
            hash: self.hash@,
            owner: opt_view(self.owner),
            last_transaction: self.last_transaction as nat,
        }
    }
}

impl Clone for Asset {
    fn clone(&self) -> (r: Self)
        ensures
            r@ == self@,
    {
        Asset {
            name: self.name.clone(),
            value: self.value,
            hash: self.hash.clone(),
            owner: clone_opt(&self.owner),
            last_transaction: self.last_transaction,
        }
    }
}

impl PartialEq for Asset {
    fn eq(&self, other: &Asset) -> (r: bool)
        ensures
            r == (self@ == other@),
    {
        self.name == other.name && self.value == other.value && self.hash == other.hash
            && opt_eq(&self.owner, &other.owner) && self.last_transaction
            == other.last_transaction
    }
}

impl vstd::std_specs::cmp::PartialEqSpecImpl for Asset {
    open spec fn obeys_eq_spec() -> bool {
        true
    }

    open spec fn eq_spec(&self, other: &Asset) -> bool {
        self@ == other@
    }
}

/// The text an asset's identity hash is computed from.
pub open spec fn asset_seed(salt: Seq<char>, name: Seq<char>, value: nat) -> Seq<char> {
    salt + seq!['-'] + name + decimal(value)
}

impl Asset {
    /// Mints an asset: no owner, never used, identified by the hash of a
    /// random salt, its name and its value.
    pub fn new(name: &str, value: usize) -> (r: Asset)
        ensures
            r@.name == name@,
            r@.value == value,
            r@.owner is None,
            r@.last_transaction == 0,
            r@.hash.len() == 64,
            exists|salt: Seq<char>|
                salt.len() == 10 && (forall|i: int| 0 <= i < 10 ==> is_alphanumeric(#[trigger] salt[i]))
                    && r@.hash == hash_text(asset_seed(salt, name@, value as nat)),
    {
        let mut seed = get_rand_string(10);
        let ghost salt = seed@;
        seed.append("-");
        seed.append(name);
        let digits = decimal_string(value);
        seed.append(digits.as_str());
        proof {
            reveal_strlit("-");
            assert(seed@ =~= asset_seed(salt, name@, value as nat));
        }
        let hash = hasher(seed.as_str());
        Asset { name: name.to_owned(), value, owner: None, hash, last_transaction: 0 }
    }

    /// An asset with every field given, as received from another peer.
    pub fn from_parts(
        name: String,
        value: usize,
        hash: String,
        owner: Option<String>,
        last_transaction: usize,
    ) -> (r: Asset)
        ensures
            r@ == (AssetView {
                name: name@,
                value: value as nat,
                hash: hash@,
                owner: opt_view(owner),
                last_transaction: last_transaction as nat,
            }),
    {
        Asset { name, value, hash, owner, last_transaction }
    }

    /// A description of the asset: hash, name, value and owner.
    pub fn to_string(&self) -> (r: String)
        ensures
            r@ == "Hash:"@ + self@.hash + "\nName: "@ + self@.name + "\nValue: "@ + decimal(self@.value)
                + "\nOwner: "@ + match self@.owner {
                Some(o) => o,
                None => "Fresh out of mint"@,
            },
    {
        let mut text = String::from_str("Hash:");
        text.append(self.hash.as_str());
        text.append("\nName: ");
        text.append(self.name.as_str());
        text.append("\nValue: ");
        let value = decimal_string(self.value);
        text.append(value.as_str());
        text.append("\nOwner: ");
        match &self.owner {
            Some(o) => text.append(o.as_str()),
            None => text.append("Fresh out of mint"),
        }
        text
    }

    /// The asset's name.
    pub fn get_name(&self) -> (r: &str)
        ensures
            r@ == self@.name,
    {
        self.name.as_str()
    }

    /// The asset's identity hash.
    pub fn get_hash(&self) -> (r: &str)
        ensures
            r@ == self@.hash,
    {
        self.hash.as_str()
    }

    /// The asset's value.
    pub fn get_value(&self) -> (r: usize)
        ensures
            r == self@.value,
    {
        self.value
    }

    /// Gives the asset to `owner`.
    pub fn set_owner(&mut self, owner: &str)
        ensures
            final(self)@ == (AssetView { owner: Some(owner@), ..old(self)@ }),
    {
        self.owner = Some(owner.to_owned());
    }

    /// Records the block that last used the asset.
    pub fn set_last_transaction(&mut self, last_transaction: usize)
        ensures
            final(self)@ == (AssetView { last_transaction: last_transaction as nat, ..old(self)@ }),
    {
        self.last_transaction = last_transaction;
    }

    /// The asset's owner, if it has one.
    pub fn get_owner(&self) -> (r: &Option<String>)
        ensures
            opt_view(*r) == self@.owner,
    {
        &self.owner
    }

    /// Serial number of the block that last used the asset.
    pub fn get_last_transaction(&self) -> (r: usize)
        ensures
            r == self@.last_transaction,
    {
        self.last_transaction
    }
}


/// The views of a sequence of assets.
pub open spec fn asset_views(s: Seq<Asset>) -> Seq<AssetView> {
    s.map_values(|a: Asset| a@)
}

/// The views of a sequence of texts.
pub open spec fn text_views(s: Seq<String>) -> Seq<Seq<char>> {
    s.map_values(|t: String| t@)
}

/// A peer's declared collateral for producing the block numbered
/// `block_id`: hashes of assets.
#[derive(Debug)]
pub struct Stake {
    pub block_id: usize,
    pub stake: Vec<String>,
}

/// What is observable of a stake.
pub struct StakeView {
    pub block_id: nat,
    pub stake: Seq<Seq<char>>,
}

impl View for Stake {
    type V = StakeView;

    open spec fn view(&self) -> StakeView {
        StakeView { block_id: self.block_id as nat, stake: text_views(self.stake@) }
    }
}

impl Clone for Stake {
    fn clone(&self) -> (r: Self)
        ensures
            r@ == self@,
    {
        let stake = self.stake.clone();
        proof {
            assert(text_views(stake@) =~= text_views(self.stake@));
        }
        Stake { block_id: self.block_id, stake }
    }
}

impl Default for Stake {
    fn default() -> (r: Self)
        ensures
            r@.block_id == 0,
            r@.stake.len() == 0,
    {
        let r = Stake { block_id: 0, stake: Vec::new() };
        assert(r@.stake =~= Seq::empty());
        r
    }
}

/// The views of a sequence of stakes.
pub open spec fn stake_views(s: Seq<Stake>) -> Seq<StakeView> {
    s.map_values(|t: Stake| t@)
}

/// The asset ledger of one node: every asset, every stake computed or
/// declared so far, and the node's own peer id.
#[derive(Debug)]
pub struct AssetLedger {
    pub assets: Vec<Asset>,
    pub stake: Vec<Stake>,
    pub peer_id: String,
}

impl Clone for AssetLedger {
    fn clone(&self) -> (r: Self)
        ensures
            r@ == self@,
    {
        let assets = self.assets.clone();
        let stake = self.stake.clone();
        proof {
            assert(asset_views(assets@) =~= asset_views(self.assets@));
            assert(stake_views(stake@) =~= stake_views(self.stake@));
        }
        AssetLedger { assets, stake, peer_id: self.peer_id.clone() }
    }
}

impl Default for AssetLedger {
    fn default() -> (r: Self)
        ensures
            r@.assets.len() == 0,
            r@.stakes.len() == 0,
            r@.peer_id.len() == 0,
    {
        let r = AssetLedger { assets: Vec::new(), stake: Vec::new(), peer_id: String::new() };
        proof {
            assert(asset_views(r.assets@) =~= Seq::empty());
            assert(stake_views(r.stake@) =~= Seq::empty());
        }
        r
    }
}

/// What is observable of an asset ledger.
pub struct LedgerView {
    pub assets: Seq<AssetView>,
    pub stakes: Seq<StakeView>,
    pub peer_id: Seq<char>,
}

impl View for AssetLedger {
    type V = LedgerView;

    open spec fn view(&self) -> LedgerView {
        LedgerView {
            assets: asset_views(self.assets@),
            stakes: stake_views(self.stake@),
            peer_id: self.peer_id@,
        }
    }
}

/// The assets owned by `peer`, in ledger order.
pub open spec fn peer_assets(s: Seq<AssetView>, peer: Seq<char>) -> Seq<AssetView>
    decreases s.len(),
{
    if s.len() == 0 {
        Seq::empty()
    } else if s.last().owner == Some(peer) {
        peer_assets(s.drop_last(), peer).push(s.last())
    } else {
        peer_assets(s.drop_last(), peer)
    }
}

/// Whether `owner` owns some asset of `s`.
pub open spec fn owner_seen(s: Seq<AssetView>, owner: Seq<char>) -> bool {
    exists|j: int| 0 <= j < s.len() && #[trigger] s[j].owner == Some(owner)
}

/// The number of distinct owners of the assets of `s`.
pub open spec fn owner_count(s: Seq<AssetView>) -> nat
    decreases s.len(),
{
    if s.len() == 0 {
        0
    } else {
        owner_count(s.drop_last()) + match s.last().owner {
            Some(o) => if owner_seen(s.drop_last(), o) {
                0nat
            } else {
                1nat
            },
            None => 0nat,
        }
    }
}

/// The number of assets of `s` that have an owner.
pub open spec fn owned_count(s: Seq<AssetView>) -> nat
    decreases s.len(),
{
    if s.len() == 0 {
        0
    } else {
        owned_count(s.drop_last()) + if s.last().owner is Some {
            1nat
        } else {
            0nat
        }
    }
}

/// `i` is the first position of `s` whose asset has hash `h`.
pub open spec fn first_with_hash(s: Seq<AssetView>, h: Seq<char>, i: int) -> bool {
    &&& 0 <= i < s.len()
    &&& s[i].hash == h
    &&& forall|j: int| 0 <= j < i ==> s[j].hash != h
}

/// No asset of `s` has hash `h`.
pub open spec fn no_hash(s: Seq<AssetView>, h: Seq<char>) -> bool {
    forall|j: int| 0 <= j < s.len() ==> s[j].hash != h
}

/// Position of the first asset of `s` with hash `h`, if there is one.
pub open spec fn hash_position(s: Seq<AssetView>, h: Seq<char>) -> Option<int> {
    if no_hash(s, h) {
        None
    } else {
        Some(choose|i: int| first_with_hash(s, h, i))
    }
}

/// `s` with the first asset of hash `h`, if any, given to `owner`.
pub open spec fn with_owner(s: Seq<AssetView>, h: Seq<char>, owner: Seq<char>) -> Seq<AssetView> {
    match hash_position(s, h) {
        Some(i) => s.update(i, AssetView { owner: Some(owner), ..s[i] }),
        None => s,
    }
}

/// `s` with the first asset of hash `h`, if any, marked as last used in
/// transaction `tx`.
pub open spec fn with_last_transaction(s: Seq<AssetView>, h: Seq<char>, tx: nat) -> Seq<AssetView> {
    match hash_position(s, h) {
        Some(i) => s.update(i, AssetView { last_transaction: tx, ..s[i] }),
        None => s,
    }
}

/// The first position with a given hash is unique.
pub proof fn lemma_hash_position(s: Seq<AssetView>, h: Seq<char>, i: int)
    requires
        first_with_hash(s, h, i),
    ensures
        hash_position(s, h) == Some(i),
{
    let k = choose|k: int| first_with_hash(s, h, k);
    assert(first_with_hash(s, h, k));
    if k < i {
        assert(s[k].hash != h);
    }
    if i < k {
        assert(s[i].hash != h);
    }
}

proof fn lemma_owner_count_le(s: Seq<AssetView>)
    ensures
        owner_count(s) <= owned_count(s),
        owned_count(s) <= s.len(),
        owned_count(s) == s.len() ==> forall|j: int| 0 <= j < s.len() ==> (#[trigger] s[j]).owner is Some,
    decreases s.len(),
{
    if s.len() > 0 {
        lemma_owner_count_le(s.drop_last());
        assert forall|j: int| 0 <= j < s.len() && owned_count(s) == s.len() implies (#[trigger] s[j]).owner is Some by {
            if j < s.len() - 1 {
                assert(s.drop_last()[j] == s[j]);
            }
        }
    }
}

/// The latest `last_transaction` of the assets of `s`; 0 for none.
pub open spec fn latest_transaction(s: Seq<AssetView>) -> nat
    decreases s.len(),
{
    if s.len() == 0 {
        0
    } else if s.last().last_transaction > latest_transaction(s.drop_last()) {
        s.last().last_transaction
    } else {
        latest_transaction(s.drop_last())
    }
}

/// The coin-age held by `owner` in `s`, measured against transaction
/// `latest`: the sum of `latest - last_transaction` over its assets.
pub open spec fn coinage(s: Seq<AssetView>, owner: Seq<char>, latest: int) -> int
    decreases s.len(),
{
    if s.len() == 0 {
        0
    } else {
        coinage(s.drop_last(), owner, latest) + if s.last().owner == Some(owner) {
            latest - s.last().last_transaction
        } else {
            0
        }
    }
}

/// The coin-age of `owner` in `s`, against the latest transaction of `s`.
pub open spec fn coinage_of(s: Seq<AssetView>, owner: Seq<char>) -> int {
    coinage(s, owner, latest_transaction(s) as int)
}

/// `o` ranks below `w` in the election: less coin-age, or as much and a
/// smaller id.
pub open spec fn ranks_below(s: Seq<AssetView>, o: Seq<char>, w: Seq<char>) -> bool {
    coinage_of(s, o) < coinage_of(s, w) || (coinage_of(s, o) == coinage_of(s, w) && text_lt(o, w))
}

/// `w` wins the election over `s`: it owns an asset and every other owner
/// ranks below it.
pub open spec fn elected(s: Seq<AssetView>, w: Seq<char>) -> bool {
    &&& owner_seen(s, w)
    &&& forall|o: Seq<char>| #[trigger] owner_seen(s, o) && o != w ==> ranks_below(s, o, w)
}

/// Nobody owns any asset of `s`.
pub open spec fn none_owned(s: Seq<AssetView>) -> bool {
    forall|j: int| 0 <= j < s.len() ==> (#[trigger] s[j]).owner is None
}

proof fn lemma_latest_bounds(s: Seq<AssetView>)
    ensures
        forall|j: int| 0 <= j < s.len() ==> (#[trigger] s[j]).last_transaction <= latest_transaction(s),
        s.len() > 0 ==> exists|j: int| 0 <= j < s.len() && (#[trigger] s[j]).last_transaction == latest_transaction(s),
    decreases s.len(),
{
    if s.len() > 0 {
        lemma_latest_bounds(s.drop_last());
        assert forall|j: int| 0 <= j < s.len() implies (#[trigger] s[j]).last_transaction <= latest_transaction(s) by {
            if j < s.len() - 1 {
                assert(s.drop_last()[j] == s[j]);
            }
        }
        if s.len() > 1 && s.last().last_transaction <= latest_transaction(s.drop_last()) {
            let j = choose|j: int| 0 <= j < s.drop_last().len() && (#[trigger] s.drop_last()[j]).last_transaction
                == latest_transaction(s.drop_last());
            assert(s[j] == s.drop_last()[j]);
        } else {
            assert(s[s.len() - 1].last_transaction == latest_transaction(s));
        }
    }
}

proof fn lemma_coinage_bounds(s: Seq<AssetView>, owner: Seq<char>, latest: int)
    requires
        latest <= usize::MAX,
        forall|j: int| 0 <= j < s.len() ==> (#[trigger] s[j]).last_transaction <= latest,
    ensures
        0 <= coinage(s, owner, latest) <= s.len() * usize::MAX,
    decreases s.len(),
{
    if s.len() > 0 {
        assert forall|j: int| 0 <= j < s.drop_last().len() implies (#[trigger] s.drop_last()[j]).last_transaction
            <= latest by {
            assert(s.drop_last()[j] == s[j]);
        }
        lemma_coinage_bounds(s.drop_last(), owner, latest);
        assert(s[s.len() - 1].last_transaction <= latest);
        assert((s.len() - 1) * usize::MAX + usize::MAX == s.len() * usize::MAX) by (nonlinear_arith);
    }
}

/// `s` after giving up to `quota` unowned assets, first ones first, to
/// `peer`, each marked as last used in transaction `tx`.
pub open spec fn assign_unowned(s: Seq<AssetView>, quota: nat, peer: Seq<char>, tx: nat) -> Seq<AssetView>
    decreases s.len(),
{
    if s.len() == 0 {
        s
    } else if quota > 0 && s[0].owner is None {
        seq![AssetView { owner: Some(peer), last_transaction: tx, ..s[0] }] + assign_unowned(
            s.drop_first(),
            (quota - 1) as nat,
            peer,
            tx,
        )
    } else {
        seq![s[0]] + assign_unowned(s.drop_first(), quota, peer, tx)
    }
}

/// The number of assets of `s` owned by `peer`.
pub open spec fn owned_by_count(s: Seq<AssetView>, peer: Seq<char>) -> nat
    decreases s.len(),
{
    if s.len() == 0 {
        0
    } else {
        (if s[0].owner == Some(peer) {
            1nat
        } else {
            0nat
        }) + owned_by_count(s.drop_first(), peer)
    }
}

/// Some asset of `s` with hash `h` is owned by `peer`.
pub open spec fn owns_hash(s: Seq<AssetView>, peer: Seq<char>, h: Seq<char>) -> bool {
    exists|j: int| 0 <= j < s.len() && #[trigger] s[j].owner == Some(peer) && s[j].hash == h
}

/// The declared hashes that `peer` does own in `s`, in declared order.
pub open spec fn authenticated(declared: Seq<Seq<char>>, s: Seq<AssetView>, peer: Seq<char>) -> Seq<Seq<char>>
    decreases declared.len(),
{
    if declared.len() == 0 {
        Seq::empty()
    } else if owns_hash(s, peer, declared.last()) {
        authenticated(declared.drop_last(), s, peer).push(declared.last())
    } else {
        authenticated(declared.drop_last(), s, peer)
    }
}

/// The hashes of the assets that `peer` owns, in ledger order.
pub open spec fn default_stake_of(s: Seq<AssetView>, peer: Seq<char>) -> Seq<Seq<char>> {
    peer_assets(s, peer).map_values(|a: AssetView| a.hash)
}

/// The first stake of `stakes` for block `block_id`.
pub open spec fn find_stake(stakes: Seq<StakeView>, block_id: nat) -> Option<StakeView>
    decreases stakes.len(),
{
    if stakes.len() == 0 {
        None
    } else if stakes[0].block_id == block_id {
        Some(stakes[0])
    } else {
        find_stake(stakes.drop_first(), block_id)
    }
}

/// The stake that a ledger answers for `block_id`, and the ledger after:
/// the first stake recorded for that block, or else the default stake (all
/// assets of the ledger's own peer), which is then recorded.
pub open spec fn stake_answer(l: LedgerView, block_id: nat) -> (StakeView, LedgerView) {
    match find_stake(l.stakes, block_id) {
        Some(st) => (st, l),
        None => {
            let st = StakeView { block_id, stake: default_stake_of(l.assets, l.peer_id) };
            (st, LedgerView { stakes: l.stakes.push(st), ..l })
        },
    }
}

proof fn lemma_assign_all_owned(s: Seq<AssetView>, quota: nat, peer: Seq<char>, tx: nat)
    requires
        forall|j: int| 0 <= j < s.len() ==> (#[trigger] s[j]).owner is Some,
    ensures
        assign_unowned(s, quota, peer, tx) == s,
    decreases s.len(),
{
    if s.len() > 0 {
        assert forall|j: int| 0 <= j < s.drop_first().len() implies (#[trigger] s.drop_first()[j]).owner is Some by {
            assert(s.drop_first()[j] == s[j + 1]);
        }
        lemma_assign_all_owned(s.drop_first(), quota, peer, tx);
        assert(s =~= seq![s[0]] + s.drop_first());
    }
}

/// Giving unowned assets away keeps the number of assets and leaves every
/// asset that had an owner as it was.
pub proof fn lemma_assign_keeps_owned(s: Seq<AssetView>, quota: nat, peer: Seq<char>, tx: nat)
    ensures
        assign_unowned(s, quota, peer, tx).len() == s.len(),
        forall|j: int| 0 <= j < s.len() && (#[trigger] s[j]).owner is Some ==> assign_unowned(s, quota, peer, tx)[j] == s[j],
    decreases s.len(),
{
    if s.len() > 0 {
        let q2: nat = if quota > 0 && s[0].owner is None { (quota - 1) as nat } else { quota };
        lemma_assign_keeps_owned(s.drop_first(), q2, peer, tx);
        let r = assign_unowned(s, quota, peer, tx);
        assert forall|j: int| 0 <= j < s.len() && (#[trigger] s[j]).owner is Some implies r[j] == s[j] by {
            if j > 0 {
                assert(s.drop_first()[j - 1] == s[j]);
            }
        }
    }
}

proof fn lemma_assign_fresh_count(s: Seq<AssetView>, quota: nat, peer: Seq<char>, tx: nat)
    requires
        none_owned(s),
        quota <= s.len(),
    ensures
        owned_by_count(assign_unowned(s, quota, peer, tx), peer) == quota,
    decreases s.len(),
{
    if s.len() > 0 {
        assert(none_owned(s.drop_first())) by {
            assert forall|j: int| 0 <= j < s.drop_first().len() implies (#[trigger] s.drop_first()[j]).owner is None by {
                assert(s.drop_first()[j] == s[j + 1]);
            }
        }
        assert(s[0].owner is None);
        let q2: nat = if quota > 0 { (quota - 1) as nat } else { quota };
        lemma_assign_fresh_count(s.drop_first(), q2, peer, tx);
        let r = assign_unowned(s, quota, peer, tx);
        let rest = assign_unowned(s.drop_first(), q2, peer, tx);
        if quota > 0 {
            assert(r == seq![AssetView { owner: Some(peer), last_transaction: tx, ..s[0] }] + rest);
        } else {
            assert(r == seq![s[0]] + rest);
        }
        assert(r.drop_first() =~= rest);
    }
}

/// On a ledger where nobody owns anything, admitting `peer` into a network
/// of `network_size` peers gives it exactly `floor(A / network_size)` of the
/// `A` assets; assets that had an owner keep it.
pub proof fn lemma_init_network_fresh(s: Seq<AssetView>, network_size: nat, peer: Seq<char>, tx: nat)
    requires
        network_size > 0,
        none_owned(s),
    ensures
        owned_by_count(assign_unowned(s, s.len() / network_size, peer, tx), peer) == s.len() / network_size,
{
    assert(s.len() / network_size <= s.len()) by (nonlinear_arith)
        requires
            network_size > 0,
    ;
    lemma_assign_fresh_count(s, s.len() / network_size, peer, tx);
}

proof fn lemma_find_stake_push(s: Seq<StakeView>, x: StakeView, block_id: nat)
    requires
        find_stake(s, block_id) is None,
    ensures
        find_stake(s.push(x), block_id) == if x.block_id == block_id {
            Some(x)
        } else {
            None::<StakeView>
        },
    decreases s.len(),
{
    if s.len() > 0 {
        assert(s.push(x).drop_first() =~= s.drop_first().push(x));
        lemma_find_stake_push(s.drop_first(), x, block_id);
    } else {
        assert(s.push(x)[0] == x);
        assert(s.push(x).drop_first() =~= Seq::<StakeView>::empty());
        assert(find_stake(s.push(x).drop_first(), block_id) is None);
    }
}

/// Asking a ledger twice for the stake of the same block gives the same
/// stake and leaves the ledger as the first request left it.
pub proof fn lemma_get_stake_idempotent(l: LedgerView, block_id: nat)
    ensures
        stake_answer(stake_answer(l, block_id).1, block_id) == stake_answer(l, block_id),
{
    if find_stake(l.stakes, block_id) is None {
        let st = StakeView { block_id, stake: default_stake_of(l.assets, l.peer_id) };
        lemma_find_stake_push(l.stakes, st, block_id);
    }
}

/// When every owned asset belongs to `peer`, `peer` is the only possible
/// elected validator.
pub proof fn lemma_single_owner_elected(s: Seq<AssetView>, peer: Seq<char>, w: Seq<char>)
    requires
        forall|j: int| 0 <= j < s.len() ==> (#[trigger] s[j]).owner is None || s[j].owner == Some(peer),
        elected(s, w),
    ensures
        w == peer,
{
    let j = choose|j: int| 0 <= j < s.len() && #[trigger] s[j].owner == Some(w);
}

/// Names of the assets that [`AssetLedger::generate`] mints, in order.
pub open spec fn catalog() -> Seq<Seq<char>> {
    seq![
        "les Escaldes"@,
        "Andorra la Vella"@,
        "Umm al Qaywayn"@,
        "Ras al-Khaimah"@,
        "Khawr Fakkān"@,
        "Dubai"@,
        "Dibba Al-Fujairah"@,
        "Dibba Al-Hisn"@,
        "Sharjah"@,
        "Ar Ruways"@,
        "Al Fujayrah"@,
        "Al Ain"@,
        "Ajman"@,
        "Adh Dhayd"@,
        "Abu Dhabi"@,
    ]
}

/// `l` is a freshly generated ledger of `peer_id`: the catalog's assets,
/// each worth 100, none owned, none used, and no stakes.
pub open spec fn fresh_catalog(l: LedgerView, peer_id: Seq<char>) -> bool {
    &&& l.assets.len() == catalog().len()
    &&& forall|j: int| 0 <= j < l.assets.len() ==> (#[trigger] l.assets[j]).name == catalog()[j]
    &&& forall|j: int|
        0 <= j < l.assets.len() ==> (#[trigger] l.assets[j]).value == 100 && l.assets[j].owner is None
            && l.assets[j].last_transaction == 0
    &&& l.stakes.len() == 0
    &&& l.peer_id == peer_id
}

/// Appends a freshly minted asset named `name`, worth 100.
fn mint_into(v: &mut Vec<Asset>, name: &str)
    ensures
        final(v)@.len() == old(v)@.len() + 1,
        forall|j: int| 0 <= j < old(v)@.len() ==> #[trigger] final(v)@[j] == old(v)@[j],
        final(v)@.last()@.name == name@,
        final(v)@.last()@.value == 100,
        final(v)@.last()@.owner is None,
        final(v)@.last()@.last_transaction == 0,
{
    v.push(Asset::new(name, 100));
}

/// At most one owner is elected.
pub proof fn lemma_elected_unique(s: Seq<AssetView>, w1: Seq<char>, w2: Seq<char>)
    requires
        elected(s, w1),
        elected(s, w2),
    ensures
        w1 == w2,
{
    if w1 != w2 {
        assert(owner_seen(s, w2) && owner_seen(s, w1));
        assert(ranks_below(s, w2, w1));
        assert(ranks_below(s, w1, w2));
        if text_lt(w2, w1) && text_lt(w1, w2) {
            lemma_text_lt_transitive(w1, w2, w1);
            lemma_text_lt_irreflexive(w1);
        }
    }
}

/// Entry `m` of the (coin-age, id) table is not greater than entry `b`.
spec fn pair_le(sums: Seq<u128>, ids: Seq<String>, m: int, b: int) -> bool {
    sums[m] < sums[b] || (sums[m] == sums[b] && (m == b || text_lt(ids[m]@, ids[b]@)))
}

proof fn lemma_no_coinage_without_asset(s: Seq<AssetView>, owner: Seq<char>, latest: int)
    requires
        !owner_seen(s, owner),
    ensures
        coinage(s, owner, latest) == 0,
    decreases s.len(),
{
    if s.len() > 0 {
        assert(!owner_seen(s.drop_last(), owner)) by {
            if owner_seen(s.drop_last(), owner) {
                let j = choose|j: int| 0 <= j < s.drop_last().len() && #[trigger] s.drop_last()[j].owner == Some(owner);
                assert(s[j] == s.drop_last()[j]);
            }
        }
        assert(s[s.len() - 1].owner != Some(owner));
        lemma_no_coinage_without_asset(s.drop_last(), owner, latest);
    }
}

impl AssetLedger {
    /// An empty ledger for `peer_id`.
    pub fn new(peer_id: &str) -> (r: AssetLedger)
        ensures
            r@.assets.len() == 0,
            r@.stakes.len() == 0,
            r@.peer_id == peer_id@,
    {
        let r = AssetLedger { assets: Vec::new(), stake: Vec::new(), peer_id: peer_id.to_owned() };
        proof {
            assert(asset_views(r.assets@) =~= Seq::empty());
            assert(stake_views(r.stake@) =~= Seq::empty());
        }
        r
    }

    /// A ledger for `peer_id` holding a fixed catalog of freshly minted
    /// assets, each worth 100, none owned, none used.
    pub fn generate(peer_id: &str) -> (r: AssetLedger)
        ensures
            fresh_catalog(r@, peer_id@),
    {
        let mut assets: Vec<Asset> = Vec::new();
        mint_into(&mut assets, "les Escaldes");
        mint_into(&mut assets, "Andorra la Vella");
        mint_into(&mut assets, "Umm al Qaywayn");
        mint_into(&mut assets, "Ras al-Khaimah");
        mint_into(&mut assets, "Khawr Fakkān");
        mint_into(&mut assets, "Dubai");
        mint_into(&mut assets, "Dibba Al-Fujairah");
        mint_into(&mut assets, "Dibba Al-Hisn");
        mint_into(&mut assets, "Sharjah");
        mint_into(&mut assets, "Ar Ruways");
        mint_into(&mut assets, "Al Fujayrah");
        mint_into(&mut assets, "Al Ain");
        mint_into(&mut assets, "Ajman");
        mint_into(&mut assets, "Adh Dhayd");
        mint_into(&mut assets, "Abu Dhabi");
        let r = AssetLedger { assets, stake: Vec::new(), peer_id: peer_id.to_owned() };
        proof {
            assert(stake_views(r.stake@) =~= Seq::empty());
        }
        r
    }

    /// Position of the first asset with hash `hash`.
    fn find_asset(&self, hash: &String) -> (r: Option<usize>)
        ensures
            r matches Some(i) ==> first_with_hash(self@.assets, hash@, i as int),
            r is None ==> no_hash(self@.assets, hash@),
    {
        let mut i: usize = 0;
        while i < self.assets.len()
            invariant
                i <= self.assets@.len(),
                forall|j: int| 0 <= j < i ==> self@.assets[j].hash != hash@,
            decreases self.assets@.len() - i,
        {
            if self.assets[i].hash == *hash {
                return Some(i);
            }
            i = i + 1;
        }
        None
    }

    /// The assets owned by `peer_id`, in ledger order.
    pub fn get_peer_assets(&self, peer_id: &str) -> (r: Vec<Asset>)
        ensures
            asset_views(r@) == peer_assets(self@.assets, peer_id@),
    {
        let peer = peer_id.to_owned();
        let ghost s = self@.assets;
        let mut payload: Vec<Asset> = Vec::new();
        let mut i: usize = 0;
        while i < self.assets.len()
            invariant
                s == self@.assets,
                peer@ == peer_id@,
                i <= s.len(),
                asset_views(payload@) == peer_assets(s.take(i as int), peer@),
            decreases s.len() - i,
        {
            let asset = &self.assets[i];
            assert(s.take(i + 1).drop_last() =~= s.take(i as int));
            assert(s.take(i + 1).last() == asset@);
            let owned = match &asset.owner {
                Some(o) => *o == peer,
                None => false,
            };
            if owned {
                let ghost before = payload@;
                payload.push(asset.clone());
                assert(asset_views(payload@) =~= asset_views(before).push(asset@));
            }
            i = i + 1;
        }
        assert(s.take(s.len() as int) =~= s);
        payload
    }

    /// Number of distinct peers that own at least one asset.
    pub fn peers_currently_assigned(&self) -> (r: usize)
        ensures
            r == owner_count(self@.assets),
    {
        let ghost s = self@.assets;
        let mut seen: Vec<String> = Vec::new();
        let mut i: usize = 0;
        while i < self.assets.len()
            invariant
                s == self@.assets,
                i <= s.len(),
                seen@.len() == owner_count(s.take(i as int)),
                seen@.len() <= i,
                forall|o: Seq<char>| owner_seen(s.take(i as int), o) <==> text_views(seen@).contains(o),
            decreases s.len() - i,
        {
            let ghost prefix = s.take(i as int);
            let ghost next = s.take(i + 1);
            assert(next.drop_last() =~= prefix);
            assert(next.last() == self.assets@[i as int]@);
            if let Some(owner) = &self.assets[i].owner {
                let ghost before = text_views(seen@);
                let pos = position_of(&seen, owner);
                if pos.is_none() {
                    seen.push(owner.clone());
                    assert(text_views(seen@) =~= before.push(owner@));
                    assert(text_views(seen@)[before.len() as int] == owner@);
                } else {
                    assert(text_views(seen@) == before);
                }
                assert(text_views(seen@).contains(owner@));
                assert(next[i as int].owner == Some(owner@));
                assert forall|o: Seq<char>| owner_seen(next, o) <==> text_views(seen@).contains(o) by {
                    if owner_seen(prefix, o) {
                        let j = choose|j: int| 0 <= j < prefix.len() && #[trigger] prefix[j].owner == Some(o);
                        assert(next[j] == prefix[j]);
                        assert(before.contains(o));
                        let k = choose|k: int| 0 <= k < before.len() && before[k] == o;
                        assert(text_views(seen@)[k] == o);
                    }
                    if owner_seen(next, o) && o != owner@ {
                        let j = choose|j: int| 0 <= j < next.len() && #[trigger] next[j].owner == Some(o);
                        assert(prefix[j] == next[j]);
                    }
                    if text_views(seen@).contains(o) && o != owner@ {
                        let k = choose|k: int| 0 <= k < text_views(seen@).len() && text_views(seen@)[k] == o;
                        assert(before[k] == o);
                        assert(before.contains(o));
                    }
                }
            } else {
                assert forall|o: Seq<char>| owner_seen(next, o) <==> owner_seen(prefix, o) by {
                    if owner_seen(prefix, o) {
                        let j = choose|j: int| 0 <= j < prefix.len() && #[trigger] prefix[j].owner == Some(o);
                        assert(next[j] == prefix[j]);
                    }
                    if owner_seen(next, o) {
                        let j = choose|j: int| 0 <= j < next.len() && #[trigger] next[j].owner == Some(o);
                        assert(prefix[j] == next[j]);
                    }
                }
            }
            i = i + 1;
        }
        assert(s.take(s.len() as int) =~= s);
        seen.len()
    }

    /// The hashes of the assets owned by this ledger's own peer.
    pub fn default_stake(&self) -> (r: Vec<String>)
        ensures
            text_views(r@) == peer_assets(self@.assets, self@.peer_id).map_values(|a: AssetView| a.hash),
    {
        let mine = self.get_peer_assets(self.peer_id.as_str());
        let ghost m = peer_assets(self@.assets, self@.peer_id);
        let mut ids: Vec<String> = Vec::new();
        let mut i: usize = 0;
        while i < mine.len()
            invariant
                asset_views(mine@) == m,
                i <= mine@.len(),
                text_views(ids@) =~= m.take(i as int).map_values(|a: AssetView| a.hash),
            decreases mine@.len() - i,
        {
            let ghost before = text_views(ids@);
            ids.push(mine[i].get_hash().to_owned());
            assert(text_views(ids@) =~= before.push(m[i as int].hash));
            assert(m.take(i + 1) =~= m.take(i as int).push(m[i as int]));
            i = i + 1;
        }
        assert(m.take(m.len() as int) =~= m);
        ids
    }

    /// The first asset with hash `hash`, if any.
    pub fn get_asset_info(&self, hash: &str) -> (r: Option<Asset>)
        ensures
            r matches Some(a) ==> exists|i: int| first_with_hash(self@.assets, hash@, i) && a@ == self@.assets[i],
            r is None ==> no_hash(self@.assets, hash@),
    {
        match self.find_asset(&hash.to_owned()) {
            Some(i) => Some(self.assets[i].clone()),
            None => None,
        }
    }

    /// Gives the first asset with hash `asset_id` to `new_owner`, without
    /// checking who owned it.
    pub fn change_asset_owner(&mut self, asset_id: &str, new_owner: &str)
        ensures
            final(self)@.stakes == old(self)@.stakes,
            final(self)@.peer_id == old(self)@.peer_id,
            final(self)@.assets == with_owner(old(self)@.assets, asset_id@, new_owner@),
    {
        if let Some(i) = self.find_asset(&asset_id.to_owned()) {
            let ghost before = self.assets@;
            let mut asset = self.assets[i].clone();
            asset.set_owner(new_owner);
            self.assets.set(i, asset);
            proof {
                assert(asset_views(self.assets@) =~= asset_views(before).update(i as int, asset@));
                lemma_hash_position(asset_views(before), asset_id@, i as int);
            }
        }
    }

    /// Records block `tx` as the last use of the first asset with hash
    /// `asset_id`.
    pub fn set_last_transaction(&mut self, asset_id: &str, tx: usize)
        ensures
            final(self)@.stakes == old(self)@.stakes,
            final(self)@.peer_id == old(self)@.peer_id,
            final(self)@.assets == with_last_transaction(old(self)@.assets, asset_id@, tx as nat),
    {
        if let Some(i) = self.find_asset(&asset_id.to_owned()) {
            let ghost before = self.assets@;
            let mut asset = self.assets[i].clone();
            asset.set_last_transaction(tx);
            self.assets.set(i, asset);
            proof {
                assert(asset_views(self.assets@) =~= asset_views(before).update(i as int, asset@));
                lemma_hash_position(asset_views(before), asset_id@, i as int);
            }
        }
    }

    /// Elects the validator by coin-age: the owner whose assets have gone
    /// unused longest in sum, against the latest transaction of any asset;
    /// of owners with equal sums, the greatest id. `None` when no asset has
    /// an owner.
    #[verifier::rlimit(40)]
    pub fn choose_validator(&self) -> (r: Option<String>)
        ensures
            r is None <==> none_owned(self@.assets),
            r matches Some(w) ==> elected(self@.assets, w@),
    {
        let ghost s = self@.assets;
        let n = self.assets.len();
        // the latest transaction of any asset
        let mut latest: usize = 0;
        let mut i: usize = 0;
        while i < n
            invariant
                s == self@.assets,
                n == s.len(),
                i <= n,
                latest == latest_transaction(s.take(i as int)),
            decreases n - i,
        {
            assert(s.take(i + 1).drop_last() =~= s.take(i as int));
            let t = self.assets[i].get_last_transaction();
            if t > latest {
                latest = t;
            }
            i = i + 1;
        }
        assert(s.take(n as int) =~= s);
        proof {
            lemma_latest_bounds(s);
        }
        let ghost l = latest as int;
        // coin-age per owner, owners in order of first appearance
        let mut sums: Vec<u128> = Vec::new();
        let mut ids: Vec<String> = Vec::new();
        i = 0;
        while i < n
            invariant
                s == self@.assets,
                n == s.len(),
                l == latest_transaction(s),
                l == latest as int,
                i <= n,
                forall|j: int| 0 <= j < s.len() ==> (#[trigger] s[j]).last_transaction <= l,
                sums@.len() == ids@.len(),
                ids@.len() <= i,
                forall|k: int| 0 <= k < ids@.len() ==> #[trigger] sums@[k] as int == coinage(s.take(i as int), ids@[k]@, l),
                forall|k: int| 0 <= k < ids@.len() ==> owner_seen(s.take(i as int), #[trigger] ids@[k]@),
                forall|o: Seq<char>| owner_seen(s.take(i as int), o) ==> text_views(ids@).contains(o),
                forall|a: int, b: int| 0 <= a < b < ids@.len() ==> ids@[a]@ != ids@[b]@,
            decreases n - i,
        {
            let ghost prefix = s.take(i as int);
            let ghost next = s.take(i + 1);
            assert(next.drop_last() =~= prefix);
            assert(next.last() == s[i as int]);
            proof {
                assert forall|k: int| 0 <= k < ids@.len() implies owner_seen(next, #[trigger] ids@[k]@) by {
                    let j = choose|j: int| 0 <= j < prefix.len() && #[trigger] prefix[j].owner == Some(ids@[k]@);
                    assert(next[j] == prefix[j]);
                }
                assert forall|j: int| 0 <= j < prefix.len() implies (#[trigger] prefix[j]).last_transaction <= l by {
                    assert(prefix[j] == s[j]);
                }
                lemma_coinage_bounds(prefix, s[i as int].owner->Some_0, l);
            }
            let asset = &self.assets[i];
            match &asset.owner {
                Some(owner) => {
                    let age = latest - asset.last_transaction;
                    let ghost before_ids = ids@;
                    let ghost before_sums = sums@;
                    match position_of(&ids, owner) {
                        Some(k) => {
                            proof {
                                lemma_coinage_bounds(prefix, ids@[k as int]@, l);
                                assert(i * usize::MAX + usize::MAX <= usize::MAX * usize::MAX) by (nonlinear_arith)
                                    requires i < usize::MAX;
                            }
                            let total = sums[k] + age as u128;
                            sums.set(k, total);
                            assert(text_views(ids@)[k as int] == owner@);
                            assert forall|m: int| 0 <= m < ids@.len() implies #[trigger] sums@[m] as int == coinage(
                                next,
                                ids@[m]@,
                                l,
                            ) by {
                                if m != k {
                                    assert(ids@[m]@ != owner@);
                                }
                            }
                        },
                        None => {
                            sums.push(age as u128);
                            ids.push(owner.clone());
                            proof {
                                assert(!owner_seen(prefix, owner@));
                                assert(coinage(prefix, owner@, l) == 0) by {
                                    lemma_no_coinage_without_asset(prefix, owner@, l);
                                }
                                assert(text_views(ids@) =~= text_views(before_ids).push(owner@));
                                assert(text_views(ids@)[before_ids.len() as int] == owner@);
                            }
                            assert forall|m: int| 0 <= m < ids@.len() implies #[trigger] sums@[m] as int == coinage(
                                next,
                                ids@[m]@,
                                l,
                            ) by {
                                if m < before_ids.len() {
                                    assert(ids@[m] == before_ids[m]);
                                    assert(text_views(before_ids).contains(ids@[m]@) ==> owner_seen(prefix, ids@[m]@));
                                    assert(ids@[m]@ != owner@);
                                }
                            }
                        },
                    }
                    assert(next[i as int].owner == Some(owner@));
                    assert forall|o: Seq<char>| owner_seen(next, o) implies text_views(ids@).contains(o) by {
                        if o != owner@ {
                            let j = choose|j: int| 0 <= j < next.len() && #[trigger] next[j].owner == Some(o);
                            assert(prefix[j] == next[j]);
                            assert(text_views(before_ids).contains(o));
                            let k = choose|k: int| 0 <= k < before_ids.len() && text_views(before_ids)[k] == o;
                            assert(text_views(ids@)[k] == o);
                        }
                    }
                    assert forall|k: int| 0 <= k < ids@.len() implies owner_seen(next, #[trigger] ids@[k]@) by {
                        if k < before_ids.len() {
                            assert(ids@[k] == before_ids[k]);
                        } else {
                            assert(next[i as int].owner == Some(ids@[k]@));
                        }
                    }
                },
                None => {
                    assert forall|k: int| 0 <= k < ids@.len() implies #[trigger] sums@[k] as int == coinage(
                        next,
                        ids@[k]@,
                        l,
                    ) by {}
                    assert forall|o: Seq<char>| owner_seen(next, o) implies text_views(ids@).contains(o) by {
                        let j = choose|j: int| 0 <= j < next.len() && #[trigger] next[j].owner == Some(o);
                        assert(prefix[j] == next[j]);
                    }
                },
            }
            i = i + 1;
        }
        assert(s.take(n as int) =~= s);
        if ids.len() == 0 {
            assert(none_owned(s)) by {
                assert forall|j: int| 0 <= j < s.len() implies (#[trigger] s[j]).owner is None by {
                    if let Some(o) = s[j].owner {
                        assert(owner_seen(s, o));
                        assert(text_views(ids@).contains(o));
                    }
                }
            }
            return None;
        }
        // the greatest (coin-age, id) pair
        let mut best: usize = 0;
        let mut k: usize = 1;
        while k < ids.len()
            invariant
                1 <= k <= ids@.len(),
                best < k,
                sums@.len() == ids@.len(),
                forall|a: int, b: int| 0 <= a < b < ids@.len() ==> ids@[a]@ != ids@[b]@,
                forall|m: int| 0 <= m < k ==> #[trigger] pair_le(sums@, ids@, m, best as int),
            decreases ids@.len() - k,
        {
            let wins = sums[k] > sums[best] || (sums[k] == sums[best] && text_less(
                ids[best].as_str(),
                ids[k].as_str(),
            ));
            if wins {
                proof {
                    assert forall|m: int| 0 <= m < k + 1 implies #[trigger] pair_le(sums@, ids@, m, k as int) by {
                        if m < k {
                            assert(pair_le(sums@, ids@, m, best as int));
                            if sums@[m] == sums@[k as int] && m != best {
                                lemma_text_lt_transitive(ids@[m]@, ids@[best as int]@, ids@[k as int]@);
                            }
                        }
                    }
                }
                best = k;
            } else {
                proof {
                    assert(ids@[best as int]@ != ids@[k as int]@);
                    lemma_text_lt_total(ids@[best as int]@, ids@[k as int]@);
                    assert(pair_le(sums@, ids@, k as int, best as int));
                }
            }
            k = k + 1;
        }
        proof {
            assert forall|o: Seq<char>| #[trigger] owner_seen(s, o) && o != ids@[best as int]@ implies ranks_below(
                s,
                o,
                ids@[best as int]@,
            ) by {
                assert(owner_seen(s.take(i as int), o));
                assert(text_views(ids@).contains(o));
                let m = choose|m: int| 0 <= m < text_views(ids@).len() && text_views(ids@)[m] == o;
                assert(ids@[m]@ == o);
                assert(sums@[m] as int == coinage(s, o, l));
                assert(pair_le(sums@, ids@, m, best as int));
            }
            assert(!none_owned(s)) by {
                let j = choose|j: int| 0 <= j < s.len() && #[trigger] s[j].owner == Some(ids@[0]@);
            }
        }
        Some(ids[best].clone())
    }

    /// Admits `peer_id` into a network of `network_size` peers: gives it
    /// `floor(A / network_size)` of the `A` assets, taken from the unowned
    /// ones in ledger order, each marked as last used in transaction
    /// "number of distinct owners so far + 1". Owned assets are untouched.
    pub fn init_network(&mut self, network_size: usize, peer_id: &str)
        requires
            network_size > 0,
        ensures
            final(self)@ == (LedgerView {
                assets: assign_unowned(
                    old(self)@.assets,
                    old(self)@.assets.len() / network_size as nat,
                    peer_id@,
                    owner_count(old(self)@.assets) + 1,
                ),
                ..old(self)@
            }),
    {
        let ghost s0 = self@.assets;
        let length = self.assets.len();
        let assigned = self.peers_currently_assigned();
        proof {
            lemma_owner_count_le(s0);
        }
        if assigned >= length {
            // every asset already has an owner
            proof {
                lemma_assign_all_owned(s0, (length / network_size) as nat, peer_id@, (assigned + 1) as nat);
            }
            return;
        }
        let current_transaction = assigned + 1;
        let ghost q0 = (length / network_size) as nat;
        let mut assets_per_peer = length / network_size;
        let mut i: usize = 0;
        assert(s0.skip(0) =~= s0);
        assert(asset_views(self.assets@).take(0) + assign_unowned(s0, q0, peer_id@, current_transaction as nat)
            =~= assign_unowned(s0, q0, peer_id@, current_transaction as nat));
        while i < length
            invariant
                length == s0.len(),
                self.assets@.len() == length,
                i <= length,
                self@.peer_id == old(self)@.peer_id,
                self@.stakes == old(self)@.stakes,
                asset_views(self.assets@).skip(i as int) == s0.skip(i as int),
                assign_unowned(s0, q0, peer_id@, current_transaction as nat) == asset_views(self.assets@).take(
                    i as int,
                ) + assign_unowned(s0.skip(i as int), assets_per_peer as nat, peer_id@, current_transaction as nat),
            decreases length - i,
        {
            let ghost before = asset_views(self.assets@);
            let ghost x = s0.skip(i as int);
            assert(x.drop_first() =~= s0.skip(i + 1));
            assert(x[0] == before[i as int]);
            let ghost q = assets_per_peer as nat;
            if assets_per_peer > 0 && self.assets[i].owner.is_none() {
                let mut asset = self.assets[i].clone();
                asset.set_owner(peer_id);
                asset.set_last_transaction(current_transaction);
                self.assets.set(i, asset);
                assets_per_peer = assets_per_peer - 1;
            }
            let ghost after = asset_views(self.assets@);
            assert(after =~= before.update(i as int, after[i as int]));
            assert(after.take(i + 1) =~= before.take(i as int).push(after[i as int]));
            assert(after.skip(i + 1) =~= before.skip(i + 1));
            assert(before.skip(i + 1) =~= before.skip(i as int).drop_first());
            assert(assign_unowned(x, q, peer_id@, current_transaction as nat) == seq![after[i as int]]
                + assign_unowned(s0.skip(i + 1), assets_per_peer as nat, peer_id@, current_transaction as nat));
            assert(before.take(i as int) + (seq![after[i as int]] + assign_unowned(
                s0.skip(i + 1),
                assets_per_peer as nat,
                peer_id@,
                current_transaction as nat,
            )) =~= after.take(i + 1) + assign_unowned(
                s0.skip(i + 1),
                assets_per_peer as nat,
                peer_id@,
                current_transaction as nat,
            ));
            i = i + 1;
        }
        assert(asset_views(self.assets@).take(length as int) =~= asset_views(self.assets@));
        assert(s0.skip(length as int) =~= Seq::<AssetView>::empty());
        assert(asset_views(self.assets@) + Seq::<AssetView>::empty() =~= asset_views(self.assets@));
    }

    /// Whether `peer` owns an asset with hash `h`.
    fn owns(&self, peer: &String, h: &String) -> (r: bool)
        ensures
            r == owns_hash(self@.assets, peer@, h@),
    {
        let ghost s = self@.assets;
        let mut i: usize = 0;
        while i < self.assets.len()
            invariant
                s == self@.assets,
                i <= s.len(),
                forall|j: int| 0 <= j < i ==> !(#[trigger] s[j].owner == Some(peer@) && s[j].hash == h@),
            decreases s.len() - i,
        {
            let a = &self.assets[i];
            let owned = match &a.owner {
                Some(o) => *o == *peer,
                None => false,
            };
            if owned && a.hash == *h {
                assert(s[i as int].owner == Some(peer@) && s[i as int].hash == h@);
                return true;
            }
            i = i + 1;
        }
        false
    }

    /// Records `peer_id`'s stake for block `block_id`, keeping only the
    /// declared hashes of assets that `peer_id` owns; returns how many were
    /// dropped.
    pub fn set_stake(&mut self, block_id: usize, peer_id: &str, stake: &Vec<String>) -> (r: usize)
        ensures
            final(self)@ == (LedgerView {
                stakes: old(self)@.stakes.push(
                    StakeView {
                        block_id: block_id as nat,
                        stake: authenticated(text_views(stake@), old(self)@.assets, peer_id@),
                    },
                ),
                ..old(self)@
            }),
            r == stake@.len() - authenticated(text_views(stake@), old(self)@.assets, peer_id@).len(),
    {
        let peer = peer_id.to_owned();
        let ghost d = text_views(stake@);
        let mut correct: Vec<String> = Vec::new();
        let mut i: usize = 0;
        while i < stake.len()
            invariant
                d == text_views(stake@),
                peer@ == peer_id@,
                i <= stake@.len(),
                text_views(correct@) == authenticated(d.take(i as int), self@.assets, peer_id@),
                correct@.len() <= i,
            decreases stake@.len() - i,
        {
            assert(d.take(i + 1).drop_last() =~= d.take(i as int));
            assert(d.take(i + 1).last() == stake@[i as int]@);
            if self.owns(&peer, &stake[i]) {
                let ghost before = text_views(correct@);
                correct.push(stake[i].clone());
                assert(text_views(correct@) =~= before.push(stake@[i as int]@));
            }
            i = i + 1;
        }
        assert(d.take(stake@.len() as int) =~= d);
        let dropped = stake.len() - correct.len();
        let entry = Stake { block_id, stake: correct };
        let ghost before = self.stake@;
        self.stake.push(entry);
        proof {
            assert(stake_views(self.stake@) =~= stake_views(before).push(entry@));
        }
        dropped
    }

    /// The stake for block `block_id`: the first one recorded for it, or
    /// else the default stake (all assets of this ledger's own peer), which
    /// is recorded so that later requests get the same answer.
    pub fn get_stake(&mut self, block_id: usize) -> (r: Stake)
        ensures
            (r@, final(self)@) == stake_answer(old(self)@, block_id as nat),
    {
        let ghost st = stake_views(self.stake@);
        let mut i: usize = 0;
        assert(st.skip(0) =~= st);
        while i < self.stake.len()
            invariant
                st == stake_views(self.stake@),
                i <= st.len(),
                find_stake(st, block_id as nat) == find_stake(st.skip(i as int), block_id as nat),
            decreases st.len() - i,
        {
            assert(st.skip(i as int)[0] == self.stake@[i as int]@);
            if self.stake[i].block_id == block_id {
                return self.stake[i].clone();
            }
            assert(st.skip(i as int).drop_first() =~= st.skip(i + 1));
            i = i + 1;
        }
        assert(st.skip(i as int) =~= Seq::<StakeView>::empty());
        let stake = Stake { block_id, stake: self.default_stake() };
        let ghost before = self.stake@;
        self.stake.push(stake.clone());
        proof {
            assert(stake_views(self.stake@) =~= stake_views(before).push(stake@));
        }
        stake
    }

    /// A copy of all assets.
    pub fn dump(&self) -> (r: Vec<Asset>)
        ensures
            asset_views(r@) == self@.assets,
    {
        let r = self.assets.clone();
        proof {
            assert(asset_views(r@) =~= asset_views(self.assets@));
        }
        r
    }

    /// Replaces all assets, as when taking over a peer's ledger.
    pub fn replace_ledger(&mut self, assets: Vec<Asset>)
        ensures
            final(self)@ == (LedgerView { assets: asset_views(assets@), ..old(self)@ }),
    {
        self.assets = assets;
    }
}

/// Position of `x` in `v`, if it is there.
pub(crate) fn position_of(v: &Vec<String>, x: &String) -> (r: Option<usize>)
    ensures
        r matches Some(k) ==> k < v@.len() && v@[k as int]@ == x@,
        r is None <==> !text_views(v@).contains(x@),
{
    let mut k: usize = 0;
    while k < v.len()
        invariant
            k <= v@.len(),
            forall|m: int| 0 <= m < k ==> v@[m]@ != x@,
        decreases v@.len() - k,
    {
        if v[k] == *x {
            assert(text_views(v@)[k as int] == x@);
            return Some(k);
        }
        k = k + 1;
    }
    assert(!text_views(v@).contains(x@)) by {
        if text_views(v@).contains(x@) {
            let m = choose|m: int| 0 <= m < text_views(v@).len() && text_views(v@)[m] == x@;
            assert(v@[m]@ == x@);
        }
    }
    None
}

} // verus!
