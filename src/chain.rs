//! The hash-linked chain of blocks.

use vstd::prelude::*;
use crate::block::{Block, BlockView};
use crate::error::ChainError;

verus! {

/// The views of a sequence of blocks.
pub open spec fn block_views(bs: Seq<Block>) -> Seq<BlockView> {
    bs.map_values(|b: Block| b@)
}

/// Every block after the first names, as `prev`, the hash of the block
/// before it.
pub open spec fn links_ok(bs: Seq<BlockView>) -> bool {
    forall|i: int| 0 <= i < bs.len() - 1 ==> #[trigger] bs[i + 1].prev == Some(bs[i].hash_spec())
}

/// Every block after the first names, as `prev`, the entry of `hashes` at
/// the position before it.
pub open spec fn links_match(bs: Seq<BlockView>, hashes: Seq<Seq<char>>) -> bool {
    forall|i: int| 0 <= i < bs.len() - 1 ==> #[trigger] bs[i + 1].prev == Some(hashes[i])
}

/// The chain after offering `candidate` as its replacement: taken when its
/// links hold and it is not empty, else the chain stays as it was.
pub open spec fn replaced(current: Seq<BlockView>, candidate: Seq<BlockView>) -> Seq<BlockView> {
    if candidate.len() > 0 && links_ok(candidate) {
        candidate
    } else {
        current
    }
}

/// Serial number of a block, an unassigned one counting as 0.
pub open spec fn serial_of(b: BlockView) -> nat {
    match b.serial_no {
        Some(n) => n,
        None => 0,
    }
}

/// Serial number of the block that follows one numbered `last`: right after
/// genesis the numbers of the `network_size` enrolled peers are skipped.
pub open spec fn next_serial(last: nat, network_size: nat) -> nat {
    if last == 0 {
        network_size + 1
    } else {
        last + 1
    }
}

/// The ledger: a non-empty sequence of blocks that starts with genesis.
#[derive(Debug)]
pub struct Chain {
    name: String,
    blocks: Vec<Block>,
}

impl View for Chain {
    type V = Seq<BlockView>;

    closed spec fn view(&self) -> Seq<BlockView> {
        block_views(self.blocks@)
    }
}

impl Clone for Chain {
    fn clone(&self) -> (r: Self)
        ensures
            r@ == self@,
            r.name_spec() == self.name_spec(),
    {
        let blocks = self.blocks.clone();
        proof {
            assert(block_views(blocks@) =~= block_views(self.blocks@));
        }
        Chain { name: self.name.clone(), blocks }
    }
}

impl Chain {
    /// Well-formed: at least the genesis block is there.
    pub open spec fn wf(&self) -> bool {
        self@.len() > 0
    }

    /// The name the chain was created with.
    pub closed spec fn name_spec(&self) -> Seq<char> {
        self.name@
    }

    /// Serial number of the last block.
    pub open spec fn last_serial(&self) -> nat {
        serial_of(self@.last())
    }

    /// A new chain holding one fresh genesis block.
    pub fn new(name: &str) -> (r: Chain)
        ensures
            r.wf(),
            r@.len() == 1,
            r@[0].is_genesis(),
            r@[0].serial_no == Some(0nat),
            r.name_spec() == name@,
    {
        let genesis = Block::genesis();
        let blocks = vec![genesis];
        proof {
            assert(block_views(blocks@) =~= seq![genesis@]);
        }
        Chain { name: name.to_owned(), blocks }
    }

    /// The last block.
    pub fn get_last_block(&self) -> (r: &Block)
        requires
            self.wf(),
        ensures
            r@ == self@.last(),
    {
        &self.blocks[self.blocks.len() - 1]
    }

    /// Appends `block` after checking that it is not genesis and that it
    /// names the last block's hash as `prev`; numbers it and returns the
    /// number.
    pub fn add_block(&mut self, block: Block, network_size: usize) -> (r: Result<usize, ChainError>)
        requires
            old(self).wf(),
            network_size < usize::MAX,
            old(self).last_serial() < usize::MAX,
        ensures
            block@.is_genesis() ==> r == Err::<usize, ChainError>(ChainError::GenesisBlockAdditionError),
            !block@.is_genesis() && block@.prev != Some(old(self)@.last().hash) ==> r == Err::<
                usize,
                ChainError,
            >(ChainError::InconsistentBlockAddition),
            r is Err ==> final(self)@ == old(self)@,
            !block@.is_genesis() && block@.prev == Some(old(self)@.last().hash) ==> {
                let n = next_serial(old(self).last_serial(), network_size as nat);
                &&& r == Ok::<usize, ChainError>(n as usize)
                &&& final(self)@ == old(self)@.push(BlockView { serial_no: Some(n), ..block@ })
            },
            final(self).name_spec() == old(self).name_spec(),
            final(self).wf(),
    {
        if block.is_genesis() {
            return Err(ChainError::GenesisBlockAdditionError);
        }
        let last = &self.blocks[self.blocks.len() - 1];
        if !block.follows(last) {
            return Err(ChainError::InconsistentBlockAddition);
        }
        let last_serial_no: usize = match last.get_serial_no() {
            Some(n) => n,
            None => 0,
        };
        let serial_no = if last_serial_no == 0 {
            network_size + 1
        } else {
            last_serial_no + 1
        };
        let mut block = block;
        block.set_serial_no(serial_no);
        let ghost added = block@;
        self.blocks.push(block);
        proof {
            assert(block_views(self.blocks@) =~= block_views(old(self).blocks@).push(added));
        }
        Ok(serial_no)
    }

    /// Checks the links of `chain` against `hashes`, where `hashes[i]` stands
    /// for the hash of `chain[i]`.
    pub fn links_match_hashes(chain: &Vec<Block>, hashes: &Vec<String>) -> (r: Result<(), ChainError>)
        requires
            hashes@.len() == chain@.len(),
        ensures
            r is Ok <==> links_match(block_views(chain@), hashes@.map_values(|h: String| h@)),
            r is Err ==> r == Err::<(), ChainError>(ChainError::InvalidBlockChain),
    {
        let ghost bs = block_views(chain@);
        let ghost hs = hashes@.map_values(|h: String| h@);
        let mut i: usize = 0;
        while chain.len() > 0 && i < chain.len() - 1
            invariant
                hashes@.len() == chain@.len(),
                bs == block_views(chain@),
                hs == hashes@.map_values(|h: String| h@),
                i < chain@.len() || chain@.len() == 0,
                forall|j: int| 0 <= j < i ==> #[trigger] bs[j + 1].prev == Some(hs[j]),
            decreases chain@.len() - i,
        {
            let linked = match chain[i + 1].get_prev() {
                Some(prev) => *prev == hashes[i],
                None => false,
            };
            if !linked {
                assert(!(bs[i + 1].prev == Some(hs[i as int])));
                return Err(ChainError::InvalidBlockChain);
            }
            i = i + 1;
        }
        Ok(())
    }

    /// Checks that every block after the first names, as `prev`, the hash of
    /// the block before it.
    pub fn is_valid(chain: &Vec<Block>) -> (r: Result<(), ChainError>)
        ensures
            r is Ok <==> links_ok(block_views(chain@)),
            r is Err ==> r == Err::<(), ChainError>(ChainError::InvalidBlockChain),
    {
        let mut hashes: Vec<String> = Vec::new();
        let mut i: usize = 0;
        while i < chain.len()
            invariant
                i <= chain@.len(),
                hashes@.len() == i,
                forall|j: int| 0 <= j < i ==> #[trigger] hashes@[j]@ == chain@[j]@.hash_spec(),
            decreases chain@.len() - i,
        {
            hashes.push(chain[i].hash());
            i = i + 1;
        }
        let r = Chain::links_match_hashes(chain, &hashes);
        proof {
            let bs = block_views(chain@);
            let hs = hashes@.map_values(|h: String| h@);
            assert forall|j: int| 0 <= j < bs.len() - 1 implies hs[j] == bs[j].hash_spec() by {}
            if links_ok(bs) {
                assert forall|j: int| 0 <= j < bs.len() - 1 implies #[trigger] bs[j + 1].prev == Some(hs[j]) by {
                    assert(bs[j + 1].prev == Some(bs[j].hash_spec()));
                }
            }
            if links_match(bs, hs) {
                assert forall|j: int| 0 <= j < bs.len() - 1 implies #[trigger] bs[j + 1].prev == Some(bs[j].hash_spec()) by {
                    assert(bs[j + 1].prev == Some(hs[j]));
                }
            }
        }
        r
    }

    /// Replaces the blocks with `chain` if its links hold and it is not
    /// empty; whether it is longer or newer is the caller's decision.
    pub fn replace_chain(&mut self, chain: Vec<Block>) -> (r: Result<(), ChainError>)
        requires
            old(self).wf(),
        ensures
            final(self).wf(),
            r is Ok <==> chain@.len() > 0 && links_ok(block_views(chain@)),
            r is Err ==> r == Err::<(), ChainError>(ChainError::InvalidBlockChain),
            final(self)@ == replaced(old(self)@, block_views(chain@)),
            final(self).name_spec() == old(self).name_spec(),
    {
        Chain::is_valid(&chain)?;
        if chain.len() == 0 {
            return Err(ChainError::InvalidBlockChain);
        }
        self.blocks = chain;
        Ok(())
    }

    /// A copy of all blocks, oldest first.
    pub fn dump(&self) -> (r: Vec<Block>)
        ensures
            block_views(r@) == self@,
    {
        let r = self.blocks.clone();
        proof {
            assert(block_views(r@) =~= block_views(self.blocks@));
        }
        r
    }

    /// Number of blocks.
    pub fn len(&self) -> (r: usize)
        ensures
            r == self@.len(),
    {
        self.blocks.len()
    }
}

/// Appending a block that names the last block's hash keeps every link of
/// a chain whose links held, when the last block carries its proper hash
/// (as every built block and every genesis block does).
pub proof fn lemma_append_keeps_links(blocks: Seq<BlockView>, b: BlockView)
    requires
        blocks.len() > 0,
        links_ok(blocks),
        blocks.last().hash == blocks.last().hash_spec(),
        b.prev == Some(blocks.last().hash),
    ensures
        links_ok(blocks.push(b)),
{
    let nb = blocks.push(b);
    assert forall|i: int| 0 <= i < nb.len() - 1 implies #[trigger] nb[i + 1].prev == Some(nb[i].hash_spec()) by {
        if i < blocks.len() - 1 {
            assert(nb[i + 1] == blocks[i + 1]);
            assert(nb[i] == blocks[i]);
        }
    }
}

/// Replacing a chain with a copy of its own blocks leaves it as it was,
/// whether or not its links hold.
pub proof fn lemma_replace_with_own_dump(blocks: Seq<BlockView>)
    ensures
        replaced(blocks, blocks) == blocks,
{
}

} // verus!
