//! A chain of blocks, each sealed on top of the previous one.
use vstd::prelude::*;

use crate::block::{genesis_data, mined, with_nonce, Block, BlockModel};

verus! {

/// Difficulty of the blocks this chain mines.
pub const CURR_BITS: usize = 8;

/// Whether `blocks` is a chain: it starts with a genesis block (no
/// previous hash), every block names the hash of the one before it, and
/// every block was mined at `CURR_BITS`.
pub open spec fn linked(blocks: Seq<BlockModel>) -> bool {
    &&& blocks.len() >= 1
    &&& blocks[0].header.prev_hash == Seq::<char>::empty()
    &&& forall|i: int| 0 <= i < blocks.len() ==> (#[trigger] blocks[i]).header.bits == CURR_BITS
    &&& forall|i: int| 1 <= i < blocks.len() ==> (#[trigger] blocks[i]).header.prev_hash == blocks[i - 1].hash
}

/// A block mined on top of a block with hash `tip`, holding `data`.
pub open spec fn mined_on(tip: Seq<char>, data: Seq<char>, b: BlockModel) -> bool {
    &&& b.header.prev_hash == tip
    &&& b.header.bits == CURR_BITS
    &&& mined(BlockModel { header: with_nonce(b.header, 0), data, hash: Seq::empty() }, CURR_BITS as nat, b)
}

/// An in-memory chain of blocks.
pub struct Blockchain {
    blocks: Vec<Block>,
    height: usize,
}

impl Blockchain {
    /// The blocks are linked and the height is the index of the last one.
    pub closed spec fn wf(&self) -> bool {
        &&& linked(self.blocks())
        &&& self.height + 1 == self.blocks@.len()
    }

    /// The blocks, oldest first.
    pub closed spec fn blocks(&self) -> Seq<BlockModel> {
        self.blocks@.map_values(|b: Block| b@)
    }

    /// A chain holding only a fresh genesis block.
    pub fn new() -> (res: Self)
        ensures
            res.wf(),
            res.blocks().len() == 1,
            linked(res.blocks()),
            mined(
                BlockModel {
                    header: with_nonce(res.blocks()[0].header, 0),
                    data: genesis_data(),
                    hash: Seq::empty(),
                },
                CURR_BITS as nat,
                res.blocks()[0],
            ),
    {
        let genesis = Block::create_genesis_block(CURR_BITS);
        let mut blocks: Vec<Block> = Vec::new();
        blocks.push(genesis);
        let res = Blockchain { blocks, height: 0 };
        assert(res.blocks() =~= seq![genesis@]);
        res
    }

    /// A chain holding only a genesis block with `data`, mined with no
    /// previous hash.
    pub fn with_genesis(data: &str) -> (res: Self)
        ensures
            res.wf(),
            res.blocks().len() == 1,
            mined_on(Seq::empty(), data@, res.blocks()[0]),
    {
        let prev = "";
        proof {
            reveal_strlit("");
        }
        assert(prev@ =~= Seq::<char>::empty());
        let genesis = Block::new(data, prev, CURR_BITS);
        assert(genesis@.header.prev_hash == Seq::<char>::empty());
        let mut blocks: Vec<Block> = Vec::new();
        blocks.push(genesis);
        let res = Blockchain { blocks, height: 0 };
        assert(res.blocks() =~= seq![genesis@]);
        res
    }

    /// Mines a block holding `data` on top of the last block.
    pub fn mine_block(&mut self, data: &str)
        requires
            old(self).wf(),
            old(self).blocks().len() < usize::MAX,
        ensures
            final(self).wf(),
            final(self).blocks().len() == old(self).blocks().len() + 1,
            final(self).blocks().drop_last() == old(self).blocks(),
            mined_on(old(self).blocks().last().hash, data@, final(self).blocks().last()),
            linked(final(self).blocks()),
    {
        let last = self.blocks.len() - 1;
        let prev_hash = self.blocks[last].get_hash();
        assert(self.blocks()[last as int] == self.blocks@[last as int]@);
        let block = Block::new(data, prev_hash.as_str(), CURR_BITS);
        let ghost before = self.blocks();
        self.blocks.push(block);
        self.height = self.height + 1;
        assert(self.blocks() =~= before.push(block@));
        assert(self.blocks().drop_last() =~= before);
    }

    /// The index of the last block.
    pub fn get_height(&self) -> (res: usize)
        requires
            self.wf(),
        ensures
            res + 1 == self.blocks().len(),
    {
        self.height
    }

    /// The hash of the last block.
    pub fn get_tip(&self) -> (res: String)
        requires
            self.wf(),
        ensures
            res@ == self.blocks().last().hash,
    {
        let last = self.blocks.len() - 1;
        assert(self.blocks()[last as int] == self.blocks@[last as int]@);
        self.blocks[last].get_hash()
    }

    /// The blocks, oldest first.
    pub fn get_blocks(&self) -> (res: &[Block])
        ensures
            res@.map_values(|b: Block| b@) == self.blocks(),
    {
        self.blocks.as_slice()
    }
}

/// Whether `b` can extend a chain whose last block has hash `tip`.
pub open spec fn extends(tip: Seq<char>, b: BlockModel) -> bool {
    b.header.prev_hash == tip && b.header.bits == CURR_BITS
}

impl Blockchain {
    /// Appends `block` when it names the hash of the last block and has the
    /// chain's difficulty; otherwise leaves the chain as it is. Returns
    /// whether the block was appended.
    pub fn add_block(&mut self, block: Block) -> (res: bool)
        requires
            old(self).wf(),
        ensures
            final(self).wf(),
            res == (extends(old(self).blocks().last().hash, block@) && old(self).blocks().len() < usize::MAX),
            res ==> final(self).blocks() == old(self).blocks().push(block@),
            !res ==> final(self).blocks() == old(self).blocks(),
    {
        let tip = self.get_tip();
        let header = block.get_header();
        if self.blocks.len() < usize::MAX && header.get_prev_hash() == tip && header.get_bits() == CURR_BITS {
            let ghost before = self.blocks();
            self.blocks.push(block);
            self.height = self.height + 1;
            assert(self.blocks() =~= before.push(block@));
            true
        } else {
            false
        }
    }
}

impl Blockchain {
    /// The chain made of `blocks`, oldest first, when they are linked.
    pub fn from_blocks(blocks: Vec<Block>) -> (res: Option<Self>)
        ensures
            res is Some <==> linked(blocks@.map_values(|b: Block| b@)),
            res matches Some(c) ==> c.wf() && c.blocks() == blocks@.map_values(|b: Block| b@),
    {
        let ghost models = blocks@.map_values(|b: Block| b@);
        if blocks.len() == 0 {
            return None;
        }
        let first = blocks[0].get_header();
        assert(models[0] == blocks@[0]@);
        if first.get_prev_hash() != String::new() {
            return None;
        }
        let mut i: usize = 0;
        while i < blocks.len()
            invariant
                i <= blocks@.len(),
                models == blocks@.map_values(|b: Block| b@),
                forall|k: int| 0 <= k < i ==> (#[trigger] models[k]).header.bits == CURR_BITS,
                forall|k: int| 1 <= k < i ==> (#[trigger] models[k]).header.prev_hash == models[k - 1].hash,
            decreases blocks.len() - i,
        {
            assert(models[i as int] == blocks@[i as int]@);
            let header = blocks[i].get_header();
            if header.get_bits() != CURR_BITS {
                return None;
            }
            if i > 0 {
                assert(models[i as int - 1] == blocks@[i as int - 1]@);
                if header.get_prev_hash() != blocks[i - 1].get_hash() {
                    return None;
                }
            }
            i = i + 1;
        }
        let height = blocks.len() - 1;
        let res = Blockchain { blocks, height };
        assert(res.blocks() == models);
        Some(res)
    }
}

} // verus!
