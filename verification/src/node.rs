//! The decisions a node takes on the messages peers send it.
use vstd::prelude::*;

use crate::block::{Block, BlockModel};
use crate::blockchain::{extends, linked, mined_on, Blockchain};

verus! {

/// The messages nodes exchange.
#[derive(Debug)]
pub enum Messages {
    /// A node announces the height of its chain.
    Version { best_height: usize, from_addr: String },
    /// A node sends its blocks to the node `to_addr`.
    Blocks { blocks: Vec<Block>, height: usize, to_addr: String },
    /// A node announces a block it mined.
    Block { block: Block },
}

/// `chain` after offering it each block of `blocks` in turn: a block is
/// appended when it extends the chain so far.
pub open spec fn add_all(chain: Seq<BlockModel>, blocks: Seq<BlockModel>) -> Seq<BlockModel>
    decreases blocks.len(),
{
    if blocks.len() == 0 {
        chain
    } else {
        let before = add_all(chain, blocks.drop_last());
        let b = blocks.last();
        if extends(before.last().hash, b) && before.len() < usize::MAX {
            before.push(b)
        } else {
            before
        }
    }
}

/// Copies of `blocks`, in order.
fn copy_blocks(blocks: &[Block]) -> (res: Vec<Block>)
    ensures
        res@.map_values(|b: Block| b@) == blocks@.map_values(|b: Block| b@),
{
    let mut res: Vec<Block> = Vec::new();
    let mut i: usize = 0;
    while i < blocks.len()
        invariant
            i <= blocks@.len(),
            res@.len() == i,
            forall|k: int| 0 <= k < i ==> #[trigger] res@[k]@ == blocks@[k]@,
        decreases blocks.len() - i,
    {
        res.push(blocks[i].duplicate());
        i = i + 1;
    }
    assert(res@.map_values(|b: Block| b@) =~= blocks@.map_values(|b: Block| b@));
    res
}

/// The answer to a peer's `Version` message: when the local chain is
/// higher than the peer's, all local blocks, addressed to the peer.
pub fn process_version_msg(bc: &Blockchain, best_height: usize, from_addr: String) -> (res: Option<Messages>)
    requires
        bc.wf(),
    ensures
        res is Some <==> bc.blocks().len() - 1 > best_height,
        res matches Some(msg) ==> (match msg {
            Messages::Blocks { blocks, height, to_addr } => {
                &&& blocks@.map_values(|b: Block| b@) == bc.blocks()
                &&& height + 1 == bc.blocks().len()
                &&& to_addr@ == from_addr@
            },
            _ => false,
        }),
{
    let height = bc.get_height();
    if height > best_height {
        let blocks = copy_blocks(bc.get_blocks());
        Some(Messages::Blocks { blocks, height, to_addr: from_addr })
    } else {
        None
    }
}

/// Whether a `Blocks` message is taken: it is addressed to this node and
/// its chain is higher than the local one.
pub fn accepts_blocks(local_height: usize, my_id: &str, to_addr: &str, height: usize) -> (res: bool)
    ensures
        res == (my_id@ == to_addr@ && local_height < height),
{
    my_id.to_owned() == to_addr.to_owned() && local_height < height
}

/// Handles a `Blocks` message: when it is taken, offers each block to the
/// local chain in order. Returns whether it was taken.
pub fn process_blocks_msg(
    bc: &mut Blockchain,
    my_id: &str,
    blocks: Vec<Block>,
    to_addr: &str,
    height: usize,
) -> (res: bool)
    requires
        old(bc).wf(),
    ensures
        final(bc).wf(),
        res == (my_id@ == to_addr@ && old(bc).blocks().len() - 1 < height),
        res ==> final(bc).blocks() == add_all(old(bc).blocks(), blocks@.map_values(|b: Block| b@)),
        !res ==> final(bc).blocks() == old(bc).blocks(),
{
    if !accepts_blocks(bc.get_height(), my_id, to_addr, height) {
        return false;
    }
    let ghost start = bc.blocks();
    let ghost models = blocks@.map_values(|b: Block| b@);
    let mut i: usize = 0;
    while i < blocks.len()
        invariant
            bc.wf(),
            i <= blocks@.len(),
            models == blocks@.map_values(|b: Block| b@),
            bc.blocks() == add_all(start, models.take(i as int)),
        decreases blocks.len() - i,
    {
        let block = blocks[i].duplicate();
        assert(block@ == models[i as int]);
        bc.add_block(block);
        assert(models.take(i as int + 1).drop_last() =~= models.take(i as int));
        i = i + 1;
    }
    assert(models.take(models.len() as int) =~= models);
    true
}

/// Handles a `Block` message: offers the block to the local chain.
/// Returns whether it was appended.
pub fn process_block_msg(bc: &mut Blockchain, block: Block) -> (res: bool)
    requires
        old(bc).wf(),
    ensures
        final(bc).wf(),
        final(bc).blocks() == add_all(old(bc).blocks(), seq![block@]),
        res == (final(bc).blocks().len() == old(bc).blocks().len() + 1),
{
    let ghost b = block@;
    let res = bc.add_block(block);
    assert(seq![b].drop_last() =~= Seq::<BlockModel>::empty());
    proof {
        reveal_with_fuel(add_all, 2);
    }
    res
}

/// Handles the `Genesis` command: when the node has no chain yet, starts
/// one whose genesis block holds `data`; a node that has a chain keeps it.
/// Returns whether a chain was started.
pub fn process_genesis(chain: &mut Option<Blockchain>, data: &str) -> (res: bool)
    requires
        *old(chain) matches Some(c) ==> c.wf(),
    ensures
        res == (*old(chain) is None),
        !res ==> *final(chain) == *old(chain),
        res ==> (*final(chain) matches Some(c) && c.wf() && c.blocks().len() == 1 && mined_on(
            Seq::empty(),
            data@,
            c.blocks()[0],
        )),
{
    if chain.is_some() {
        return false;
    }
    *chain = Some(Blockchain::with_genesis(data));
    true
}

/// Handles a `Blocks` message on a node that has no chain yet: when it is
/// addressed to this node and announces a height above zero, its blocks
/// become the local chain, provided they are linked.
pub fn adopt_blocks(my_id: &str, blocks: Vec<Block>, to_addr: &str, height: usize) -> (res: Option<Blockchain>)
    ensures
        res is Some <==> (my_id@ == to_addr@ && 0 < height && linked(blocks@.map_values(|b: Block| b@))),
        res matches Some(c) ==> c.wf() && c.blocks() == blocks@.map_values(|b: Block| b@),
{
    if !accepts_blocks(0, my_id, to_addr, height) {
        return None;
    }
    Blockchain::from_blocks(blocks)
}

} // verus!
