use blockchain_rust::block::MAX_NONCE;
use blockchain_rust::{Block, BlockHeader, Blockchain, ProofOfWork, CURR_BITS};
use crypto::digest::Digest;

fn header_digest(timestamp: i64, prev_hash: &str, bits: usize, nonce: usize) -> Vec<u8> {
    let bytes = bincode::serialize(&(timestamp, prev_hash.to_string(), bits, nonce)).unwrap();
    let mut hasher = crypto::sha3::Sha3::sha3_256();
    hasher.input(&bytes);
    let mut out = vec![0u8; 32];
    hasher.result(&mut out);
    out
}

fn below_target(digest: &[u8], bits: usize) -> bool {
    // The digest, read big-endian, is below 2^(256 - bits).
    let full = bits / 8;
    let rest = bits % 8;
    if digest[..full].iter().any(|b| *b != 0) {
        return false;
    }
    rest == 0 || digest[full] < (1u8 << (8 - rest))
}

#[test]
fn mined_block_takes_the_first_good_nonce() {
    let block = Block::new_at("hello", "prev", 8, 1_700_000_000);
    let header = block.get_header();
    assert_eq!(header.get_timestamp(), 1_700_000_000);
    assert_eq!(header.get_prev_hash(), "prev");
    assert_eq!(header.get_bits(), 8);
    assert_eq!(block.get_data(), "hello");
    let nonce = header.get_nonce();
    let digest = header_digest(1_700_000_000, "prev", 8, nonce);
    assert!(below_target(&digest, 8));
    assert_eq!(digest[0], 0);
    for n in 0..nonce {
        assert!(!below_target(&header_digest(1_700_000_000, "prev", 8, n), 8));
    }
    assert_eq!(block.get_hash(), blockchain_rust::codec::to_hex(&digest));
}

#[test]
fn proof_of_work_with_odd_difficulty() {
    let mut block = Block::from_parts(BlockHeader::from_parts(5, "p".to_string(), 3, 0), "d".to_string(), String::new());
    ProofOfWork::new(3).run(&mut block);
    let nonce = block.get_header().get_nonce();
    assert!(nonce < MAX_NONCE);
    let digest = header_digest(5, "p", 3, nonce);
    assert!(below_target(&digest, 3));
    for n in 0..nonce {
        assert!(!below_target(&header_digest(5, "p", 3, n), 3));
    }
    assert_eq!(block.get_hash(), blockchain_rust::codec::to_hex(&digest));
}

#[test]
fn genesis_block_has_no_previous_hash() {
    let genesis = Block::create_genesis_block(4);
    assert_eq!(genesis.get_header().get_prev_hash(), "");
    assert_eq!(genesis.get_data(), "创世区块");
    assert_eq!(genesis.get_hash().len(), 64);
}

#[test]
fn set_nonce_and_set_hash_replace_fields() {
    let mut block = Block::from_parts(BlockHeader::from_parts(1, "x".to_string(), 2, 3), "d".to_string(), "h".to_string());
    block.set_nonce(9);
    block.set_hash("k".to_string());
    assert_eq!(block.get_header().get_nonce(), 9);
    assert_eq!(block.get_header().get_prev_hash(), "x");
    assert_eq!(block.get_hash(), "k");
}

#[test]
fn mining_links_each_block_to_the_previous() {
    let mut bc = Blockchain::new();
    assert_eq!(bc.get_height(), 0);
    let genesis_hash = bc.get_tip();
    bc.mine_block("one");
    bc.mine_block("two");
    assert_eq!(bc.get_height(), 2);
    let blocks = bc.get_blocks();
    assert_eq!(blocks.len(), 3);
    assert_eq!(blocks[0].get_hash(), genesis_hash);
    assert_eq!(blocks[1].get_header().get_prev_hash(), blocks[0].get_hash());
    assert_eq!(blocks[2].get_header().get_prev_hash(), blocks[1].get_hash());
    assert_eq!(blocks[2].get_data(), "two");
    assert!(blocks.iter().all(|b| b.get_header().get_bits() == CURR_BITS));
    assert_eq!(bc.get_tip(), blocks[2].get_hash());
}

#[test]
fn add_block_accepts_only_a_successor() {
    let mut bc = Blockchain::new();
    let good = Block::new("next", &bc.get_tip(), CURR_BITS);
    let stray = Block::new("stray", "not-the-tip", CURR_BITS);
    let easy = Block::new("easy", &bc.get_tip(), 1);
    assert!(!bc.add_block(stray));
    assert!(!bc.add_block(easy));
    assert_eq!(bc.get_height(), 0);
    assert!(bc.add_block(good));
    assert_eq!(bc.get_height(), 1);
    assert_eq!(bc.get_blocks()[1].get_data(), "next");
}

#[test]
fn from_blocks_accepts_linked_chains_only() {
    let mut bc = Blockchain::new();
    bc.mine_block("a");
    let copies: Vec<Block> = bc.get_blocks().iter().map(|b| b.duplicate()).collect();
    let rebuilt = Blockchain::from_blocks(copies).expect("linked");
    assert_eq!(rebuilt.get_tip(), bc.get_tip());
    assert_eq!(rebuilt.get_height(), 1);

    let broken = vec![bc.get_blocks()[1].duplicate()];
    assert!(Blockchain::from_blocks(broken).is_none());
    assert!(Blockchain::from_blocks(vec![]).is_none());
}

#[test]
fn with_genesis_seals_the_given_data() {
    let bc = Blockchain::with_genesis("first");
    let genesis = &bc.get_blocks()[0];
    assert_eq!(bc.get_height(), 0);
    assert_eq!(genesis.get_data(), "first");
    assert_eq!(genesis.get_header().get_prev_hash(), "");
    assert_eq!(genesis.get_header().get_bits(), CURR_BITS);
    assert!(genesis.get_hash().starts_with("00"));
    assert_eq!(bc.get_tip(), genesis.get_hash());
    let rebuilt = Blockchain::from_blocks(vec![genesis.duplicate()]).expect("a lone genesis block links");
    assert_eq!(rebuilt.get_tip(), bc.get_tip());
}

#[test]
fn mined_blocks_of_eight_bits_have_a_zero_first_byte() {
    let mut bc = Blockchain::new();
    bc.mine_block("one");
    bc.mine_block("two");
    for block in bc.get_blocks() {
        assert!(block.get_hash().starts_with("00"));
    }
}
