use blockchain_rust::node::{
    accepts_blocks, adopt_blocks, process_block_msg, process_blocks_msg, process_genesis, process_version_msg,
};
use blockchain_rust::{Block, Blockchain, Messages, CURR_BITS};

#[test]
fn version_answered_only_by_a_higher_chain() {
    let mut bc = Blockchain::new();
    bc.mine_block("x");
    assert!(process_version_msg(&bc, 1, "peer".to_string()).is_none());
    assert!(process_version_msg(&bc, 5, "peer".to_string()).is_none());
    match process_version_msg(&bc, 0, "peer".to_string()) {
        Some(Messages::Blocks { blocks, height, to_addr }) => {
            assert_eq!(height, 1);
            assert_eq!(to_addr, "peer");
            assert_eq!(blocks.len(), 2);
            assert_eq!(blocks[1].get_hash(), bc.get_tip());
        }
        _ => panic!("expected blocks"),
    }
}

#[test]
fn blocks_taken_only_when_addressed_and_higher() {
    assert!(accepts_blocks(1, "me", "me", 2));
    assert!(!accepts_blocks(2, "me", "me", 2));
    assert!(!accepts_blocks(1, "me", "you", 5));
}

#[test]
fn blocks_message_extends_the_local_chain() {
    let mut remote = Blockchain::new();
    remote.mine_block("r1");
    remote.mine_block("r2");
    let blocks: Vec<Block> = remote.get_blocks().iter().map(|b| b.duplicate()).collect();

    let mut local = Blockchain::from_blocks(vec![remote.get_blocks()[0].duplicate()]).unwrap();
    let taken = process_blocks_msg(&mut local, "me", blocks, "me", 2);
    assert!(taken);
    assert_eq!(local.get_height(), 2);
    assert_eq!(local.get_tip(), remote.get_tip());

    let blocks: Vec<Block> = remote.get_blocks().iter().map(|b| b.duplicate()).collect();
    let mut other = Blockchain::new();
    assert!(!process_blocks_msg(&mut other, "me", blocks, "someone-else", 2));
    assert_eq!(other.get_height(), 0);
}

#[test]
fn block_message_appends_a_successor() {
    let mut bc = Blockchain::new();
    let next = Block::new("n", &bc.get_tip(), CURR_BITS);
    assert!(process_block_msg(&mut bc, next));
    let unrelated = Block::new("u", "elsewhere", CURR_BITS);
    assert!(!process_block_msg(&mut bc, unrelated));
    assert_eq!(bc.get_height(), 1);
}

#[test]
fn genesis_only_starts_a_missing_chain() {
    let mut chain: Option<Blockchain> = None;
    assert!(process_genesis(&mut chain, "coinbase for alice"));
    let bc = chain.as_ref().expect("started");
    assert_eq!(bc.get_height(), 0);
    assert_eq!(bc.get_blocks()[0].get_data(), "coinbase for alice");
    assert_eq!(bc.get_blocks()[0].get_header().get_prev_hash(), "");
    let tip = bc.get_tip();

    assert!(!process_genesis(&mut chain, "coinbase for bob"));
    let bc = chain.as_ref().expect("kept");
    assert_eq!(bc.get_tip(), tip);
    assert_eq!(bc.get_blocks()[0].get_data(), "coinbase for alice");
}

#[test]
fn blocks_adopted_by_an_empty_node_when_addressed_and_linked() {
    let mut remote = Blockchain::with_genesis("g");
    remote.mine_block("r1");
    let copies = || -> Vec<Block> { remote.get_blocks().iter().map(|b| b.duplicate()).collect() };

    let adopted = adopt_blocks("me", copies(), "me", 1).expect("adopted");
    assert_eq!(adopted.get_tip(), remote.get_tip());
    assert_eq!(adopted.get_height(), 1);

    assert!(adopt_blocks("me", copies(), "you", 1).is_none());
    assert!(adopt_blocks("me", copies(), "me", 0).is_none());
    let unlinked = vec![remote.get_blocks()[1].duplicate()];
    assert!(adopt_blocks("me", unlinked, "me", 1).is_none());
}
