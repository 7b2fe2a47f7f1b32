use rust_blockchain::block::Block;
use rust_blockchain::block::BLOCK_DIFFICULTY;
use rust_blockchain::block::GENESIS_BLOCK_DATA;
use rust_blockchain::block::GENESIS_BLOCK_HASH;
use rust_blockchain::block::GENESIS_BLOCK_TIME;
use rust_blockchain::block::GENESIS_PREV_HASH;
use rust_blockchain::blockchain::Chain;
use rust_blockchain::digest::hasher;
use rust_blockchain::error::BlockchainError;
use rust_blockchain::store::ChainStore;

/// A block that links to `prev` and carries the hash of its fields.
fn next_block(prev: &Block, data: &str) -> Block {
    let timestamp = 1_700_000_000 + prev.id;
    let nonce = 3;
    Block {
        hash: hasher(&prev.hash, data, timestamp, nonce),
        id: prev.id + 1,
        prev_hash: prev.hash.clone(),
        timestamp,
        nonce,
        data: data.to_owned(),
    }
}

fn chain_of(payloads: &[&str]) -> (ChainStore, Chain) {
    let mut store = ChainStore::new();
    let mut chain = Chain::init(&mut store).unwrap();
    for data in payloads {
        let block = next_block(&chain.latest_block, data);
        chain.add_block(&mut store, block).unwrap();
    }
    (store, chain)
}

fn cause_of(verdict: Result<(), BlockchainError>) -> BlockchainError {
    match verdict {
        Err(BlockchainError::ChainInvalid(cause)) => *cause,
        other => panic!("expected an invalid chain, got {:?}", other),
    }
}

#[test]
fn the_genesis_block_is_fixed() {
    let genesis = Block::create_genesis();
    assert_eq!(genesis.hash, "0A31F6A1DB36EEDF9AA5C56AB90DCC76A3ABD90C77B1198336FD1AE512193F");
    assert_eq!(genesis.hash.len(), 62);
    assert_eq!(genesis.hash, GENESIS_BLOCK_HASH);
    assert_eq!(genesis.id, 0);
    assert_eq!(genesis.prev_hash, "null");
    assert_eq!(genesis.prev_hash, GENESIS_PREV_HASH);
    assert_eq!(genesis.timestamp, 0);
    assert_eq!(genesis.timestamp, GENESIS_BLOCK_TIME);
    assert_eq!(genesis.nonce, 0);
    assert_eq!(genesis.data, GENESIS_BLOCK_DATA);
    assert_eq!(BLOCK_DIFFICULTY, "00");
    assert_eq!(Block::create_genesis(), genesis);
}

#[test]
fn genesis_only() {
    let mut store = ChainStore::new();
    let chain = Chain::init(&mut store).unwrap();
    assert_eq!(store.count(), 1);
    assert_eq!(
        chain.latest_block.hash,
        "0A31F6A1DB36EEDF9AA5C56AB90DCC76A3ABD90C77B1198336FD1AE512193F"
    );
    assert_eq!(chain.latest_block.id, 0);
    assert!(chain.validate_chain(&store).is_ok());
}

#[test]
fn mine_three() {
    let mut store = ChainStore::new();
    let mut chain = Chain::init(&mut store).unwrap();
    let genesis = chain.latest_block.clone();
    let block1 = chain.mine_block("new block 1".to_owned(), &mut store).unwrap();
    let block2 = chain.mine_block("new block 2".to_owned(), &mut store).unwrap();
    let block3 = chain.mine_block("new block 3".to_owned(), &mut store).unwrap();

    assert_eq!(chain.latest_block.id, 3);
    assert_eq!(chain.latest_block.data, "new block 3");
    assert_eq!(block1.prev_hash, genesis.hash);
    assert_eq!(block2.prev_hash, block1.hash);
    assert_eq!(block3.prev_hash, block2.hash);
    for block in [&block1, &block2, &block3] {
        assert_eq!(block.hash, hasher(&block.prev_hash, &block.data, block.timestamp, block.nonce));
        assert!(block.hash.starts_with("00"));
        assert!(block.nonce >= 1);
    }
    assert_eq!(store.get_ordered(), vec![genesis, block1, block2, block3]);
    assert!(chain.validate_chain(&store).is_ok());
}

#[test]
fn tampered_block() {
    let (mut store, chain) = chain_of(&["new block 1", "new block 2", "new block 3"]);
    let second = store.get_ordered()[2].clone();
    assert_eq!(second.id, 2);
    assert!(store.overwrite_data(&second.hash, "invalid data".to_owned()));
    let cause = cause_of(chain.validate_chain(&store));
    assert!(matches!(cause, BlockchainError::BlockInvalid(hash) if hash == second.hash));
}

#[test]
fn forged_block() {
    let (store, _) = chain_of(&["new block 1", "new block 2"]);
    let blocks = store.get_ordered();
    let forged = Block {
        id: 1,
        data: "x".to_owned(),
        timestamp: 12345,
        nonce: 123,
        prev_hash: blocks[1].hash.clone(),
        hash: blocks[2].hash.clone(),
    };
    assert!(matches!(
        Chain::check_if_block_valid(&store, &forged),
        Err(BlockchainError::BlockInvalid(hash)) if hash == blocks[2].hash
    ));
}

#[test]
fn a_block_with_a_wrong_hash_is_invalid() {
    let (store, chain) = chain_of(&["one"]);
    let mut block = next_block(&chain.latest_block, "two");
    block.nonce += 1;
    assert!(matches!(
        Chain::check_if_block_valid(&store, &block),
        Err(BlockchainError::BlockInvalid(hash)) if hash == block.hash
    ));
    block.nonce -= 1;
    assert!(Chain::check_if_block_valid(&store, &block).is_ok());
}

#[test]
fn the_genesis_block_is_valid_in_any_store() {
    let store = ChainStore::new();
    assert!(Chain::check_if_block_valid(&store, &Block::create_genesis()).is_ok());
    let mut other = Block::create_genesis();
    other.id = 1;
    assert!(matches!(
        Chain::check_if_block_valid(&store, &other),
        Err(BlockchainError::BlockNotFound(hash)) if hash == "null"
    ));
}

#[test]
fn a_block_with_the_least_id_is_invalid_not_a_panic() {
    let (store, chain) = chain_of(&[]);
    let mut block = next_block(&chain.latest_block, "one");
    block.id = i64::MIN;
    assert!(matches!(
        Chain::check_if_block_valid(&store, &block),
        Err(BlockchainError::BlockInvalid(_))
    ));
}

#[test]
fn adding_a_block_whose_predecessor_is_not_stored_fails() {
    let (mut store, mut chain) = chain_of(&["one"]);
    let latest = chain.latest_block.clone();
    let mut block = next_block(&latest, "two");
    block.prev_hash = "FFFF".to_owned();
    block.hash = hasher(&block.prev_hash, &block.data, block.timestamp, block.nonce);
    assert!(matches!(
        chain.add_block(&mut store, block),
        Err(BlockchainError::BlockNotFound(hash)) if hash == "FFFF"
    ));
    assert_eq!(store.count(), 2);
    assert_eq!(chain.latest_block, latest);
}

#[test]
fn adding_a_valid_block_moves_the_handle() {
    let (mut store, mut chain) = chain_of(&["one"]);
    let block = next_block(&chain.latest_block, "two");
    assert!(chain.add_block(&mut store, block.clone()).is_ok());
    assert_eq!(chain.latest_block, block);
    assert_eq!(store.count(), 3);
    assert_eq!(store.get_latest(), Some(&block));
}

#[test]
fn adding_a_block_twice_is_refused_by_the_store() {
    let (mut store, mut chain) = chain_of(&["one"]);
    let again = chain.latest_block.clone();
    assert!(matches!(
        chain.add_block(&mut store, again),
        Err(BlockchainError::DatabaseError(text)) if text == "duplicate hash"
    ));
    let mut fork = next_block(&store.get_ordered()[0], "fork");
    fork.id = 5;
    assert!(matches!(
        chain.add_block(&mut store, fork),
        Err(BlockchainError::BlockInvalid(_))
    ));
    assert_eq!(store.count(), 2);
}

#[test]
fn a_second_successor_of_a_block_is_refused() {
    let (mut store, mut chain) = chain_of(&["one", "two"]);
    let blocks = store.get_ordered();
    let mut fork = next_block(&blocks[1], "fork");
    fork.id = 2;
    assert!(Chain::check_if_block_valid(&store, &fork).is_ok());
    assert!(matches!(
        chain.add_block(&mut store, fork),
        Err(BlockchainError::DatabaseError(text)) if text == "duplicate id"
    ));
    assert_eq!(store.get_ordered(), blocks);
}

#[test]
fn a_chain_with_too_few_blocks_is_invalid() {
    let (store, mut chain) = chain_of(&["one", "two"]);
    chain.latest_block.id = 7;
    let cause = cause_of(chain.validate_chain(&store));
    assert!(matches!(
        cause,
        BlockchainError::Error(text) if text == "number of blocks != ID of latest block + 1"
    ));
}

#[test]
fn a_handle_on_a_block_that_is_not_stored_is_invalid() {
    let (store, mut chain) = chain_of(&["one"]);
    chain.latest_block.hash = "ABC".to_owned();
    let cause = cause_of(chain.validate_chain(&store));
    assert!(matches!(cause, BlockchainError::BlockNotFound(hash) if hash == "ABC"));

    let empty = ChainStore::new();
    let mut handle = Chain::build(Block::create_genesis());
    handle.latest_block.id = -1;
    let cause = cause_of(handle.validate_chain(&empty));
    assert!(matches!(cause, BlockchainError::BlockNotFound(hash) if hash == GENESIS_BLOCK_HASH));
}

#[test]
fn a_walk_that_ends_early_has_a_wrong_length() {
    // Two rows, and a handle on the genesis block with the id of the second.
    let (store, chain) = chain_of(&["one"]);
    let mut handle = Chain::build(Block::create_genesis());
    handle.latest_block.id = 1;
    let cause = cause_of(handle.validate_chain(&store));
    assert!(matches!(cause, BlockchainError::Error(text) if text == "invalid chain length."));
    assert!(chain.validate_chain(&store).is_ok());
}

#[test]
fn a_chain_whose_first_block_has_another_hash_is_invalid() {
    let mut store = ChainStore::new();
    let mut below = Block::create_genesis();
    below.id = -1;
    below.hash = "BELOW".to_owned();
    let first = next_block(&below, "first");
    assert_eq!(first.id, 0);
    let mut blocks = vec![first.clone()];
    store.replace_all(&mut blocks).unwrap();
    // The predecessor of the first block is missing.
    let cause = cause_of(Chain::build(first).validate_chain(&store));
    assert!(matches!(cause, BlockchainError::BlockNotFound(hash) if hash == "BELOW"));
}

#[test]
fn update_replaces_the_chain_and_moves_the_handle() {
    let (source, source_chain) = chain_of(&["one", "two", "three"]);
    let (mut store, mut chain) = chain_of(&["other"]);
    let mut incoming = source.get_ordered();
    incoming.reverse();
    assert!(chain.update(&mut store, &mut incoming).is_ok());
    assert_eq!(store.get_ordered(), source.get_ordered());
    assert_eq!(incoming, source.get_ordered());
    assert_eq!(chain.latest_block, source_chain.latest_block);
    assert!(chain.validate_chain(&store).is_ok());
}

#[test]
fn update_with_a_refused_chain_changes_nothing() {
    let (mut store, mut chain) = chain_of(&["one"]);
    let before = store.get_ordered();
    let latest = chain.latest_block.clone();
    let mut incoming = vec![before[0].clone(), before[0].clone()];
    assert!(matches!(
        chain.update(&mut store, &mut incoming),
        Err(BlockchainError::DatabaseError(_))
    ));
    assert_eq!(store.get_ordered(), before);
    assert_eq!(chain.latest_block, latest);
}

#[test]
fn update_with_no_blocks_changes_nothing() {
    let (mut store, mut chain) = chain_of(&["one"]);
    let before = store.get_ordered();
    let latest = chain.latest_block.clone();
    let mut incoming: Vec<Block> = Vec::new();
    assert!(matches!(
        chain.update(&mut store, &mut incoming),
        Err(BlockchainError::Error(text)) if text == "received chain is not longer."
    ));
    assert_eq!(store.get_ordered(), before);
    assert_eq!(chain.latest_block, latest);
}

#[test]
fn reads_of_the_chain_go_to_the_store() {
    let (store, chain) = chain_of(&["one", "two"]);
    assert_eq!(Chain::get_chain(&store).unwrap(), store.get_ordered());
    assert_eq!(Chain::get_latest_block(&store).unwrap(), chain.latest_block);
    assert_eq!(Chain::get_block(&store, &chain.latest_block.hash).unwrap(), chain.latest_block);
    assert!(matches!(
        Chain::get_block(&store, "nope"),
        Err(BlockchainError::BlockNotFound(hash)) if hash == "nope"
    ));
    assert!(matches!(
        Chain::get_latest_block(&ChainStore::new()),
        Err(BlockchainError::DatabaseError(text)) if text == "no blocks stored"
    ));
}

#[test]
fn a_second_genesis_block_is_refused() {
    let mut store = ChainStore::new();
    let _ = Chain::new(&mut store).unwrap();
    assert!(matches!(
        Chain::new(&mut store),
        Err(BlockchainError::DatabaseError(text)) if text == "duplicate hash"
    ));
    assert_eq!(store.count(), 1);
}

#[test]
fn mining_with_a_given_timestamp_links_to_the_predecessor() {
    let genesis = Block::create_genesis();
    let block = Block::mine(&genesis, "payload".to_owned(), 1_650_000_000, 2).unwrap();
    assert_eq!(block.id, 1);
    assert_eq!(block.prev_hash, genesis.hash);
    assert_eq!(block.data, "payload");
    assert_eq!(block.timestamp, 1_650_000_000);
    assert!(block.nonce >= 1);
    assert!(block.hash.starts_with(BLOCK_DIFFICULTY));
    assert_eq!(block.hash, hasher(&genesis.hash, "payload", 1_650_000_000, block.nonce));
}

#[test]
fn nothing_is_mined_on_the_last_id() {
    let mut last = Block::create_genesis();
    last.id = i64::MAX;
    assert!(Block::mine(&last, "payload".to_owned(), 1, 1).is_none());
    assert!(Block::new(&last, "payload".to_owned()).is_none());
}

#[test]
fn accepting_no_block_is_an_error() {
    let (mut store, mut chain) = chain_of(&[]);
    let latest = chain.latest_block.clone();
    assert!(matches!(
        chain.accept_mined(None, &mut store),
        Err(BlockchainError::Error(text)) if text == "no nonce solves the block"
    ));
    assert_eq!(chain.latest_block, latest);
    let block = next_block(&latest, "one");
    assert_eq!(chain.accept_mined(Some(block.clone()), &mut store).unwrap(), block);
    assert_eq!(chain.latest_block, block);
    assert!(matches!(
        chain.accept_mined(Some(block.clone()), &mut store),
        Err(BlockchainError::DatabaseError(_))
    ));
}

#[test]
fn a_clone_of_a_chain_stands_on_the_same_block() {
    let (_, chain) = chain_of(&["one"]);
    assert_eq!(chain.clone().latest_block, chain.latest_block);
}

#[test]
fn update_says_why_a_chain_is_not_taken() {
    let (mut store, mut chain) = chain_of(&["one", "two"]);
    let before = store.get_ordered();

    let mut shorter = chain_of(&["other"]).0.get_ordered();
    assert!(matches!(
        chain.update(&mut store, &mut shorter),
        Err(BlockchainError::Error(text)) if text == "received chain is not longer."
    ));

    let mut nothing: Vec<Block> = Vec::new();
    assert!(matches!(
        chain.update(&mut store, &mut nothing),
        Err(BlockchainError::Error(text)) if text == "received chain is not longer."
    ));

    let mut doubled = chain_of(&["a", "b", "c"]).0.get_ordered();
    doubled.push(doubled[1].clone());
    assert!(matches!(
        chain.update(&mut store, &mut doubled),
        Err(BlockchainError::DatabaseError(text)) if text == "duplicate hash"
    ));

    let mut forged = chain_of(&["a", "b", "c"]).0.get_ordered();
    let changed = forged[1].hash.clone();
    forged[1].nonce += 1;
    match chain.update(&mut store, &mut forged) {
        Err(BlockchainError::ChainInvalid(cause)) => {
            assert!(matches!(*cause, BlockchainError::BlockInvalid(hash) if hash == changed));
        }
        other => panic!("expected an invalid chain, got {:?}", other),
    }

    let mut gap = chain_of(&["a", "b", "c"]).0.get_ordered();
    gap.remove(1);
    match chain.update(&mut store, &mut gap) {
        Err(BlockchainError::ChainInvalid(cause)) => assert!(matches!(
            *cause,
            BlockchainError::Error(text) if text == "number of blocks != ID of latest block + 1"
        )),
        other => panic!("expected an invalid chain, got {:?}", other),
    }

    assert_eq!(store.get_ordered(), before);
    assert_eq!(chain.latest_block, before[2]);
}

#[test]
fn update_takes_a_longer_valid_chain() {
    let (mut store, mut chain) = chain_of(&["one"]);
    let (longer, longer_chain) = chain_of(&["a", "b"]);
    let mut incoming = longer.get_ordered();
    incoming.reverse();
    assert!(chain.update(&mut store, &mut incoming).is_ok());
    assert_eq!(store.get_ordered(), longer.get_ordered());
    assert_eq!(incoming, longer.get_ordered());
    assert_eq!(chain.latest_block, longer_chain.latest_block);
}
