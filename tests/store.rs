use finalized_sync::store::{DiskWriteBatch, WriteError, ZebraDb};
use finalized_sync::types::{
    Address, Block, BlockHash, HashOrHeight, Header, NoteCommitment, OutPoint, Output,
    Transaction, TransactionLocation, TxHash, ValueBalance, VerifiedBlock,
};

fn bh(n: u64) -> BlockHash {
    BlockHash(n, 7, 7, 7)
}

fn th(n: u64) -> TxHash {
    TxHash(n, 3, 3, 3)
}

fn addr(n: u64) -> Address {
    Address { kind: 1, hash_head: n, hash_mid: 0, hash_tail: 0 }
}

fn tx(inputs: Vec<OutPoint>, outputs: Vec<Output>) -> Transaction {
    Transaction {
        inputs,
        outputs,
        sprout_notes: Vec::new(),
        sapling_notes: Vec::new(),
        orchard_notes: Vec::new(),
        sprout_value_delta: 0,
        sapling_value_delta: 0,
        orchard_value_delta: 0,
    }
}

fn pay(value: u64, to: u64) -> Output {
    Output { value, address: addr(to) }
}

fn verified(height: u32, hash: BlockHash, prev: BlockHash, txs: Vec<Transaction>, hashes: Vec<TxHash>) -> VerifiedBlock {
    VerifiedBlock {
        block: Block {
            header: Header { previous_block_hash: prev, merkle_root: th(0), time: height },
            transactions: txs,
        },
        hash,
        height,
        transaction_hashes: hashes,
    }
}

fn zero() -> BlockHash {
    BlockHash(0, 0, 0, 0)
}

fn genesis() -> VerifiedBlock {
    verified(0, bh(100), zero(), vec![tx(vec![], vec![pay(50, 9)])], vec![th(100)])
}

fn store_with_genesis() -> ZebraDb {
    let mut db = ZebraDb::new();
    assert_eq!(db.write_block(&genesis()), Ok(bh(100)));
    db
}

#[test]
fn empty_store_then_genesis() {
    let mut db = ZebraDb::new();
    assert!(db.is_empty());
    assert_eq!(db.tip(), None);
    assert_eq!(db.finalized_tip_hash(), zero());
    assert_eq!(db.finalized_tip_height(), None);
    let g = genesis();
    assert_eq!(db.write_block(&g), Ok(bh(100)));
    assert!(!db.is_empty());
    assert_eq!(db.tip(), Some((0, bh(100))));
    assert_eq!(db.finalized_tip_hash(), bh(100));
    let b = db.block(HashOrHeight::Height(0)).unwrap();
    assert_eq!(b, g.block);
    assert_eq!(db.finalized_value_pool(), ValueBalance::zero());
    assert_eq!(db.utxo(OutPoint { hash: th(100), index: 0 }), None);
    assert_eq!(db.address_balance_location(addr(9)), None);
    assert!(db.sprout_tree_by_hash_or_height(HashOrHeight::Height(0)).unwrap().leaves.is_empty());
    assert!(db.sapling_tree_by_hash_or_height(HashOrHeight::Height(0)).unwrap().leaves.is_empty());
    assert!(db.orchard_tree_by_hash_or_height(HashOrHeight::Hash(bh(100))).unwrap().leaves.is_empty());
}

#[test]
fn second_block_creates_utxos_and_balances() {
    let mut db = store_with_genesis();
    let b1 = verified(1, bh(101), bh(100), vec![tx(vec![], vec![pay(30, 1), pay(20, 2)])], vec![th(1)]);
    assert_eq!(db.write_block(&b1), Ok(bh(101)));
    assert_eq!(db.tip(), Some((1, bh(101))));
    let u = db.utxo(OutPoint { hash: th(1), index: 1 }).unwrap();
    assert_eq!(u.output, pay(20, 2));
    assert_eq!(u.height, 1);
    assert!(u.from_coinbase);
    let loc = db.output_location(OutPoint { hash: th(1), index: 1 }).unwrap();
    assert_eq!(loc.transaction_location, TransactionLocation { height: 1, index: 0 });
    assert_eq!(loc.output_index, 1);
    assert_eq!(db.address_balance_location(addr(1)).unwrap().balance, 30);
    assert_eq!(db.address_balance_location(addr(2)).unwrap().balance, 20);
    assert_eq!(db.finalized_value_pool().transparent, 50);
}

#[test]
fn heights_and_hashes_round_trip() {
    let mut db = store_with_genesis();
    let b1 = verified(1, bh(101), bh(100), vec![tx(vec![], vec![pay(1, 1)])], vec![th(1)]);
    db.write_block(&b1).unwrap();
    for h in 0..2u32 {
        let x = db.hash(h).unwrap();
        assert_eq!(db.height(x), Some(h));
        assert_eq!(db.hash(db.height(x).unwrap()), Some(x));
        assert!(db.contains_height(h));
        assert!(db.contains_hash(x));
    }
    assert_eq!(db.hash(2), None);
    assert_eq!(db.height(bh(5)), None);
    assert!(!db.contains_height(2));
    assert!(!db.contains_hash(bh(5)));
}

#[test]
fn block_by_hash_equals_block_by_height() {
    let mut db = store_with_genesis();
    let b1 = verified(1, bh(101), bh(100), vec![tx(vec![], vec![pay(1, 1)]), tx(vec![], vec![])], vec![th(1), th(2)]);
    db.write_block(&b1).unwrap();
    let by_hash = db.block(HashOrHeight::Hash(bh(101)));
    let by_height = db.block(HashOrHeight::Height(db.height(bh(101)).unwrap()));
    assert!(by_hash.is_some());
    assert_eq!(by_hash, by_height);
    assert_eq!(db.block_header(HashOrHeight::Hash(bh(101))).unwrap(), b1.block.header);
    assert_eq!(db.block(HashOrHeight::Hash(bh(55))), None);
    assert_eq!(db.block(HashOrHeight::Height(7)), None);
    assert_eq!(db.tip_block().unwrap(), b1.block);
}

#[test]
fn transaction_hashes_follow_block_order() {
    let mut db = store_with_genesis();
    let b1 = verified(
        1,
        bh(101),
        bh(100),
        vec![tx(vec![], vec![pay(1, 1)]), tx(vec![], vec![]), tx(vec![], vec![])],
        vec![th(1), th(2), th(3)],
    );
    db.write_block(&b1).unwrap();
    let hashes = db.transaction_hashes_for_block(HashOrHeight::Height(1)).unwrap();
    assert_eq!(hashes, vec![th(1), th(2), th(3)]);
    assert_eq!(hashes.len(), db.block(HashOrHeight::Height(1)).unwrap().transactions.len());
    assert_eq!(db.transaction_hashes_for_block(HashOrHeight::Hash(bh(100))).unwrap(), vec![th(100)]);
    assert_eq!(db.transaction_hashes_for_block(HashOrHeight::Height(2)), None);
    assert_eq!(db.transaction_location(th(2)), Some(TransactionLocation { height: 1, index: 1 }));
    assert_eq!(db.transaction_hash(TransactionLocation { height: 1, index: 2 }), Some(th(3)));
    assert_eq!(db.transaction_hash(TransactionLocation { height: 1, index: 3 }), None);
    let (t, h) = db.transaction(th(3)).unwrap();
    assert_eq!(h, 1);
    assert_eq!(t, b1.block.transactions[2]);
    assert_eq!(db.transaction(th(77)), None);
    assert_eq!(db.transaction_location(th(77)), None);
}

#[test]
fn intra_block_spend() {
    let mut db = store_with_genesis();
    let tx1 = tx(vec![], vec![pay(10, 1)]);
    let tx2 = tx(vec![OutPoint { hash: th(1), index: 0 }], vec![pay(10, 2)]);
    let b1 = verified(1, bh(101), bh(100), vec![tx1, tx2], vec![th(1), th(2)]);
    assert_eq!(db.write_block(&b1), Ok(bh(101)));
    assert_eq!(db.utxo(OutPoint { hash: th(1), index: 0 }), None);
    assert_eq!(db.utxo(OutPoint { hash: th(2), index: 0 }).unwrap().output, pay(10, 2));
    assert_eq!(db.address_balance_location(addr(1)).unwrap().balance, 0);
    assert_eq!(db.address_balance_location(addr(2)).unwrap().balance, 10);
    assert_eq!(db.finalized_value_pool().transparent, 10);
}

#[test]
fn spend_across_blocks_updates_balances() {
    let mut db = store_with_genesis();
    let b1 = verified(1, bh(101), bh(100), vec![tx(vec![], vec![pay(40, 1), pay(5, 1)])], vec![th(1)]);
    db.write_block(&b1).unwrap();
    assert_eq!(db.address_balance_location(addr(1)).unwrap().balance, 45);
    let spend = tx(vec![OutPoint { hash: th(1), index: 0 }], vec![pay(25, 3), pay(15, 1)]);
    let b2 = verified(2, bh(102), bh(101), vec![tx(vec![], vec![]), spend], vec![th(2), th(3)]);
    assert_eq!(db.write_block(&b2), Ok(bh(102)));
    let first = db.address_balance_location(addr(1)).unwrap();
    assert_eq!(first.balance, 20);
    assert_eq!(first.location.transaction_location, TransactionLocation { height: 1, index: 0 });
    assert_eq!(db.address_balance_location(addr(3)).unwrap().balance, 25);
    assert_eq!(db.finalized_value_pool().transparent, 45);
    assert!(!db.utxo(OutPoint { hash: th(3), index: 0 }).unwrap().from_coinbase);
}

#[test]
fn writing_the_same_block_twice_is_refused() {
    let mut db = ZebraDb::new();
    assert_eq!(db.write_block(&genesis()), Ok(bh(100)));
    assert_eq!(db.write_block(&genesis()), Err(WriteError::WrongHeight));
    let again = verified(1, bh(100), bh(100), vec![], vec![]);
    assert_eq!(db.write_block(&again), Err(WriteError::DuplicateBlock));
    assert_eq!(db.tip(), Some((0, bh(100))));
}

#[test]
fn wrong_height_and_parent_are_refused() {
    let mut db = ZebraDb::new();
    let early = verified(1, bh(101), bh(100), vec![], vec![]);
    assert_eq!(db.write_block(&early), Err(WriteError::WrongHeight));
    let not_genesis = verified(0, bh(100), bh(5), vec![], vec![]);
    assert_eq!(db.write_block(&not_genesis), Err(WriteError::WrongParent));
    db.write_block(&genesis()).unwrap();
    let orphan = verified(1, bh(101), bh(99), vec![], vec![]);
    assert_eq!(db.write_block(&orphan), Err(WriteError::WrongParent));
    assert!(db.is_empty() == false);
}

#[test]
fn transaction_hash_count_mismatch_is_refused() {
    let mut db = ZebraDb::new();
    let g = verified(0, bh(100), zero(), vec![tx(vec![], vec![])], vec![]);
    assert_eq!(db.write_block(&g), Err(WriteError::TransactionHashCountMismatch));
    assert!(db.is_empty());
}

#[test]
fn shielded_pools_and_trees_grow() {
    let mut db = store_with_genesis();
    let mut t = tx(vec![], vec![]);
    t.sapling_notes = vec![NoteCommitment(1, 0, 0, 0), NoteCommitment(2, 0, 0, 0)];
    t.orchard_notes = vec![NoteCommitment(3, 0, 0, 0)];
    t.sapling_value_delta = 70;
    t.sprout_value_delta = 5;
    let b1 = verified(1, bh(101), bh(100), vec![t], vec![th(1)]);
    db.write_block(&b1).unwrap();
    let mut u = tx(vec![], vec![]);
    u.sapling_notes = vec![NoteCommitment(4, 0, 0, 0)];
    u.sapling_value_delta = -20;
    let b2 = verified(2, bh(102), bh(101), vec![u], vec![th(2)]);
    db.write_block(&b2).unwrap();
    let pool = db.finalized_value_pool();
    assert_eq!(pool.sapling, 50);
    assert_eq!(pool.sprout, 5);
    assert_eq!(pool.orchard, 0);
    let s1 = db.sapling_tree_by_hash_or_height(HashOrHeight::Height(1)).unwrap();
    let s2 = db.sapling_tree_by_hash_or_height(HashOrHeight::Hash(bh(102))).unwrap();
    assert_eq!(s1.leaves, vec![NoteCommitment(1, 0, 0, 0), NoteCommitment(2, 0, 0, 0)]);
    assert_eq!(s2.leaves, vec![NoteCommitment(1, 0, 0, 0), NoteCommitment(2, 0, 0, 0), NoteCommitment(4, 0, 0, 0)]);
    assert_eq!(db.orchard_tree_by_hash_or_height(HashOrHeight::Height(2)).unwrap().leaves, vec![NoteCommitment(3, 0, 0, 0)]);
    assert!(db.sprout_tree_by_hash_or_height(HashOrHeight::Height(2)).unwrap().leaves.is_empty());
}

#[test]
fn balances_sum_to_utxo_total() {
    let mut db = store_with_genesis();
    let b1 = verified(1, bh(101), bh(100), vec![tx(vec![], vec![pay(7, 1), pay(8, 2), pay(9, 1)])], vec![th(1)]);
    db.write_block(&b1).unwrap();
    let spend = tx(vec![OutPoint { hash: th(1), index: 2 }], vec![pay(4, 3)]);
    let b2 = verified(2, bh(102), bh(101), vec![spend], vec![th(2)]);
    db.write_block(&b2).unwrap();
    let total: u128 = [1, 2, 3]
        .iter()
        .map(|a| db.address_balance_location(addr(*a)).unwrap().balance)
        .sum();
    assert_eq!(total, 19);
    assert_eq!(db.finalized_value_pool().transparent, 19);
    for h in 0..3u32 {
        assert!(db.contains_height(h));
    }
}

#[test]
fn all_zeros_block_hash_is_reserved() {
    let mut db = ZebraDb::new();
    let g = verified(0, zero(), zero(), vec![], vec![]);
    assert_eq!(db.write_block(&g), Err(WriteError::ReservedHash));
    assert!(db.is_empty());
}

#[test]
fn repeated_transaction_hash_is_refused() {
    let mut db = ZebraDb::new();
    let g = verified(0, bh(100), zero(), vec![tx(vec![], vec![]), tx(vec![], vec![])], vec![th(5), th(5)]);
    assert_eq!(db.write_block(&g), Err(WriteError::DuplicateTransaction));
    db.write_block(&genesis()).unwrap();
    let b1 = verified(1, bh(101), bh(100), vec![tx(vec![], vec![])], vec![th(100)]);
    assert_eq!(db.write_block(&b1), Err(WriteError::DuplicateTransaction));
    assert_eq!(db.tip(), Some((0, bh(100))));
}

#[test]
fn genesis_is_named_by_its_previous_hash() {
    let db = store_with_genesis();
    let after = verified(1, bh(101), zero(), vec![], vec![]);
    let batch = DiskWriteBatch::prepare_block_header_and_transaction_data_batch(&db, &after);
    assert!(batch.prepare_genesis_batch(&after));
    let next = verified(1, bh(101), bh(100), vec![], vec![]);
    assert!(!batch.prepare_genesis_batch(&next));
}

#[test]
fn transaction_location_inverts_transaction_hash() {
    let mut db = store_with_genesis();
    let b1 = verified(1, bh(101), bh(100), vec![tx(vec![], vec![pay(1, 1)]), tx(vec![], vec![])], vec![th(1), th(2)]);
    db.write_block(&b1).unwrap();
    for (height, index) in [(0u32, 0usize), (1, 0), (1, 1)] {
        let loc = TransactionLocation { height, index };
        let hash = db.transaction_hash(loc).unwrap();
        assert_eq!(db.transaction_location(hash), Some(loc));
    }
}

#[test]
fn genesis_leaves_balances_untouched() {
    let db = store_with_genesis();
    assert_eq!(db.address_balance_location(addr(9)), None);
    assert_eq!(db.height(bh(100)), Some(0));
    assert_eq!(db.block_header(HashOrHeight::Hash(bh(100))).unwrap(), genesis().block.header);
}
