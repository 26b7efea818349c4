//! Chain integrity, height bookkeeping, archiving, and the strict /
//! clamping block-range queries.

use token_ledger::{
    get_blocks, iter_blocks, tip_of_chain, AccountIdentifier, Block, Blockchain, ChainError,
    EncodedBlock, Memo, Operation, TimeStamp, TOKENs, Transaction,
};

fn mint_tx(to: u64, amount: u64, at: u64) -> Transaction {
    Transaction {
        operation: Operation::Mint { to: AccountIdentifier(to), amount: TOKENs::from_e8s(amount) },
        memo: Memo(0),
        created_at_time: TimeStamp::from_nanos(at),
    }
}

fn grow_chain(chain: &mut Blockchain, n: u64) {
    for i in 0..n {
        let block = Block::new_from_transaction(
            chain.last_hash(),
            mint_tx(i, i + 1, i),
            TimeStamp::from_nanos(i),
        );
        let height = chain.add_block(block).unwrap();
        assert_eq!(height, chain.chain_length() - 1);
    }
}

#[test]
fn chain_links_blocks_by_hash() {
    let mut chain = Blockchain::default();
    grow_chain(&mut chain, 5);
    // the tip hash is the hash of the last block's bytes
    let last = chain.last().unwrap();
    assert!(chain.last_hash().unwrap().same_hash(&last.hash()));
    // each block names the hash of the one before it as its parent
    for h in 1..5u64 {
        let prev_hash = chain.get(h - 1).unwrap().hash();
        let block = chain.get(h).unwrap().decode().unwrap();
        assert!(block.parent_hash.unwrap().same_hash(&prev_hash));
    }
    let genesis = chain.get(0).unwrap().decode().unwrap();
    assert!(genesis.parent_hash.is_none());
}

#[test]
fn heights_increase_one_by_one() {
    let mut chain = Blockchain::default();
    for i in 0..10u64 {
        let block = Block::new_from_transaction(
            chain.last_hash(),
            mint_tx(i, 1, i),
            TimeStamp::from_nanos(i),
        );
        assert_eq!(chain.add_block(block).unwrap(), i);
        assert_eq!(
            chain.num_archived_blocks() + chain.num_unarchived_blocks(),
            chain.chain_length()
        );
    }
}

#[test]
fn add_block_rejects_wrong_parent() {
    let mut chain = Blockchain::default();
    grow_chain(&mut chain, 2);
    // a parent of `None` no longer matches the tip
    let orphan = Block::new_from_transaction(None, mint_tx(9, 9, 9), TimeStamp::from_nanos(9));
    assert_eq!(chain.add_block(orphan), Err(ChainError::ParentHashMismatch));
    assert_eq!(chain.chain_length(), 2);
}

#[test]
fn add_block_rejects_timestamp_regression() {
    let mut chain = Blockchain::default();
    grow_chain(&mut chain, 3);
    let stale = Block::new_from_transaction(
        chain.last_hash(),
        mint_tx(9, 9, 9),
        TimeStamp::from_nanos(1),
    );
    assert_eq!(chain.add_block(stale), Err(ChainError::TimestampRegression));
}

#[test]
fn archiving_takes_the_oldest_and_keeps_heights() {
    let mut chain = Blockchain::default();
    grow_chain(&mut chain, 2500);
    let batch = chain.get_blocks_for_archiving(2000, 1000);
    assert_eq!(batch.len(), 1000);
    // the batch is the oldest 1000 blocks, in order
    let expected_first = chain.get(0).unwrap().clone();
    assert_eq!(batch[0], expected_first);
    let expected_last = chain.get(999).unwrap().clone();
    assert_eq!(batch[999], expected_last);
    let kept = chain.get(1000).unwrap().clone();

    chain.remove_archived_blocks(1000);
    assert_eq!(chain.num_archived_blocks(), 1000);
    assert_eq!(chain.num_unarchived_blocks(), 1500);
    assert_eq!(chain.chain_length(), 2500);
    // an archived height is no longer found locally
    assert!(chain.get(999).is_none());
    // a live height still returns the correct block
    assert_eq!(*chain.get(1000).unwrap(), kept);
}

#[test]
fn archiving_needs_the_trigger_threshold() {
    let mut chain = Blockchain::default();
    grow_chain(&mut chain, 1999);
    assert!(chain.get_blocks_for_archiving(2000, 1000).is_empty());
    // at the threshold the batch is capped by what is live
    let batch = chain.get_blocks_for_archiving(1999, 5000);
    assert_eq!(batch.len(), 1999);
}

#[test]
fn get_blocks_is_strict_about_the_range() {
    let mut chain = Blockchain::default();
    grow_chain(&mut chain, 10);
    chain.remove_archived_blocks(4);
    let blocks: &[EncodedBlock] = chain.blocks();
    // stored heights are [4 .. 9]
    let ok = get_blocks(blocks, 4, 5, 3).0.unwrap();
    assert_eq!(ok.len(), 3);
    assert_eq!(ok[0], *chain.get(5).unwrap());
    // below the stored range
    assert!(get_blocks(blocks, 4, 3, 2).0.is_err());
    // past the stored range
    assert!(get_blocks(blocks, 4, 8, 3).0.is_err());
    // exactly the stored range
    assert!(get_blocks(blocks, 4, 4, 6).0.is_ok());
}

#[test]
fn iter_blocks_clamps_silently() {
    let mut chain = Blockchain::default();
    grow_chain(&mut chain, 6);
    let blocks: &[EncodedBlock] = chain.blocks();
    assert_eq!(iter_blocks(blocks, 0, 3).0.len(), 3);
    // the end clamps to what is stored
    assert_eq!(iter_blocks(blocks, 4, 10).0.len(), 2);
    // the start clamps too
    assert_eq!(iter_blocks(blocks, 100, 5).0.len(), 0);
    assert_eq!(iter_blocks(blocks, 2, 2).0[0], *chain.get(2).unwrap());
}

#[test]
fn tip_of_chain_reports_the_last_height() {
    let mut chain = Blockchain::default();
    grow_chain(&mut chain, 7);
    let res = tip_of_chain(&chain, Some(vec![1, 2, 3]));
    assert_eq!(res.tip_index, 6);
    assert_eq!(res.certification, Some(vec![1, 2, 3]));
}
