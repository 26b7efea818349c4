//! The canonical block encoding round-trips exactly, and content
//! hashes are real SHA-256 digests of the encoded bytes.

use token_ledger::{
    AccountIdentifier, Block, CodecError, EncodedBlock, Memo, Operation, TimeStamp, TOKENs,
    Transaction,
};

fn transfer_tx() -> Transaction {
    Transaction {
        operation: Operation::Transfer {
            from: AccountIdentifier(7),
            to: AccountIdentifier(9),
            amount: TOKENs::from_e8s(1_000),
            fee: TOKENs::from_e8s(10),
        },
        memo: Memo(0xdead_beef),
        created_at_time: TimeStamp::from_nanos(123_456_789),
    }
}

#[test]
fn encode_decode_round_trip_genesis() {
    let block = Block::new_from_transaction(None, transfer_tx(), TimeStamp::from_nanos(42));
    let encoded = block.clone().encode().unwrap();
    let decoded = encoded.decode().unwrap();
    assert_eq!(decoded, block);
}

#[test]
fn encode_decode_round_trip_with_parent() {
    let genesis = Block::new_from_transaction(None, transfer_tx(), TimeStamp::from_nanos(42));
    let parent_hash = genesis.clone().encode().unwrap().hash();
    let tx = Transaction {
        operation: Operation::Mint { to: AccountIdentifier(3), amount: TOKENs::from_e8s(5) },
        memo: Memo(0),
        created_at_time: TimeStamp::from_nanos(50),
    };
    let block = Block::new_from_transaction(Some(parent_hash), tx, TimeStamp::from_nanos(55));
    let encoded = block.clone().encode().unwrap();
    let decoded = encoded.decode().unwrap();
    assert_eq!(decoded, block);
}

#[test]
fn encode_decode_round_trip_burn() {
    let tx = Transaction {
        operation: Operation::Burn { from: AccountIdentifier(11), amount: TOKENs::from_e8s(77) },
        memo: Memo(u64::MAX),
        created_at_time: TimeStamp::from_nanos(u64::MAX),
    };
    let block = Block::new_from_transaction(None, tx, TimeStamp::from_nanos(u64::MAX));
    let encoded = block.clone().encode().unwrap();
    assert_eq!(encoded.decode().unwrap(), block);
}

#[test]
fn decode_rejects_garbage() {
    assert_eq!(
        EncodedBlock::from_vec(vec![]).decode(),
        Err(CodecError::InvalidEncoding)
    );
    assert_eq!(
        EncodedBlock::from_vec(vec![9, 1, 2, 3]).decode(),
        Err(CodecError::InvalidEncoding)
    );
    // a valid block with one trailing byte is no longer canonical
    let block = Block::new_from_transaction(None, transfer_tx(), TimeStamp::from_nanos(1));
    let mut bytes = block.encode().unwrap().0;
    bytes.push(0);
    assert_eq!(
        EncodedBlock::from_vec(bytes).decode(),
        Err(CodecError::InvalidEncoding)
    );
}

#[test]
fn encoding_layout_is_fixed() {
    // genesis transfer block: 1 (no parent) + 1 + 4*8 (transfer) +
    // 8 (memo) + 8 (created at) + 8 (timestamp) = 58 bytes
    let block = Block::new_from_transaction(None, transfer_tx(), TimeStamp::from_nanos(1));
    let encoded = block.encode().unwrap();
    assert_eq!(encoded.size_bytes(), 58);
    let bytes = encoded.0;
    assert_eq!(bytes[0], 0); // no parent
    assert_eq!(bytes[1], 2); // transfer tag
    assert_eq!(&bytes[2..10], &7u64.to_le_bytes()); // from
}

#[test]
fn block_hash_is_sha256_of_encoded_bytes() {
    // standard SHA-256 test vectors, reachable because an encoded
    // block wraps arbitrary bytes
    assert_eq!(
        EncodedBlock::from_vec(vec![]).hash().to_hex(),
        "e3b0c44298fc1c149afbf4c8996fb92427ae41e4649b934ca495991b7852b855"
    );
    assert_eq!(
        EncodedBlock::from_vec(b"abc".to_vec()).hash().to_hex(),
        "ba7816bf8f01cfea414140de5dae2223b00361a396177a9cb410ff61f20015ad"
    );
}

#[test]
fn transaction_hash_depends_on_content_only() {
    let a = transfer_tx();
    let b = transfer_tx();
    assert_eq!(a.hash(), b.hash());
    let c = Transaction { memo: Memo(1), ..transfer_tx() };
    assert_ne!(a.hash(), c.hash());
    let d = Transaction { created_at_time: TimeStamp::from_nanos(1), ..transfer_tx() };
    assert_ne!(a.hash(), d.hash());
}

#[test]
fn block_accessors_return_the_parts() {
    let tx = transfer_tx();
    let block = Block::new(
        None,
        tx.operation,
        tx.memo,
        tx.created_at_time,
        TimeStamp::from_nanos(42),
    )
    .unwrap();
    assert!(block.parent_hash().is_none());
    assert_eq!(*block.transaction(), tx);
    assert_eq!(block.timestamp(), TimeStamp::from_nanos(42));
}
