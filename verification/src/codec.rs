//! The canonical byte encoding of transactions and blocks.
//!
//! The chain hash is defined over exactly these bytes, so the encoding
//! is fixed: a tag byte for the optional parent hash, a tag byte for
//! the operation, and every numeric field as eight little-endian bytes.
//! Decoding is the exact inverse of encoding.

use vstd::prelude::*;
use vstd::bytes::{
    lemma_auto_spec_u64_to_from_le_bytes, spec_u64_from_le_bytes, spec_u64_to_le_bytes,
    u64_from_le_bytes, u64_to_le_bytes,
};
use vstd::slice::{slice_index_get, slice_subrange, slice_to_vec};
use crate::hashing::HashOf;
use crate::ic_block::{Block, BlockV};
use crate::ic_token::TOKENs;
use crate::types::{AccountIdentifier, CodecError, Memo, Operation, TimeStamp, Transaction};

verus! {

/// The canonical byte form of a 64-bit value: eight little-endian bytes.
pub open spec fn spec_u64le(n: u64) -> Seq<u8> {
    spec_u64_to_le_bytes(n)
}

/// The canonical byte form of an operation: a tag byte, then each field
/// as eight little-endian bytes.
pub open spec fn spec_encode_operation(op: Operation) -> Seq<u8> {
    match op {
        Operation::Burn { from, amount } => seq![0u8] + spec_u64le(from.0) + spec_u64le(amount@),
        Operation::Mint { to, amount } => seq![1u8] + spec_u64le(to.0) + spec_u64le(amount@),
        Operation::Transfer { from, to, amount, fee } => seq![2u8] + spec_u64le(from.0)
            + spec_u64le(to.0) + spec_u64le(amount@) + spec_u64le(fee@),
    }
}

/// The canonical byte form of a transaction: the operation, the memo,
/// and the creation time.
pub open spec fn spec_encode_transaction(t: Transaction) -> Seq<u8> {
    spec_encode_operation(t.operation) + spec_u64le(t.memo.0) + spec_u64le(
        t.created_at_time.timestamp_nanos,
    )
}

/// The canonical byte form of a block: a tag byte for the optional
/// parent hash (0 for none, 1 followed by the 32 digest bytes), the
/// transaction, and the block timestamp.
pub open spec fn spec_encode_block(b: BlockV) -> Seq<u8> {
    (match b.parent_hash {
        None => seq![0u8],
        Some(h) => seq![1u8] + h,
    }) + spec_encode_transaction(b.transaction) + spec_u64le(b.timestamp.timestamp_nanos)
}

/// Reads a transaction and a block timestamp back out of the bytes that
/// follow the parent-hash part, or nothing if the bytes are not the
/// canonical encoding of any such pair.
pub open spec fn spec_decode_tail(bytes: Seq<u8>) -> Option<(Transaction, TimeStamp)> {
    if bytes.len() < 1 {
        None
    } else {
        let tag = bytes[0];
        let body = bytes.drop_first();
        if tag == 0u8 || tag == 1u8 {
            if body.len() != 40 {
                None
            } else {
                let account = AccountIdentifier(spec_u64_from_le_bytes(body.subrange(0, 8)));
                let amount = TOKENs::spec_from_e8s(spec_u64_from_le_bytes(body.subrange(8, 16)));
                Some(
                    (
                        Transaction {
                            operation: if tag == 0u8 {
                                Operation::Burn { from: account, amount }
                            } else {
                                Operation::Mint { to: account, amount }
                            },
                            memo: Memo(spec_u64_from_le_bytes(body.subrange(16, 24))),
                            created_at_time: TimeStamp {
                                timestamp_nanos: spec_u64_from_le_bytes(body.subrange(24, 32)),
                            },
                        },
                        TimeStamp { timestamp_nanos: spec_u64_from_le_bytes(body.subrange(32, 40)) },
                    ),
                )
            }
        } else if tag == 2u8 {
            if body.len() != 56 {
                None
            } else {
                Some(
                    (
                        Transaction {
                            operation: Operation::Transfer {
                                from: AccountIdentifier(
                                    spec_u64_from_le_bytes(body.subrange(0, 8)),
                                ),
                                to: AccountIdentifier(spec_u64_from_le_bytes(body.subrange(8, 16))),
                                amount: TOKENs::spec_from_e8s(
                                    spec_u64_from_le_bytes(body.subrange(16, 24)),
                                ),
                                fee: TOKENs::spec_from_e8s(
                                    spec_u64_from_le_bytes(body.subrange(24, 32)),
                                ),
                            },
                            memo: Memo(spec_u64_from_le_bytes(body.subrange(32, 40))),
                            created_at_time: TimeStamp {
                                timestamp_nanos: spec_u64_from_le_bytes(body.subrange(40, 48)),
                            },
                        },
                        TimeStamp { timestamp_nanos: spec_u64_from_le_bytes(body.subrange(48, 56)) },
                    ),
                )
            }
        } else {
            None
        }
    }
}

/// Reads a block back out of its canonical byte form, or nothing if the
/// bytes are not the canonical encoding of any block.
pub open spec fn spec_decode_block(bytes: Seq<u8>) -> Option<BlockV> {
    if bytes.len() < 1 {
        None
    } else if bytes[0] == 0u8 {
        match spec_decode_tail(bytes.drop_first()) {
            Some(tt) => Some(BlockV { parent_hash: None, transaction: tt.0, timestamp: tt.1 }),
            None => None,
        }
    } else if bytes[0] == 1u8 {
        if bytes.len() < 33 {
            None
        } else {
            match spec_decode_tail(bytes.skip(33)) {
                Some(tt) => Some(
                    BlockV {
                        parent_hash: Some(bytes.subrange(1, 33)),
                        transaction: tt.0,
                        timestamp: tt.1,
                    },
                ),
                None => None,
            }
        }
    } else {
        None
    }
}

/// Appends the canonical byte form of a 64-bit value.
fn push_u64le(out: &mut Vec<u8>, n: u64)
    ensures
        final(out)@ == old(out)@ + spec_u64le(n),
{
    let mut b = u64_to_le_bytes(n);
    out.append(&mut b);
}

/// Writes a transaction out in its canonical byte form.
pub fn encode_transaction(t: &Transaction) -> (r: Vec<u8>)
    ensures
        r@ == spec_encode_transaction(*t),
{
    let mut out: Vec<u8> = Vec::new();
    match &t.operation {
        Operation::Burn { from, amount } => {
            out.push(0u8);
            push_u64le(&mut out, from.0);
            push_u64le(&mut out, amount.get_e8s());
        },
        Operation::Mint { to, amount } => {
            out.push(1u8);
            push_u64le(&mut out, to.0);
            push_u64le(&mut out, amount.get_e8s());
        },
        Operation::Transfer { from, to, amount, fee } => {
            out.push(2u8);
            push_u64le(&mut out, from.0);
            push_u64le(&mut out, to.0);
            push_u64le(&mut out, amount.get_e8s());
            push_u64le(&mut out, fee.get_e8s());
        },
    }
    push_u64le(&mut out, t.memo.0);
    push_u64le(&mut out, t.created_at_time.timestamp_nanos);
    proof {
        assert(out@ =~= spec_encode_transaction(*t));
    }
    out
}

/// Writes a block out in its canonical byte form. Fails only when the
/// parent hash does not hold exactly 32 bytes.
pub fn encode_block(b: &Block) -> (r: Result<Vec<u8>, CodecError>)
    ensures
        b.parent_wf() ==> (r matches Ok(v) && v@ == spec_encode_block(b@)),
        !b.parent_wf() ==> r == Err::<Vec<u8>, CodecError>(CodecError::InvalidHashLength),
{
    let mut out: Vec<u8> = Vec::new();
    match &b.parent_hash {
        None => {
            out.push(0u8);
        },
        Some(h) => {
            let hb = h.as_bytes();
            if hb.len() != 32 {
                return Err(CodecError::InvalidHashLength);
            }
            out.push(1u8);
            let mut copy = crate::hashing::bytes_clone(hb);
            out.append(&mut copy);
        },
    }
    let mut tx = encode_transaction(&b.transaction);
    out.append(&mut tx);
    push_u64le(&mut out, b.timestamp.timestamp_nanos);
    proof {
        assert(out@ =~= spec_encode_block(b@));
    }
    Ok(out)
}

/// Reads one 64-bit field out of eight little-endian bytes.
fn read_u64le(bytes: &[u8], start: usize) -> (r: u64)
    requires
        start + 8 <= bytes@.len(),
    ensures
        r == spec_u64_from_le_bytes(bytes@.subrange(start as int, start as int + 8)),
{
    let n = bytes.len();
    assert(start + 8 <= n);
    u64_from_le_bytes(slice_subrange(bytes, start, start + 8))
}

/// Reads a block back out of its canonical byte form.
pub fn decode_block(bytes: &[u8]) -> (r: Result<Block, CodecError>)
    ensures
        match spec_decode_block(bytes@) {
            Some(bv) => r matches Ok(blk) && blk@ == bv && blk.parent_wf(),
            None => r == Err::<Block, CodecError>(CodecError::InvalidEncoding),
        },
{
    let n = bytes.len();
    if n < 1 {
        return Err(CodecError::InvalidEncoding);
    }
    let tag0 = *slice_index_get(bytes, 0);
    let parent: Option<HashOf>;
    let off: usize;
    if tag0 == 0 {
        parent = None;
        off = 1;
    } else if tag0 == 1 {
        if n < 33 {
            return Err(CodecError::InvalidEncoding);
        }
        let hb = slice_to_vec(slice_subrange(bytes, 1, 33));
        parent = Some(HashOf::new(hb));
        off = 33;
    } else {
        return Err(CodecError::InvalidEncoding);
    }
    let tail = slice_subrange(bytes, off, n);
    let ghost tail_seq = if tag0 == 0 {
        bytes@.drop_first()
    } else {
        bytes@.skip(33)
    };
    proof {
        assert(tail@ =~= tail_seq);
    }
    let m = tail.len();
    if m < 1 {
        return Err(CodecError::InvalidEncoding);
    }
    let tag = *slice_index_get(tail, 0);
    proof {
        assert(tail_seq.drop_first() =~= tail@.subrange(1, m as int));
    }
    let transaction: Transaction;
    let timestamp: TimeStamp;
    if tag == 0 || tag == 1 {
        if m != 41 {
            return Err(CodecError::InvalidEncoding);
        }
        let account = AccountIdentifier(read_u64le(tail, 1));
        let amount = TOKENs::from_e8s(read_u64le(tail, 9));
        let operation = if tag == 0 {
            Operation::Burn { from: account, amount }
        } else {
            Operation::Mint { to: account, amount }
        };
        transaction = Transaction {
            operation,
            memo: Memo(read_u64le(tail, 17)),
            created_at_time: TimeStamp { timestamp_nanos: read_u64le(tail, 25) },
        };
        timestamp = TimeStamp { timestamp_nanos: read_u64le(tail, 33) };
        proof {
            let body = tail_seq.drop_first();
            assert(body.subrange(0, 8) =~= tail@.subrange(1, 9));
            assert(body.subrange(8, 16) =~= tail@.subrange(9, 17));
            assert(body.subrange(16, 24) =~= tail@.subrange(17, 25));
            assert(body.subrange(24, 32) =~= tail@.subrange(25, 33));
            assert(body.subrange(32, 40) =~= tail@.subrange(33, 41));
        }
    } else if tag == 2 {
        if m != 57 {
            return Err(CodecError::InvalidEncoding);
        }
        transaction = Transaction {
            operation: Operation::Transfer {
                from: AccountIdentifier(read_u64le(tail, 1)),
                to: AccountIdentifier(read_u64le(tail, 9)),
                amount: TOKENs::from_e8s(read_u64le(tail, 17)),
                fee: TOKENs::from_e8s(read_u64le(tail, 25)),
            },
            memo: Memo(read_u64le(tail, 33)),
            created_at_time: TimeStamp { timestamp_nanos: read_u64le(tail, 41) },
        };
        timestamp = TimeStamp { timestamp_nanos: read_u64le(tail, 49) };
        proof {
            let body = tail_seq.drop_first();
            assert(body.subrange(0, 8) =~= tail@.subrange(1, 9));
            assert(body.subrange(8, 16) =~= tail@.subrange(9, 17));
            assert(body.subrange(16, 24) =~= tail@.subrange(17, 25));
            assert(body.subrange(24, 32) =~= tail@.subrange(25, 33));
            assert(body.subrange(32, 40) =~= tail@.subrange(33, 41));
            assert(body.subrange(40, 48) =~= tail@.subrange(41, 49));
            assert(body.subrange(48, 56) =~= tail@.subrange(49, 57));
        }
    } else {
        return Err(CodecError::InvalidEncoding);
    }
    let blk = Block { parent_hash: parent, transaction, timestamp };
    proof {
        if tag0 == 1 {
            assert(bytes@.subrange(1, 33) =~= blk@.parent_hash.unwrap());
        }
    }
    Ok(blk)
}

impl Transaction {
    /// The content hash of the transaction: SHA-256 over its canonical
    /// byte form, which covers exactly the operation, the memo and the
    /// creation time.
    pub fn hash(&self) -> (r: HashOf)
        ensures
            r@ == crate::hashing::sha256_of(spec_encode_transaction(*self)),
            r.wf(),
    {
        let bytes = encode_transaction(self);
        let digest = crate::hashing::sha256(bytes.as_slice());
        HashOf::new(digest)
    }
}

/// Decoding inverts encoding: every well-formed block value is read
/// back exactly from its canonical byte form.
pub proof fn lemma_encode_decode_roundtrip(b: BlockV)
    requires
        b.parent_wf(),
    ensures
        spec_decode_block(spec_encode_block(b)) == Some(b),
{
    let e = spec_encode_block(b);
    let tail = spec_encode_transaction(b.transaction) + spec_u64le(b.timestamp.timestamp_nanos);
    lemma_auto_spec_u64_to_from_le_bytes();
    match b.parent_hash {
        None => {
            assert(e[0] == 0u8);
            assert(e.drop_first() =~= tail);
            lemma_tail_roundtrip(b.transaction, b.timestamp);
        },
        Some(h) => {
            assert(e[0] == 1u8);
            assert(e.len() >= 33);
            assert(e.subrange(1, 33) =~= h);
            assert(e.skip(33) =~= tail);
            lemma_tail_roundtrip(b.transaction, b.timestamp);
        },
    }
}

/// The tail of the canonical block form reads back to the transaction
/// and block timestamp it was written from.
proof fn lemma_tail_roundtrip(t: Transaction, ts: TimeStamp)
    ensures
        spec_decode_tail(spec_encode_transaction(t) + spec_u64le(ts.timestamp_nanos)) == Some(
            (t, ts),
        ),
{
    broadcast use crate::ic_token::lemma_tokens_view_roundtrip;

    lemma_auto_spec_u64_to_from_le_bytes();
    let s = spec_encode_transaction(t) + spec_u64le(ts.timestamp_nanos);
    let body = s.drop_first();
    match t.operation {
        Operation::Burn { from, amount } => {
            assert(s[0] == 0u8);
            assert(body.len() == 40);
            assert(body.subrange(0, 8) =~= spec_u64le(from.0));
            assert(body.subrange(8, 16) =~= spec_u64le(amount@));
            assert(body.subrange(16, 24) =~= spec_u64le(t.memo.0));
            assert(body.subrange(24, 32) =~= spec_u64le(t.created_at_time.timestamp_nanos));
            assert(body.subrange(32, 40) =~= spec_u64le(ts.timestamp_nanos));
        },
        Operation::Mint { to, amount } => {
            assert(s[0] == 1u8);
            assert(body.len() == 40);
            assert(body.subrange(0, 8) =~= spec_u64le(to.0));
            assert(body.subrange(8, 16) =~= spec_u64le(amount@));
            assert(body.subrange(16, 24) =~= spec_u64le(t.memo.0));
            assert(body.subrange(24, 32) =~= spec_u64le(t.created_at_time.timestamp_nanos));
            assert(body.subrange(32, 40) =~= spec_u64le(ts.timestamp_nanos));
        },
        Operation::Transfer { from, to, amount, fee } => {
            assert(s[0] == 2u8);
            assert(body.len() == 56);
            assert(body.subrange(0, 8) =~= spec_u64le(from.0));
            assert(body.subrange(8, 16) =~= spec_u64le(to.0));
            assert(body.subrange(16, 24) =~= spec_u64le(amount@));
            assert(body.subrange(24, 32) =~= spec_u64le(fee@));
            assert(body.subrange(32, 40) =~= spec_u64le(t.memo.0));
            assert(body.subrange(40, 48) =~= spec_u64le(t.created_at_time.timestamp_nanos));
            assert(body.subrange(48, 56) =~= spec_u64le(ts.timestamp_nanos));
        },
    }
}

} // verus!
