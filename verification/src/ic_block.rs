//! Ledger blocks: a transaction with chain metadata, its canonical byte
//! encoding, and the append-only hash-chained block store.

use vstd::prelude::*;
use crate::codec;
use crate::hashing::{bytes_clone, sha256, HashOf};
use crate::types::{CodecError, Memo, Operation, TimeStamp, Transaction};

verus! {

/// Position of a block in the chain. The first block has position 0.
pub type BlockHeight = u64;

/// The canonical byte form of a block. The block's identity hash is
/// SHA-256 over exactly these bytes.
#[derive(Debug, PartialEq, Eq, Hash)]
pub struct EncodedBlock(pub Vec<u8>);

impl View for EncodedBlock {
    type V = Seq<u8>;

    open spec fn view(&self) -> Seq<u8> {
        self.0@
    }
}

impl EncodedBlock {
    /// Wraps bytes as an encoded block.
    pub fn from_vec(bytes: Vec<u8>) -> (r: EncodedBlock)
        ensures
            r@ == bytes@,
    {
        EncodedBlock(bytes)
    }

    /// The identity hash of the block: SHA-256 over the encoded bytes.
    pub fn hash(&self) -> (r: HashOf)
        ensures
            r@ == crate::hashing::sha256_of(self@),
            r.wf(),
    {
        let digest = sha256(self.0.as_slice());
        HashOf::new(digest)
    }

    /// Reads the block back out of its canonical byte form.
    pub fn decode(&self) -> (r: Result<Block, CodecError>)
        ensures
            match codec::spec_decode_block(self@) {
                Some(bv) => r matches Ok(b) && b@ == bv && b.parent_wf(),
                None => r == Err::<Block, CodecError>(CodecError::InvalidEncoding),
            },
    {
        codec::decode_block(self.0.as_slice())
    }

    /// The size of the encoded block in bytes.
    pub fn size_bytes(&self) -> (r: usize)
        ensures
            r == self@.len(),
    {
        self.0.len()
    }
}

impl Clone for EncodedBlock {
    /// Cloning an encoded block keeps its bytes.
    fn clone(&self) -> (r: Self)
        ensures
            r@ == self@,
    {
        EncodedBlock(bytes_clone(&self.0))
    }
}

/// A transaction with the metadata the ledger generated attached to it.
#[derive(Debug, PartialEq, Eq)]
pub struct Block {
    /// `None` only for the genesis block.
    pub parent_hash: Option<HashOf>,
    pub transaction: Transaction,
    /// Nanoseconds since the Unix epoch.
    pub timestamp: TimeStamp,
}

/// The mathematical value of a block: the parent hash as a plain byte
/// sequence beside the transaction and the block timestamp.
pub struct BlockV {
    pub parent_hash: Option<Seq<u8>>,
    pub transaction: Transaction,
    pub timestamp: TimeStamp,
}

impl BlockV {
    /// A well-formed block value carries a 32-byte parent hash, or none.
    pub open spec fn parent_wf(&self) -> bool {
        match self.parent_hash {
            Some(h) => h.len() == 32,
            None => true,
        }
    }
}

impl View for Block {
    type V = BlockV;

    open spec fn view(&self) -> BlockV {
        BlockV {
            parent_hash: match self.parent_hash {
                Some(h) => Some(h@),
                None => None,
            },
            transaction: self.transaction,
            timestamp: self.timestamp,
        }
    }
}

impl Block {
    /// A well-formed block carries a 32-byte parent hash, or none.
    pub open spec fn parent_wf(&self) -> bool {
        self@.parent_wf()
    }

    /// Builds a block around a fresh transaction.
    pub fn new(
        parent_hash: Option<HashOf>,
        operation: Operation,
        memo: Memo,
        created_at_time: TimeStamp,
        timestamp: TimeStamp,
    ) -> (r: Result<Block, CodecError>)
        ensures
            r matches Ok(b) && b == (Block {
                parent_hash,
                transaction: Transaction { operation, memo, created_at_time },
                timestamp,
            }),
    {
        let transaction = Transaction { operation, memo, created_at_time };
        Ok(Self::new_from_transaction(parent_hash, transaction, timestamp))
    }

    /// Builds a block around an existing transaction.
    pub fn new_from_transaction(
        parent_hash: Option<HashOf>,
        transaction: Transaction,
        timestamp: TimeStamp,
    ) -> (r: Block)
        ensures
            r == (Block { parent_hash, transaction, timestamp }),
    {
        Block { parent_hash, transaction, timestamp }
    }

    /// Writes the block out in its canonical byte form. Fails only when
    /// the parent hash does not hold exactly 32 bytes.
    pub fn encode(self) -> (r: Result<EncodedBlock, CodecError>)
        ensures
            self.parent_wf() ==> (r matches Ok(e) && e@ == codec::spec_encode_block(self@)),
            !self.parent_wf() ==> r == Err::<EncodedBlock, CodecError>(CodecError::InvalidHashLength),
    {
        match codec::encode_block(&self) {
            Ok(bytes) => Ok(EncodedBlock(bytes)),
            Err(e) => Err(e),
        }
    }

    /// The parent hash, cloned.
    pub fn parent_hash(&self) -> (r: Option<HashOf>)
        ensures
            self@.parent_hash matches Some(h) ==> (r matches Some(rh) && rh@ == h),
            self@.parent_hash is None ==> r is None,
    {
        match &self.parent_hash {
            Some(h) => Some(h.clone()),
            None => None,
        }
    }

    /// The transaction carried by the block.
    pub fn transaction(&self) -> (r: &Transaction)
        ensures
            r == self.transaction,
    {
        &self.transaction
    }

    /// The block timestamp.
    pub fn timestamp(&self) -> (r: TimeStamp)
        ensures
            r == self.timestamp,
    {
        self.timestamp
    }
}

impl Clone for Block {
    /// Cloning a block keeps its value.
    fn clone(&self) -> (r: Self)
        ensures
            r@ == self@,
    {
        Block {
            parent_hash: match &self.parent_hash {
                Some(h) => Some(h.clone()),
                None => None,
            },
            transaction: self.transaction,
            timestamp: self.timestamp,
        }
    }
}

/// Why a block could not be appended to the chain.
#[derive(Clone, Copy, Debug, PartialEq, Eq, Structural)]
pub enum ChainError {
    /// The block's parent hash does not match the hash of the chain tip.
    ParentHashMismatch,
    /// The block's timestamp is older than the chain tip's.
    TimestampRegression,
}

/// The identity hash of a block value: SHA-256 over its canonical byte
/// encoding.
pub open spec fn spec_block_hash(b: BlockV) -> Seq<u8> {
    crate::hashing::sha256_of(codec::spec_encode_block(b))
}

/// The byte contents of a sequence of encoded blocks.
pub open spec fn seq_views(s: Seq<EncodedBlock>) -> Seq<Seq<u8>> {
    s.map_values(|b: EncodedBlock| b@)
}

/// An append-only, hash-chained sequence of encoded blocks. Old blocks
/// can be handed off to archival storage: they are dropped from the
/// live sequence but stay counted, so block heights never move.
pub struct Blockchain {
    blocks: Vec<EncodedBlock>,
    last_hash: Option<HashOf>,
    last_timestamp: TimeStamp,
    num_archived_blocks: u64,
    /// Every block ever appended, archived ones included.
    hist: Ghost<Seq<BlockV>>,
}

impl Blockchain {
    /// Every block ever appended, archived ones included.
    pub closed spec fn hist(&self) -> Seq<BlockV> {
        self.hist@
    }

    /// The byte contents of the live (unarchived) blocks.
    pub closed spec fn live_blocks(&self) -> Seq<Seq<u8>> {
        seq_views(self.blocks@)
    }

    /// How many blocks have been handed off to archival storage.
    pub closed spec fn spec_num_archived(&self) -> u64 {
        self.num_archived_blocks
    }

    /// The hash of the chain tip, or none for an empty chain.
    pub closed spec fn spec_last_hash(&self) -> Option<Seq<u8>> {
        match self.last_hash {
            Some(h) => Some(h@),
            None => None,
        }
    }

    /// The timestamp of the chain tip.
    pub closed spec fn spec_last_timestamp(&self) -> TimeStamp {
        self.last_timestamp
    }

    /// Structural well-formedness: the live blocks are the canonical
    /// encodings of the suffix of the history past the archived prefix,
    /// heights fit in 64 bits, timestamps never regress, and the tip
    /// hash is present exactly when the chain is nonempty.
    pub open spec fn wf(&self) -> bool {
        &&& self.spec_num_archived() + self.live_blocks().len() == self.hist().len()
        &&& self.hist().len() <= u64::MAX
        &&& forall|i: int|
            0 <= i < self.live_blocks().len() ==> #[trigger] self.live_blocks()[i]
                == codec::spec_encode_block(
                self.hist()[self.spec_num_archived() + i],
            )
        &&& forall|i: int| 0 <= i < self.hist().len() ==> (#[trigger] self.hist()[i]).parent_wf()
        &&& forall|i: int|
            0 <= i < self.hist().len() ==> (#[trigger] self.hist()[i]).timestamp.timestamp_nanos
                <= self.spec_last_timestamp().timestamp_nanos
        &&& forall|i: int|
            0 <= i && i + 1 < self.hist().len() ==> (#[trigger] self.hist()[i]).timestamp.timestamp_nanos
                <= self.hist()[i + 1].timestamp.timestamp_nanos
        &&& (self.spec_last_hash() is Some <==> self.hist().len() > 0)
        &&& (self.spec_last_hash() matches Some(h) ==> h.len() == 32)
    }

    /// Hash linkage: the tip hash is the hash of the last block ever
    /// appended, every later block names the hash of the one before it
    /// as its parent, and only the genesis block has no parent.
    pub open spec fn chain_linked(&self) -> bool {
        &&& (self.hist().len() > 0 ==> self.spec_last_hash() == Some(
            spec_block_hash(self.hist().last()),
        ))
        &&& forall|i: int|
            1 <= i < self.hist().len() ==> (#[trigger] self.hist()[i]).parent_hash == Some(
                spec_block_hash(self.hist()[i - 1]),
            )
        &&& (self.hist().len() > 0 ==> self.hist()[0].parent_hash is None)
    }

    /// Encodes the block, then appends it.
    pub fn add_block(&mut self, block: Block) -> (r: Result<BlockHeight, ChainError>)
        requires
            old(self).wf(),
            block.parent_wf(),
            old(self).hist().len() < u64::MAX,
        ensures
            final(self).wf(),
            old(self).chain_linked() ==> final(self).chain_linked(),
            ({
                let accepted = block@.parent_hash == old(self).spec_last_hash()
                    && block.timestamp.timestamp_nanos
                    >= old(self).spec_last_timestamp().timestamp_nanos;
                if accepted {
                    &&& r matches Ok(h) && h == old(self).hist().len()
                    &&& final(self).hist() == old(self).hist().push(block@)
                    &&& final(self).spec_num_archived() == old(self).spec_num_archived()
                    &&& final(self).spec_last_timestamp() == block.timestamp
                    &&& final(self).spec_last_hash() == Some(spec_block_hash(block@))
                } else {
                    &&& (if block@.parent_hash != old(self).spec_last_hash() {
                        r == Err::<BlockHeight, ChainError>(ChainError::ParentHashMismatch)
                    } else {
                        r == Err::<BlockHeight, ChainError>(ChainError::TimestampRegression)
                    })
                    &&& *final(self) == *old(self)
                }
            }),
    {
        let encoded = match block.clone().encode() {
            Ok(e) => e,
            Err(_) => {
                proof {
                    assert(false);
                }
                EncodedBlock(Vec::new())
            },
        };
        self.add_block_with_encoded(block, encoded)
    }

    /// Appends a block whose canonical encoding the caller has already
    /// computed. Fails if the block's parent hash is not the tip hash,
    /// or if its timestamp is older than the tip's.
    pub fn add_block_with_encoded(&mut self, block: Block, encoded_block: EncodedBlock) -> (r:
        Result<BlockHeight, ChainError>)
        requires
            old(self).wf(),
            block.parent_wf(),
            encoded_block@ == codec::spec_encode_block(block@),
            old(self).hist().len() < u64::MAX,
        ensures
            final(self).wf(),
            old(self).chain_linked() ==> final(self).chain_linked(),
            ({
                let accepted = block@.parent_hash == old(self).spec_last_hash()
                    && block.timestamp.timestamp_nanos
                    >= old(self).spec_last_timestamp().timestamp_nanos;
                if accepted {
                    &&& r matches Ok(h) && h == old(self).hist().len()
                    &&& final(self).hist() == old(self).hist().push(block@)
                    &&& final(self).spec_num_archived() == old(self).spec_num_archived()
                    &&& final(self).spec_last_timestamp() == block.timestamp
                    &&& final(self).spec_last_hash() == Some(spec_block_hash(block@))
                } else {
                    &&& (if block@.parent_hash != old(self).spec_last_hash() {
                        r == Err::<BlockHeight, ChainError>(ChainError::ParentHashMismatch)
                    } else {
                        r == Err::<BlockHeight, ChainError>(ChainError::TimestampRegression)
                    })
                    &&& *final(self) == *old(self)
                }
            }),
    {
        let parent_matches = match (&block.parent_hash, &self.last_hash) {
            (None, None) => true,
            (Some(a), Some(b)) => a.same_hash(b),
            _ => false,
        };
        if !parent_matches {
            return Err(ChainError::ParentHashMismatch);
        }
        if block.timestamp.timestamp_nanos < self.last_timestamp.timestamp_nanos {
            return Err(ChainError::TimestampRegression);
        }
        let new_hash = encoded_block.hash();
        let height = self.num_archived_blocks + (self.blocks.len() as u64);
        self.last_hash = Some(new_hash);
        self.last_timestamp = block.timestamp;
        self.blocks.push(encoded_block);
        proof {
            self.hist@ = self.hist@.push(block@);
            assert(self.live_blocks() =~= old(self).live_blocks().push(
                codec::spec_encode_block(block@),
            ));
        }
        Ok(height)
    }

    /// The block at the given height, or nothing if that block has been
    /// archived or does not exist yet.
    pub fn get(&self, height: BlockHeight) -> (r: Option<&EncodedBlock>)
        requires
            self.wf(),
        ensures
            ({
                let archived = self.spec_num_archived();
                if height < archived || height >= self.hist().len() {
                    r is None
                } else {
                    r matches Some(e) && e@ == self.live_blocks()[height - archived]
                }
            }),
    {
        if height < self.num_archived_blocks {
            None
        } else {
            let idx = height - self.num_archived_blocks;
            if idx < self.blocks.len() as u64 {
                Some(&self.blocks[idx as usize])
            } else {
                None
            }
        }
    }

    /// The live chain tip.
    pub fn last(&self) -> (r: Option<&EncodedBlock>)
        ensures
            self.live_blocks().len() == 0 ==> r is None,
            self.live_blocks().len() > 0 ==> (r matches Some(e) && e@ == self.live_blocks().last()),
    {
        if self.blocks.len() == 0 {
            None
        } else {
            Some(&self.blocks[self.blocks.len() - 1])
        }
    }

    /// The tip hash, cloned.
    pub fn last_hash(&self) -> (r: Option<HashOf>)
        ensures
            self.spec_last_hash() matches Some(h) ==> (r matches Some(rh) && rh@ == h),
            self.spec_last_hash() is None ==> r is None,
    {
        match &self.last_hash {
            Some(h) => Some(h.clone()),
            None => None,
        }
    }

    /// The tip timestamp.
    pub fn last_timestamp(&self) -> (r: TimeStamp)
        ensures
            r == self.spec_last_timestamp(),
    {
        self.last_timestamp
    }

    /// How many blocks have been handed off to archival storage.
    pub fn num_archived_blocks(&self) -> (r: u64)
        ensures
            r == self.spec_num_archived(),
    {
        self.num_archived_blocks
    }

    /// How many blocks are still held live.
    pub fn num_unarchived_blocks(&self) -> (r: u64)
        ensures
            r == self.live_blocks().len(),
    {
        self.blocks.len() as u64
    }

    /// A borrowed view of the live blocks.
    pub fn blocks(&self) -> (r: &Vec<EncodedBlock>)
        ensures
            seq_views(r@) == self.live_blocks(),
    {
        &self.blocks
    }

    /// The total number of blocks ever appended: archived blocks plus
    /// live blocks.
    pub fn chain_length(&self) -> (r: BlockHeight)
        requires
            self.wf(),
        ensures
            r == self.hist().len(),
            r == self.spec_num_archived() + self.live_blocks().len(),
    {
        self.num_archived_blocks + (self.blocks.len() as u64)
    }

    /// Drops the `len` oldest live blocks, keeping their count so that
    /// heights do not move. The caller must not remove more blocks than
    /// are live.
    pub fn remove_archived_blocks(&mut self, len: usize)
        requires
            old(self).wf(),
            len <= old(self).live_blocks().len(),
        ensures
            final(self).wf(),
            old(self).chain_linked() ==> final(self).chain_linked(),
            final(self).hist() == old(self).hist(),
            final(self).spec_num_archived() == old(self).spec_num_archived() + len,
            final(self).live_blocks() == old(self).live_blocks().skip(len as int),
            final(self).spec_last_hash() == old(self).spec_last_hash(),
            final(self).spec_last_timestamp() == old(self).spec_last_timestamp(),
    {
        let suffix = self.blocks.split_off(len);
        self.blocks = suffix;
        self.num_archived_blocks = self.num_archived_blocks + (len as u64);
        proof {
            assert(self.live_blocks() =~= old(self).live_blocks().skip(len as int));
        }
    }

    /// A read-only snapshot of the oldest live blocks, ready to be
    /// offered to archival storage. Empty unless at least
    /// `trigger_threshold` blocks are live; otherwise it holds the
    /// `num_blocks_to_archive` oldest live blocks, or all of them if
    /// fewer are live.
    pub fn get_blocks_for_archiving(
        &self,
        trigger_threshold: usize,
        num_blocks_to_archive: usize,
    ) -> (r: std::collections::VecDeque<EncodedBlock>)
        ensures
            ({
                let live = self.live_blocks().len();
                if live < trigger_threshold {
                    seq_views(r@) == Seq::<Seq<u8>>::empty()
                } else {
                    seq_views(r@) == self.live_blocks().take(
                        if num_blocks_to_archive <= live {
                            num_blocks_to_archive as int
                        } else {
                            live as int
                        },
                    )
                }
            }),
    {
        let mut out: std::collections::VecDeque<EncodedBlock> = std::collections::VecDeque::new();
        let num_blocks_before = self.blocks.len();
        if num_blocks_before < trigger_threshold {
            proof {
                assert(seq_views(out@) =~= Seq::<Seq<u8>>::empty());
            }
            return out;
        }
        let n = if num_blocks_to_archive <= num_blocks_before {
            num_blocks_to_archive
        } else {
            num_blocks_before
        };
        let mut i: usize = 0;
        while i < n
            invariant
                n <= self.blocks@.len(),
                0 <= i <= n,
                out@.len() == i,
                forall|j: int| 0 <= j < i ==> seq_views(out@)[j] == self.live_blocks()[j],
            decreases n - i,
        {
            out.push_back(self.blocks[i].clone());
            i += 1;
        }
        proof {
            assert(seq_views(out@) =~= self.live_blocks().take(n as int));
        }
        out
    }
}

impl Default for Blockchain {
    /// An empty chain: no blocks, no archived count, no tip hash, and
    /// the epoch as tip timestamp.
    fn default() -> (r: Blockchain)
        ensures
            r.wf(),
            r.chain_linked(),
            r.hist() == Seq::<BlockV>::empty(),
            r.spec_num_archived() == 0,
            r.spec_last_hash() is None,
            r.spec_last_timestamp().timestamp_nanos == 0,
    {
        let r = Blockchain {
            blocks: Vec::new(),
            last_hash: None,
            last_timestamp: TimeStamp { timestamp_nanos: 0 },
            num_archived_blocks: 0,
            hist: Ghost(Seq::empty()),
        };
        proof {
            assert(r.live_blocks() =~= Seq::<Seq<u8>>::empty());
        }
        r
    }
}

/// Argument returned by the tip-of-chain query.
pub struct TipOfChainRes {
    pub certification: Option<Vec<u8>>,
    pub tip_index: BlockHeight,
}

/// The index of the last block added to the chain, with certification
/// bytes supplied by the host environment.
pub fn tip_of_chain(chain: &Blockchain, certification: Option<Vec<u8>>) -> (r: TipOfChainRes)
    requires
        chain.wf(),
        chain.hist().len() > 0,
    ensures
        r.tip_index == chain.hist().len() - 1,
        r.certification == certification,
{
    TipOfChainRes { certification, tip_index: chain.chain_length() - 1 }
}

/// A block-range request by height.
pub struct GetBlocksArgs {
    pub start: BlockHeight,
    pub length: usize,
}

impl GetBlocksArgs {
    pub fn new(start: BlockHeight, length: usize) -> (r: GetBlocksArgs)
        ensures
            r.start == start,
            r.length == length,
    {
        GetBlocksArgs { start, length }
    }
}

/// A requested range lay outside the stored blocks.
#[derive(Clone, Copy, Debug, PartialEq, Eq, Structural)]
pub struct RangeError;

/// The answer to a block-range request by height.
pub struct GetBlocksRes(pub Result<Vec<EncodedBlock>, RangeError>);

/// A block-range request by offset into the stored blocks.
pub struct IterBlocksArgs {
    pub start: usize,
    pub length: usize,
}

impl IterBlocksArgs {
    pub fn new(start: usize, length: usize) -> (r: IterBlocksArgs)
        ensures
            r.start == start,
            r.length == length,
    {
        IterBlocksArgs { start, length }
    }
}

/// The answer to a block-range request by offset.
pub struct IterBlocksRes(pub Vec<EncodedBlock>);

/// A single-block request by height.
pub struct BlockArg(pub BlockHeight);

/// The answer to a single-block request: nothing, the block, or the
/// archive canister holding it.
pub struct BlockRes(pub Option<Result<EncodedBlock, crate::types::CanisterId>>);

/// Copies a range of encoded blocks.
fn copy_block_range(blocks: &[EncodedBlock], start: usize, end: usize) -> (r: Vec<EncodedBlock>)
    requires
        start <= end <= blocks@.len(),
    ensures
        seq_views(r@) == seq_views(blocks@).subrange(start as int, end as int),
{
    let mut out: Vec<EncodedBlock> = Vec::new();
    let mut i: usize = start;
    while i < end
        invariant
            start <= i <= end <= blocks@.len(),
            out@.len() == i - start,
            forall|j: int| 0 <= j < out@.len() ==> seq_views(out@)[j] == seq_views(blocks@)[start + j],
        decreases end - i,
    {
        let ghost pre_out = out@;
        out.push(blocks[i].clone());
        proof {
            assert forall|j: int| 0 <= j < out@.len() implies seq_views(out@)[j] == seq_views(
                blocks@,
            )[start + j] by {
                if j < pre_out.len() {
                    assert(seq_views(pre_out)[j] == seq_views(blocks@)[start + j]);
                    assert(out@[j] == pre_out[j]);
                } else {
                    assert(out@[j]@ == blocks@[i as int]@);
                }
            }
        }
        i += 1;
    }
    proof {
        assert(seq_views(out@) =~= seq_views(blocks@).subrange(start as int, end as int));
    }
    out
}

/// Extracts the blocks of the inclusive height range
/// `[range_from, range_from + length - 1]` out of blocks stored
/// beginning at height `range_from_offset`. Fails if the requested
/// range is not fully contained in the stored one: this request is
/// strict where `iter_blocks` clamps.
pub fn get_blocks(
    blocks: &[EncodedBlock],
    range_from_offset: BlockHeight,
    range_from: BlockHeight,
    length: usize,
) -> (r: GetBlocksRes)
    ensures
        ({
            let ok = range_from_offset <= range_from && range_from + length <= range_from_offset
                + blocks@.len();
            if ok {
                r.0 matches Ok(v) && seq_views(v@) == seq_views(blocks@).subrange(
                    range_from - range_from_offset,
                    range_from - range_from_offset + length,
                )
            } else {
                r.0 == Err::<Vec<EncodedBlock>, RangeError>(RangeError)
            }
        }),
{
    let n = blocks.len();
    if range_from < range_from_offset || (range_from as u128) + (length as u128) > (
    range_from_offset as u128) + (n as u128) {
        return GetBlocksRes(Err(RangeError));
    }
    let offset = (range_from - range_from_offset) as usize;
    GetBlocksRes(Ok(copy_block_range(blocks, offset, offset + length)))
}

/// Extracts up to `length` blocks starting at `offset` into the stored
/// blocks, clamping both ends silently to what is stored: this request
/// clamps where `get_blocks` is strict.
pub fn iter_blocks(blocks: &[EncodedBlock], offset: usize, length: usize) -> (r: IterBlocksRes)
    ensures
        ({
            let n = blocks@.len() as int;
            let start = if offset <= n { offset as int } else { n };
            let end = if start + length <= n { start + length } else { n };
            seq_views(r.0@) == seq_views(blocks@).subrange(start, end)
        }),
{
    let n = blocks.len();
    let start = if offset <= n {
        offset
    } else {
        n
    };
    let end = if length <= n - start {
        start + length
    } else {
        n
    };
    IterBlocksRes(copy_block_range(blocks, start, end))
}

/// Chain integrity: in a linked chain the tip hash is the hash of the
/// last block appended, and every block past the genesis names the hash
/// of the block before it as its parent.
pub proof fn lemma_chain_integrity(c: &Blockchain)
    requires
        c.wf(),
        c.chain_linked(),
    ensures
        c.hist().len() > 0 ==> c.spec_last_hash() == Some(spec_block_hash(c.hist().last())),
        forall|i: int|
            1 <= i < c.hist().len() ==> (#[trigger] c.hist()[i]).parent_hash == Some(
                spec_block_hash(c.hist()[i - 1]),
            ),
        c.hist().len() > 0 ==> c.hist()[0].parent_hash is None,
{
}

/// Height accounting: the number of archived blocks plus the number of
/// live blocks is always the total chain length.
pub proof fn lemma_height_accounting(c: &Blockchain)
    requires
        c.wf(),
    ensures
        c.spec_num_archived() + c.live_blocks().len() == c.hist().len(),
{
}

} // verus!
