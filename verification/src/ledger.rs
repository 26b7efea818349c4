//! The top-level transactional state machine: orchestrates the
//! blockchain and the balances, rejects duplicate transactions within
//! a trailing time window, tracks one-shot notification flags, and
//! trims the lowest-balance accounts when an account ceiling is
//! exceeded.

use vstd::prelude::*;
use std::collections::VecDeque;
use crate::balances::{Balances, BalancesStore, LedgerBalances};
use crate::hashing::HashOf;
use crate::ic_block::{BlockHeight, Blockchain};
use crate::notified::{notified_contains, notified_insert, notified_new, notified_remove, notified_set};
use crate::types::{AccountIdentifier, CanisterId, Memo, Operation, TimeStamp, Transaction};
use crate::ic_token::{TOKENs, MIN_BURN_AMOUNT_E8S, TRANSACTION_FEE_E8S};

verus! {

/// How far in the future a transaction's creation time may lie.
pub const PERMITTED_DRIFT_NANOS: u64 = 60_000_000_000;

/// How long transactions are remembered to detect duplicates: 24 hours.
pub const DEFAULT_TRANSACTION_WINDOW_NANOS: u64 = 86_400_000_000_000;

/// A cap on the number of accounts.
pub const MAXIMUM_NUMBER_OF_ACCOUNTS: usize = 50_000_000;

/// How many lowest-balance accounts are removed when the cap is
/// exceeded.
pub const ACCOUNTS_OVERFLOW_TRIM_QUANTITY: usize = 100_000;

/// Why a payment was rejected. Each is a validation error: the ledger
/// state is left as it was, except that expired dedup entries have
/// been purged.
#[derive(Clone, Copy, Debug, PartialEq, Eq, Structural)]
pub enum PaymentError {
    /// The creation time fell out of the transaction window before now.
    ExpiredTransaction,
    /// The creation time lies further than the permitted drift in the
    /// future.
    FutureTimestamp,
    /// A transaction with the same content hash is already on chain
    /// within the window.
    DuplicateTransaction,
}

/// Why a notification-state change was rejected.
#[derive(Clone, Copy, Debug, PartialEq, Eq, Structural)]
pub enum NotifyError {
    /// The block has aged out of the notifiable window.
    TransactionTooOld,
    /// The flag already has the requested state.
    StateAlreadySet,
}

/// One remembered transaction in the dedup window.
pub struct TransactionInfo {
    pub block_timestamp: TimeStamp,
    pub transaction_hash: HashOf,
}

/// The height recorded in the dedup index for a hash, or nothing.
pub open spec fn spec_find_hash(s: Seq<(Seq<u8>, u64)>, h: Seq<u8>) -> Option<u64>
    decreases s.len(),
{
    if s.len() == 0 {
        None
    } else if s[0].0 == h {
        Some(s[0].1)
    } else {
        spec_find_hash(s.drop_first(), h)
    }
}

/// How many leading dedup entries have aged out of the window at
/// `now`: the length of the longest prefix whose block timestamps plus
/// the window do not reach past `now`.
pub open spec fn purge_count(q: Seq<(u64, Seq<u8>)>, window: u64, now: u64) -> int
    decreases q.len(),
{
    if q.len() == 0 {
        0
    } else if q[0].0 + window <= now {
        1 + purge_count(q.drop_first(), window, now)
    } else {
        0
    }
}

/// The heights recorded in the first `cnt` dedup index entries.
pub open spec fn purged_heights(s: Seq<(Seq<u8>, u64)>, cnt: int) -> Set<u64> {
    Set::new(|h: u64| exists|i: int| 0 <= i < cnt && i < s.len() && (#[trigger] s[i]).1 == h)
}

/// The purge count is the unique cut: everything before it has aged
/// out, and the entry at it (if any) has not.
proof fn lemma_purge_count_is(q: Seq<(u64, Seq<u8>)>, window: u64, now: u64, k: int)
    requires
        0 <= k <= q.len(),
        forall|i: int| 0 <= i < k ==> (#[trigger] q[i]).0 + window <= now,
        k < q.len() ==> q[k].0 + window > now,
    ensures
        purge_count(q, window, now) == k,
    decreases q.len(),
{
    if q.len() > 0 && k > 0 {
        let rest = q.drop_first();
        assert forall|i: int| 0 <= i < k - 1 implies (#[trigger] rest[i]).0 + window <= now by {
            assert(q[i + 1].0 + window <= now);
        }
        lemma_purge_count_is(rest, window, now, k - 1);
    }
}

/// A hash absent from a prefix is found, if at all, past it.
proof fn lemma_find_hash_skip(s: Seq<(Seq<u8>, u64)>, h: Seq<u8>, i: int)
    requires
        0 <= i <= s.len(),
        forall|j: int| 0 <= j < i ==> (#[trigger] s[j]).0 != h,
    ensures
        spec_find_hash(s, h) == spec_find_hash(s.skip(i), h),
    decreases i,
{
    if i > 0 {
        let rest = s.drop_first();
        assert forall|j: int| 0 <= j < i - 1 implies (#[trigger] rest[j]).0 != h by {
            assert(s[j + 1].0 != h);
        }
        lemma_find_hash_skip(rest, h, i - 1);
        assert(rest.skip(i - 1) =~= s.skip(i));
    } else {
        assert(s.skip(0) =~= s);
    }
}

/// A hash held by no entry is not found.
proof fn lemma_no_key_find_none(s: Seq<(Seq<u8>, u64)>, h: Seq<u8>)
    requires
        forall|i: int| 0 <= i < s.len() ==> (#[trigger] s[i]).0 != h,
    ensures
        spec_find_hash(s, h) is None,
    decreases s.len(),
{
    if s.len() > 0 {
        let rest = s.drop_first();
        assert forall|i: int| 0 <= i < rest.len() implies (#[trigger] rest[i]).0 != h by {
            assert(s[i + 1].0 != h);
        }
        lemma_no_key_find_none(rest, h);
    }
}

/// A hash that is found is held by some entry.
proof fn lemma_find_some_has_key(s: Seq<(Seq<u8>, u64)>, h: Seq<u8>)
    requires
        spec_find_hash(s, h) is Some,
    ensures
        exists|i: int| 0 <= i < s.len() && (#[trigger] s[i]).0 == h,
    decreases s.len(),
{
    if s[0].0 == h {
        assert(s[0].0 == h);
    } else {
        lemma_find_some_has_key(s.drop_first(), h);
        let i = choose|i: int| 0 <= i < s.drop_first().len() && (#[trigger] s.drop_first()[i]).0
            == h;
        assert(s[i + 1].0 == h);
    }
}

/// A hash that is not found is held by no entry.
proof fn lemma_find_hash_none_no_key(s: Seq<(Seq<u8>, u64)>, h: Seq<u8>)
    requires
        spec_find_hash(s, h) is None,
    ensures
        forall|i: int| 0 <= i < s.len() ==> (#[trigger] s[i]).0 != h,
    decreases s.len(),
{
    if s.len() > 0 {
        let rest = s.drop_first();
        lemma_find_hash_none_no_key(rest, h);
        assert forall|i: int| 0 <= i < s.len() implies (#[trigger] s[i]).0 != h by {
            if i > 0 {
                assert(rest[i - 1].0 != h);
            }
        }
    }
}

/// The purge count never exceeds the queue length.
proof fn lemma_purge_count_le(q: Seq<(u64, Seq<u8>)>, window: u64, now: u64)
    ensures
        0 <= purge_count(q, window, now) <= q.len(),
    decreases q.len(),
{
    if q.len() > 0 && q[0].0 + window <= now {
        lemma_purge_count_le(q.drop_first(), window, now);
    }
}

/// The dedup queue and index are in lockstep: equal length, the same
/// hash at each position, pairwise distinct hashes, and timestamps in
/// non-decreasing order.
pub open spec fn dedup_lockstep(q: Seq<(u64, Seq<u8>)>, x: Seq<(Seq<u8>, u64)>) -> bool {
    &&& q.len() == x.len()
    &&& forall|i: int| 0 <= i < q.len() ==> (#[trigger] q[i]).1 == x[i].0
    &&& forall|i: int, j: int|
        #![trigger q[i], q[j]]
        0 <= i < j < q.len() ==> q[i].1 != q[j].1
    &&& forall|i: int, j: int|
        #![trigger q[i], q[j]]
        0 <= i <= j < q.len() ==> q[i].0 <= q[j].0
}

/// Dropping a common prefix keeps the dedup structures in lockstep.
proof fn lemma_dedup_lockstep_skip(q: Seq<(u64, Seq<u8>)>, x: Seq<(Seq<u8>, u64)>, c: int)
    requires
        dedup_lockstep(q, x),
        0 <= c <= q.len(),
    ensures
        dedup_lockstep(q.skip(c), x.skip(c)),
{
    let qs = q.skip(c);
    let xs = x.skip(c);
    assert forall|i: int| 0 <= i < qs.len() implies (#[trigger] qs[i]).1 == xs[i].0 by {
        assert(q[c + i].1 == x[c + i].0);
    }
    assert forall|i: int, j: int|
        #![trigger qs[i], qs[j]]
        0 <= i < j < qs.len() implies qs[i].1 != qs[j].1 by {
        assert(q[c + i].1 != q[c + j].1);
    }
    assert forall|i: int, j: int|
        #![trigger qs[i], qs[j]]
        0 <= i <= j < qs.len() implies qs[i].0 <= qs[j].0 by {
        assert(q[c + i].0 <= q[c + j].0);
    }
}

/// Appending a fresh hash with a timestamp no older than every queued
/// one keeps the dedup structures in lockstep.
proof fn lemma_dedup_lockstep_push(
    q: Seq<(u64, Seq<u8>)>,
    x: Seq<(Seq<u8>, u64)>,
    ts: u64,
    h: Seq<u8>,
    height: u64,
)
    requires
        dedup_lockstep(q, x),
        forall|i: int| 0 <= i < q.len() ==> (#[trigger] q[i]).1 != h,
        forall|i: int| 0 <= i < q.len() ==> (#[trigger] q[i]).0 <= ts,
    ensures
        dedup_lockstep(q.push((ts, h)), x.push((h, height))),
{
    let qp = q.push((ts, h));
    let xp = x.push((h, height));
    assert forall|i: int| 0 <= i < qp.len() implies (#[trigger] qp[i]).1 == xp[i].0 by {
        if i < q.len() {
            assert(q[i].1 == x[i].0);
        }
    }
    assert forall|i: int, j: int|
        #![trigger qp[i], qp[j]]
        0 <= i < j < qp.len() implies qp[i].1 != qp[j].1 by {
        if j < q.len() {
            assert(q[i].1 != q[j].1);
        } else {
            assert(q[i].1 != h);
        }
    }
    assert forall|i: int, j: int|
        #![trigger qp[i], qp[j]]
        0 <= i <= j < qp.len() implies qp[i].0 <= qp[j].0 by {
        if j < q.len() {
            assert(q[i].0 <= q[j].0);
        } else if i < q.len() {
            assert(q[i].0 <= ts);
        }
    }
}

/// Removing the height of the next purged entry advances the purge by
/// one entry.
proof fn lemma_purged_heights_step(x0: Seq<(Seq<u8>, u64)>, n0: Set<u64>, k: int)
    requires
        0 <= k < x0.len(),
    ensures
        n0.difference(purged_heights(x0, k)).remove(x0[k].1) == n0.difference(
            purged_heights(x0, k + 1),
        ),
{
    assert(n0.difference(purged_heights(x0, k)).remove(x0[k].1) =~= n0.difference(
        purged_heights(x0, k + 1),
    )) by {
        assert forall|h: u64|
            purged_heights(x0, k + 1).contains(h) <==> (purged_heights(x0, k).contains(h) || h
                == x0[k].1) by {
            if purged_heights(x0, k + 1).contains(h) {
                let i = choose|i: int| 0 <= i < k + 1 && i < x0.len() && x0[i].1 == h;
                if i < k {
                    assert(purged_heights(x0, k).contains(h));
                }
            }
            if purged_heights(x0, k).contains(h) {
                let i = choose|i: int| 0 <= i < k && i < x0.len() && x0[i].1 == h;
                assert(0 <= i < k + 1 && i < x0.len() && x0[i].1 == h);
            }
            if h == x0[k].1 {
                assert(0 <= k < k + 1 && k < x0.len() && x0[k].1 == h);
            }
        }
    }
}

/// A hash held at some index is found.
proof fn lemma_find_hash_present(s: Seq<(Seq<u8>, u64)>, h: Seq<u8>, idx: int)
    requires
        0 <= idx < s.len(),
        s[idx].0 == h,
    ensures
        spec_find_hash(s, h) is Some,
    decreases idx,
{
    if s[0].0 != h {
        assert(s.drop_first()[idx - 1].0 == h);
        lemma_find_hash_present(s.drop_first(), h, idx - 1);
    }
}

/// Every entry before the purge cut has aged out.
proof fn lemma_purge_count_expired(q: Seq<(u64, Seq<u8>)>, window: u64, now: u64)
    ensures
        forall|j: int|
            0 <= j < purge_count(q, window, now) ==> (#[trigger] q[j]).0 + window <= now,
    decreases q.len(),
{
    lemma_purge_count_le(q, window, now);
    if q.len() > 0 && q[0].0 + window <= now {
        let rest = q.drop_first();
        lemma_purge_count_expired(rest, window, now);
        assert forall|j: int|
            0 <= j < purge_count(q, window, now) implies (#[trigger] q[j]).0 + window <= now by {
            if j > 0 {
                assert(rest[j - 1].0 + window <= now);
            }
        }
    }
}

/// Replay protection, first half: a transaction whose hash is still
/// remembered — its block timestamp has not aged out of the window at
/// `now` — is still in the dedup index after the purge at `now`, so a
/// payment with that content hash is rejected as a duplicate.
pub proof fn lemma_duplicate_rejected_within_window(l: &Ledger, h: Seq<u8>, i: int, now: u64)
    requires
        l.wf(),
        0 <= i < l.dedup_queue().len(),
        l.dedup_queue()[i].1 == h,
        l.dedup_queue()[i].0 + l.transaction_window_nanos > now,
    ensures
        spec_find_hash(
            l.dedup_index().skip(purge_count(l.dedup_queue(), l.transaction_window_nanos, now)),
            h,
        ) is Some,
{
    let q = l.dedup_queue();
    let x = l.dedup_index();
    let w = l.transaction_window_nanos;
    let cnt = purge_count(q, w, now);
    lemma_purge_count_le(q, w, now);
    lemma_purge_count_expired(q, w, now);
    assert(cnt <= i) by {
        if cnt > i {
            assert(q[i].0 + w <= now);
        }
    }
    assert(x.skip(cnt)[i - cnt] == x[i]);
    assert(x[i].0 == q[i].1);
    lemma_find_hash_present(x.skip(cnt), h, i - cnt);
}

/// Replay protection, second half: once every remembered transaction
/// has aged out of the window at `now`, the purge at `now` empties the
/// dedup index, and no content hash is rejected as a duplicate any
/// more.
pub proof fn lemma_window_elapsed_forgets(l: &Ledger, h: Seq<u8>, now: u64)
    requires
        l.wf(),
        forall|i: int|
            0 <= i < l.dedup_queue().len() ==> (#[trigger] l.dedup_queue()[i]).0
                + l.transaction_window_nanos <= now,
    ensures
        spec_find_hash(
            l.dedup_index().skip(purge_count(l.dedup_queue(), l.transaction_window_nanos, now)),
            h,
        ) is None,
{
    let q = l.dedup_queue();
    let x = l.dedup_index();
    let w = l.transaction_window_nanos;
    lemma_purge_count_is(q, w, now, q.len() as int);
    assert(x.skip(q.len() as int) =~= Seq::<(Seq<u8>, u64)>::empty());
}

/// The balances map after minting each entry in order: each mint
/// credits its account.
pub open spec fn spec_mint_maps(
    m: Map<AccountIdentifier, u64>,
    s: Seq<(AccountIdentifier, TOKENs)>,
) -> Map<AccountIdentifier, u64>
    decreases s.len(),
{
    if s.len() == 0 {
        m
    } else {
        let prev = spec_mint_maps(m, s.drop_last());
        crate::balances::set_bal(
            prev,
            s.last().0,
            (crate::balances::bal(prev, s.last().0) + s.last().1@) as u64,
        )
    }
}

/// The block-creating transaction of one initial mint: the minted
/// account and amount, the default memo, created at the given time.
pub open spec fn spec_mint_transaction(
    v: (AccountIdentifier, TOKENs),
    timestamp: TimeStamp,
) -> Transaction {
    Transaction {
        operation: Operation::Mint { to: v.0, amount: v.1 },
        memo: Memo(0),
        created_at_time: timestamp,
    }
}

/// The dedup digest of one initial mint's transaction.
pub open spec fn spec_mint_digest(v: (AccountIdentifier, TOKENs), timestamp: TimeStamp) -> Seq<
    u8,
> {
    crate::hashing::sha256_of(
        crate::codec::spec_encode_transaction(spec_mint_transaction(v, timestamp)),
    )
}

/// The single long-lived ledger state: balances, blockchain, the
/// dedup window over recent transactions, notification flags, and the
/// whitelist of canisters allowed to send.
pub struct Ledger {
    pub balances: LedgerBalances,
    pub blockchain: Blockchain,
    /// A cap on the number of accounts.
    pub maximum_number_of_accounts: usize,
    /// How many lowest-balance accounts are removed when the cap is
    /// exceeded.
    pub accounts_overflow_trim_quantity: usize,
    pub minting_account_id: Option<AccountIdentifier>,
    /// Heights whose one-shot notification flag is set.
    pub blocks_notified: intmap::IntMap<()>,
    /// How long transactions are remembered to detect duplicates, in
    /// nanoseconds.
    pub transaction_window_nanos: u64,
    /// For each remembered transaction, its content hash and the
    /// height of its block; same order as `transactions_by_height`.
    pub transactions_by_hash: VecDeque<(HashOf, u64)>,
    /// The remembered transactions in block order.
    pub transactions_by_height: VecDeque<TransactionInfo>,
    /// Canisters allowed to send despite not being self-authenticating.
    pub send_whitelist: Vec<CanisterId>,
}

impl Ledger {
    /// The dedup queue: block timestamp and transaction hash of each
    /// remembered transaction, in block order.
    pub closed spec fn dedup_queue(&self) -> Seq<(u64, Seq<u8>)> {
        self.transactions_by_height@.map_values(
            |ti: TransactionInfo| (ti.block_timestamp.timestamp_nanos, ti.transaction_hash@),
        )
    }

    /// The dedup index: transaction hash and block height of each
    /// remembered transaction, in the same order as the queue.
    pub closed spec fn dedup_index(&self) -> Seq<(Seq<u8>, u64)> {
        self.transactions_by_hash@.map_values(|e: (HashOf, u64)| (e.0@, e.1))
    }

    /// The set of heights whose notification flag is set.
    pub closed spec fn spec_notified(&self) -> Set<u64> {
        notified_set(self.blocks_notified)
    }

    /// The whitelist of canisters allowed to send.
    pub closed spec fn spec_whitelist(&self) -> Seq<CanisterId> {
        self.send_whitelist@
    }

    /// The account-count cap.
    pub closed spec fn spec_max_accounts(&self) -> usize {
        self.maximum_number_of_accounts
    }

    /// How many accounts are trimmed when the cap is exceeded.
    pub closed spec fn spec_trim_quantity(&self) -> usize {
        self.accounts_overflow_trim_quantity
    }

    /// Well-formedness: balances and blockchain are well formed, and
    /// the two dedup structures are in lockstep.
    pub open spec fn wf(&self) -> bool {
        &&& self.balances.wf()
        &&& self.blockchain.wf()
        &&& dedup_lockstep(self.dedup_queue(), self.dedup_index())
        &&& forall|i: int|
            0 <= i < self.dedup_queue().len() ==> (#[trigger] self.dedup_queue()[i]).0
                <= self.blockchain.spec_last_timestamp().timestamp_nanos
    }

    /// Everything except the dedup structures and notification flags
    /// is unchanged.
    pub open spec fn same_but_dedup(&self, other: &Ledger) -> bool {
        &&& self.balances == other.balances
        &&& self.blockchain == other.blockchain
        &&& self.minting_account_id == other.minting_account_id
        &&& self.transaction_window_nanos == other.transaction_window_nanos
        &&& self.spec_whitelist() == other.spec_whitelist()
        &&& self.spec_max_accounts() == other.spec_max_accounts()
        &&& self.spec_trim_quantity() == other.spec_trim_quantity()
    }

    /// Whether the oldest remembered transaction has aged out of the
    /// window at `now`.
    fn dedup_front_expired(&self, now: TimeStamp) -> (r: bool)
        ensures
            r == (self.dedup_queue().len() > 0 && self.dedup_queue()[0].0
                + self.transaction_window_nanos <= now.timestamp_nanos),
    {
        if self.transactions_by_height.len() == 0 {
            return false;
        }
        let ts = self.transactions_by_height[0].block_timestamp;
        (ts.timestamp_nanos as u128) + (self.transaction_window_nanos as u128) <= (
        now.timestamp_nanos as u128)
    }

    /// Removes every remembered transaction that has aged out of the
    /// window, and clears the notification flags of their heights.
    fn purge_old_transactions(&mut self, now: TimeStamp)
        requires
            old(self).wf(),
        ensures
            final(self).wf(),
            final(self).same_but_dedup(old(self)),
            ({
                let cnt = purge_count(
                    old(self).dedup_queue(),
                    old(self).transaction_window_nanos,
                    now.timestamp_nanos,
                );
                &&& final(self).dedup_queue() == old(self).dedup_queue().skip(cnt)
                &&& final(self).dedup_index() == old(self).dedup_index().skip(cnt)
                &&& final(self).spec_notified() == old(self).spec_notified().difference(
                    purged_heights(old(self).dedup_index(), cnt),
                )
            }),
    {
        let ghost q0 = self.dedup_queue();
        let ghost x0 = self.dedup_index();
        let ghost n0 = self.spec_notified();
        let ghost mut k: int = 0;
        proof {
            assert(self.dedup_queue() =~= q0.skip(0));
            assert(self.dedup_index() =~= x0.skip(0));
            assert(self.spec_notified() =~= n0.difference(purged_heights(x0, 0)));
        }
        while self.dedup_front_expired(now)
            invariant
                self.wf(),
                self.same_but_dedup(old(self)),
                0 <= k <= q0.len(),
                q0.len() == x0.len(),
                dedup_lockstep(q0, x0),
                forall|i: int|
                    0 <= i < k ==> (#[trigger] q0[i]).0 + old(self).transaction_window_nanos
                        <= now.timestamp_nanos,
                self.dedup_queue() == q0.skip(k),
                self.dedup_index() == x0.skip(k),
                self.spec_notified() == n0.difference(purged_heights(x0, k)),
            decreases q0.len() - k,
        {
            let ghost pre = *self;
            let info = match self.transactions_by_height.pop_front() {
                Some(ti) => ti,
                None => {
                    proof {
                        assert(false);
                    }
                    TransactionInfo {
                        block_timestamp: TimeStamp { timestamp_nanos: 0 },
                        transaction_hash: HashOf::new(Vec::new()),
                    }
                },
            };
            let entry = match self.transactions_by_hash.pop_front() {
                Some(e) => e,
                None => {
                    proof {
                        assert(false);
                    }
                    (HashOf::new(Vec::new()), 0u64)
                },
            };
            notified_remove(&mut self.blocks_notified, entry.1);
            proof {
                assert(pre.dedup_queue()[0] == q0[k]);
                assert(pre.dedup_index()[0] == x0[k]);
                assert(entry.1 == x0[k].1);
                assert(self.dedup_queue() =~= q0.skip(k + 1)) by {
                    assert forall|i: int| 0 <= i < self.dedup_queue().len() implies self.dedup_queue()[i]
                        == q0.skip(k + 1)[i] by {
                        assert(self.dedup_queue()[i] == pre.dedup_queue()[i + 1]);
                        assert(pre.dedup_queue()[i + 1] == q0.skip(k)[i + 1]);
                    }
                }
                assert(self.dedup_index() =~= x0.skip(k + 1)) by {
                    assert forall|i: int| 0 <= i < self.dedup_index().len() implies self.dedup_index()[i]
                        == x0.skip(k + 1)[i] by {
                        assert(self.dedup_index()[i] == pre.dedup_index()[i + 1]);
                        assert(pre.dedup_index()[i + 1] == x0.skip(k)[i + 1]);
                    }
                }
                lemma_purged_heights_step(x0, n0, k);
                lemma_dedup_lockstep_skip(q0, x0, k + 1);
                assert forall|i: int| 0 <= i < self.dedup_queue().len() implies (
                #[trigger] self.dedup_queue()[i]).0
                    <= self.blockchain.spec_last_timestamp().timestamp_nanos by {
                    assert(pre.dedup_queue()[i + 1].0
                        <= pre.blockchain.spec_last_timestamp().timestamp_nanos);
                }
                k = k + 1;
            }
        }
        proof {
            if self.dedup_queue().len() > 0 {
                assert(q0.skip(k)[0] == q0[k]);
            }
            lemma_purge_count_is(q0, old(self).transaction_window_nanos, now.timestamp_nanos, k);
        }
    }

    /// Looks a transaction hash up in the dedup index.
    fn find_transaction(&self, h: &HashOf) -> (r: Option<u64>)
        ensures
            r == spec_find_hash(self.dedup_index(), h@),
    {
        let n = self.transactions_by_hash.len();
        let mut i: usize = 0;
        while i < n
            invariant
                n == self.dedup_index().len(),
                0 <= i <= n,
                forall|j: int| 0 <= j < i ==> (#[trigger] self.dedup_index()[j]).0 != h@,
            decreases n - i,
        {
            if self.transactions_by_hash[i].0.same_hash(h) {
                proof {
                    lemma_find_hash_skip(self.dedup_index(), h@, i as int);
                    assert(self.dedup_index().skip(i as int)[0] == self.dedup_index()[i as int]);
                }
                return Some(self.transactions_by_hash[i].1);
            }
            i += 1;
        }
        proof {
            lemma_find_hash_skip(self.dedup_index(), h@, n as int);
            assert(self.dedup_index().skip(n as int) =~= Seq::<(Seq<u8>, u64)>::empty());
        }
        None
    }

    /// When the account count exceeds the cap plus the trim quantity,
    /// burns away the lowest-balance accounts, one block per account,
    /// all timestamped `now`; otherwise changes nothing.
    #[verifier::rlimit(60)]
    #[verifier::spinoff_prover]
    fn trim_overflow_accounts(&mut self, now: TimeStamp) -> (sel: Ghost<
        Seq<(TOKENs, AccountIdentifier)>,
    >)
        requires
            old(self).wf(),
            old(self).blockchain.hist().len() >= 1,
            old(self).blockchain.spec_last_timestamp() == now,
            old(self).blockchain.hist().len() + old(self).spec_trim_quantity() <= u64::MAX,
            old(self).spec_max_accounts() + old(self).spec_trim_quantity() <= usize::MAX,
        ensures
            final(self).wf(),
            old(self).blockchain.chain_linked() ==> final(self).blockchain.chain_linked(),
            final(self).dedup_queue() == old(self).dedup_queue(),
            final(self).dedup_index() == old(self).dedup_index(),
            final(self).spec_notified() == old(self).spec_notified(),
            final(self).minting_account_id == old(self).minting_account_id,
            final(self).transaction_window_nanos == old(self).transaction_window_nanos,
            final(self).spec_whitelist() == old(self).spec_whitelist(),
            final(self).spec_max_accounts() == old(self).spec_max_accounts(),
            final(self).spec_trim_quantity() == old(self).spec_trim_quantity(),
            final(self).blockchain.spec_num_archived() == old(self).blockchain.spec_num_archived(),
            final(self).blockchain.spec_last_timestamp() == now,
            final(self).blockchain.hist().take(old(self).blockchain.hist().len() as int) == old(
                self,
            ).blockchain.hist(),
            ({
                let m1 = old(self).balances.balances_map();
                let p1 = old(self).balances.spec_pool();
                let h1 = old(self).blockchain.hist().len() as int;
                let qty = old(self).spec_trim_quantity() as int;
                if m1.dom().len() <= old(self).spec_max_accounts() + old(
                    self,
                ).spec_trim_quantity() {
                    &&& final(self).balances == old(self).balances
                    &&& final(self).blockchain == old(self).blockchain
                } else {
                    &&& final(self).blockchain.hist().len() == h1 + qty
                    &&& sel@.len() == qty
                    &&& crate::balances::is_trim_selection(sel@, m1)
                    &&& (forall|j: int|
                        0 <= j < qty ==> {
                            let b = #[trigger] final(self).blockchain.hist()[h1 + j];
                            &&& b.transaction.operation == (Operation::Burn {
                                from: sel@[j].1,
                                amount: sel@[j].0,
                            })
                            &&& b.transaction.memo.0 == 0
                            &&& b.transaction.created_at_time == now
                            &&& b.timestamp == now
                        })
                    &&& final(self).balances.balances_map()
                        == crate::balances::spec_remove_selected(m1, sel@, qty)
                    &&& final(self).balances.spec_pool() == p1
                        + crate::balances::spec_selected_sum(sel@, qty)
                }
            }),
    {
        let ghost hist1 = self.blockchain.hist();
        let ghost m1 = self.balances.balances_map();
        let ghost p1 = self.balances.spec_pool();
        let num_accounts_now = self.balances.store.num_accounts();
        if num_accounts_now <= self.maximum_number_of_accounts
            + self.accounts_overflow_trim_quantity {
            proof {
                assert(self.blockchain.hist().take(hist1.len() as int) =~= hist1);
            }
            return Ghost(Seq::empty());
        }
        let to_trim: Vec<(TOKENs, AccountIdentifier)> = self.balances.select_accounts_to_trim(
            self.accounts_overflow_trim_quantity,
        );
        let mut ti: usize = 0;
        proof {
            assert(self.blockchain.hist().take(hist1.len() as int) =~= hist1);
        }
        while ti < to_trim.len()
            invariant
                self.wf(),
                old(self).blockchain.chain_linked() ==> self.blockchain.chain_linked(),
                0 <= ti <= to_trim@.len(),
                self.blockchain.hist().len() == hist1.len() + ti,
                self.blockchain.hist().take(hist1.len() as int) == hist1,
                self.blockchain.spec_last_timestamp() == now,
                self.blockchain.spec_num_archived() == old(self).blockchain.spec_num_archived(),
                hist1 == old(self).blockchain.hist(),
                hist1.len() >= 1,
                hist1.len() + to_trim@.len() <= u64::MAX,
                forall|j: int|
                    hist1.len() <= j < self.blockchain.hist().len() ==> {
                        let b = #[trigger] self.blockchain.hist()[j];
                        &&& b.transaction.operation is Burn
                        &&& b.transaction.memo.0 == 0
                        &&& b.transaction.created_at_time == now
                        &&& b.timestamp == now
                    },
                forall|j: int|
                    ti <= j < to_trim@.len() ==> self.balances.balances_map().contains_key(
                        (#[trigger] to_trim@[j]).1,
                    ) && self.balances.balances_map()[to_trim@[j].1] == to_trim@[j].0@,
                forall|i1: int, i2: int|
                    0 <= i1 < i2 < to_trim@.len() ==> to_trim@[i1].1 != to_trim@[i2].1,
                m1 == old(self).balances.balances_map(),
                p1 == old(self).balances.spec_pool(),
                crate::balances::is_trim_selection(to_trim@, m1),
                self.balances.balances_map() == crate::balances::spec_remove_selected(
                    m1,
                    to_trim@,
                    ti as int,
                ),
                self.balances.spec_pool() == p1 + crate::balances::spec_selected_sum(
                    to_trim@,
                    ti as int,
                ),
                forall|j: int|
                    0 <= j < ti ==> (#[trigger] self.blockchain.hist()[hist1.len() + j]).transaction.operation
                        == (Operation::Burn { from: to_trim@[j].1, amount: to_trim@[j].0 }),
                self.dedup_queue() == old(self).dedup_queue(),
                self.dedup_index() == old(self).dedup_index(),
                self.spec_notified() == old(self).spec_notified(),
                self.minting_account_id == old(self).minting_account_id,
                self.transaction_window_nanos == old(self).transaction_window_nanos,
                self.spec_whitelist() == old(self).spec_whitelist(),
                self.spec_max_accounts() == old(self).spec_max_accounts(),
                self.spec_trim_quantity() == old(self).spec_trim_quantity(),
            decreases to_trim@.len() - ti,
        {
            let (balance, account) = to_trim[ti];
            let operation = Operation::Burn { from: account, amount: balance };
            self.balances.add_payment(&operation);
            proof {
                assert forall|j: int|
                    ti + 1 <= j < to_trim@.len() implies self.balances.balances_map().contains_key(
                        (#[trigger] to_trim@[j]).1,
                    ) && self.balances.balances_map()[to_trim@[j].1] == to_trim@[j].0@ by {
                    assert(to_trim@[j].1 != account);
                }
            }
            let parent2 = self.blockchain.last_hash();
            let burn_block = crate::ic_block::Block::new_from_transaction(
                parent2,
                Transaction { operation, memo: Memo::default(), created_at_time: now },
                now,
            );
            match self.blockchain.add_block(burn_block) {
                Ok(_) => {},
                Err(_) => {
                    proof {
                        assert(false);
                    }
                },
            }
            proof {
                assert(self.blockchain.hist().take(hist1.len() as int) =~= hist1);
                assert(self.balances.balances_map() == crate::balances::spec_remove_selected(
                    m1,
                    to_trim@,
                    ti + 1,
                ));
                assert(self.balances.spec_pool() == p1 + crate::balances::spec_selected_sum(
                    to_trim@,
                    ti + 1,
                ));
            }
            ti += 1;
        }
        Ghost(to_trim@)
    }

    /// Applies an accepted payment: mutates the balances, appends the
    /// block, remembers the transaction for deduplication, and trims
    /// overflowing accounts. The caller has already validated the
    /// payment.
    #[verifier::rlimit(60)]
    #[verifier::spinoff_prover]
    fn finish_accepted_payment(
        &mut self,
        transaction: Transaction,
        transaction_hash: HashOf,
        now: TimeStamp,
    ) -> (r: ((BlockHeight, HashOf), Ghost<Seq<(TOKENs, AccountIdentifier)>>))
        requires
            old(self).wf(),
            transaction_hash@ == crate::hashing::sha256_of(
                crate::codec::spec_encode_transaction(transaction),
            ),
            transaction_hash.wf(),
            spec_find_hash(old(self).dedup_index(), transaction_hash@) is None,
            now.timestamp_nanos >= old(self).blockchain.spec_last_timestamp().timestamp_nanos,
            old(self).balances.can_apply(transaction.operation),
            old(self).blockchain.hist().len() + 1 + old(self).spec_trim_quantity() <= u64::MAX,
            old(self).spec_max_accounts() + old(self).spec_trim_quantity() <= usize::MAX,
        ensures
            final(self).wf(),
            old(self).blockchain.chain_linked() ==> final(self).blockchain.chain_linked(),
            final(self).minting_account_id == old(self).minting_account_id,
            final(self).transaction_window_nanos == old(self).transaction_window_nanos,
            final(self).spec_whitelist() == old(self).spec_whitelist(),
            final(self).spec_max_accounts() == old(self).spec_max_accounts(),
            final(self).spec_trim_quantity() == old(self).spec_trim_quantity(),
            final(self).spec_notified() == old(self).spec_notified(),
            ({
                let h0 = old(self).blockchain.hist().len() as int;
                let m1 = crate::balances::spec_apply_operation(
                    old(self).balances.balances_map(),
                    transaction.operation,
                );
                let p1 = crate::balances::spec_apply_pool(
                    old(self).balances.spec_pool(),
                    transaction.operation,
                );
                &&& r.0.0 == h0
                &&& final(self).blockchain.spec_last_hash() == Some(r.0.1@)
                &&& final(self).blockchain.hist()[h0] == (crate::ic_block::BlockV {
                    parent_hash: old(self).blockchain.spec_last_hash(),
                    transaction,
                    timestamp: now,
                })
                &&& final(self).blockchain.hist().take(h0) == old(self).blockchain.hist()
                &&& final(self).blockchain.spec_num_archived() == old(
                    self,
                ).blockchain.spec_num_archived()
                &&& final(self).blockchain.spec_last_timestamp() == now
                &&& final(self).dedup_queue() == old(self).dedup_queue().push(
                    (now.timestamp_nanos, transaction_hash@),
                )
                &&& final(self).dedup_index() == old(self).dedup_index().push(
                    (transaction_hash@, h0 as u64),
                )
                &&& (if m1.dom().len() <= old(self).spec_max_accounts() + old(
                    self,
                ).spec_trim_quantity() {
                    &&& final(self).blockchain.hist().len() == h0 + 1
                    &&& final(self).balances.balances_map() == m1
                    &&& final(self).balances.spec_pool() == p1
                } else {
                    let qty = old(self).spec_trim_quantity() as int;
                    &&& final(self).blockchain.hist().len() == h0 + 1 + qty
                    &&& r.1@.len() == qty
                    &&& crate::balances::is_trim_selection(r.1@, m1)
                    &&& (forall|j: int|
                        0 <= j < qty ==> {
                            let b = #[trigger] final(self).blockchain.hist()[h0 + 1 + j];
                            &&& b.transaction.operation == (Operation::Burn {
                                from: r.1@[j].1,
                                amount: r.1@[j].0,
                            })
                            &&& b.transaction.memo.0 == 0
                            &&& b.transaction.created_at_time == now
                            &&& b.timestamp == now
                        })
                    &&& final(self).balances.balances_map()
                        == crate::balances::spec_remove_selected(m1, r.1@, qty)
                    &&& final(self).balances.spec_pool() == p1
                        + crate::balances::spec_selected_sum(r.1@, qty)
                })
            }),
    {
        let ghost q1 = self.dedup_queue();
        let ghost x1 = self.dedup_index();
        let payment = transaction.operation;
        let parent = self.blockchain.last_hash();
        let block = crate::ic_block::Block::new_from_transaction(parent, transaction, now);
        self.balances.add_payment(&payment);
        let height = match self.blockchain.add_block(block) {
            Ok(h) => h,
            Err(_) => {
                proof {
                    assert(false);
                }
                0u64
            },
        };
        proof {
            lemma_find_hash_none_no_key(x1, transaction_hash@);
            lemma_dedup_lockstep_push(q1, x1, now.timestamp_nanos, transaction_hash@, height);
        }
        self.transactions_by_hash.push_back((transaction_hash.clone(), height));
        self.transactions_by_height.push_back(
            TransactionInfo { block_timestamp: now, transaction_hash },
        );
        proof {
            assert(self.dedup_queue() =~= q1.push(
                (now.timestamp_nanos, self.transactions_by_height@.last().transaction_hash@),
            ));
            assert(self.dedup_index() =~= x1.push(
                (self.transactions_by_hash@.last().0@, height),
            ));
        }
        let sel = self.trim_overflow_accounts(now);
        let tip_hash = match self.blockchain.last_hash() {
            Some(h) => h,
            None => {
                proof {
                    assert(false);
                }
                HashOf::new(Vec::new())
            },
        };
        ((height, tip_hash), sel)
    }

    /// Creates a block for the payment and adds it to the ledger.
    ///
    /// The dedup window is purged of expired entries first; then the
    /// payment is rejected if its creation time has expired, lies too
    /// far in the future, or repeats the content hash of a remembered
    /// transaction. An accepted payment is applied to the balances,
    /// appended as a block, and remembered for deduplication; if the
    /// account count then exceeds the cap plus the trim quantity, the
    /// lowest-balance accounts are burned away in additional blocks.
    ///
    /// Returns the height of the payment's block and the hash of the
    /// chain tip.
    #[verifier::rlimit(100)]
    #[verifier::spinoff_prover]
    pub fn add_payment_with_timestamp(
        &mut self,
        memo: Memo,
        payment: Operation,
        created_at_time: Option<TimeStamp>,
        now: TimeStamp,
    ) -> (r: Result<(BlockHeight, HashOf), PaymentError>)
        requires
            old(self).wf(),
            now.timestamp_nanos >= old(self).blockchain.spec_last_timestamp().timestamp_nanos,
            old(self).blockchain.hist().len() + 1 + old(self).spec_trim_quantity() <= u64::MAX,
            old(self).spec_max_accounts() + old(self).spec_trim_quantity() <= usize::MAX,
            ({
                // the payment must be applicable when it will actually be
                // applied: not expired, not in the future, and not a
                // duplicate of a remembered transaction after the purge
                let cat = match created_at_time {
                    Some(t) => t.timestamp_nanos,
                    None => now.timestamp_nanos,
                };
                let tx = Transaction {
                    operation: payment,
                    memo,
                    created_at_time: TimeStamp { timestamp_nanos: cat },
                };
                let txh = crate::hashing::sha256_of(crate::codec::spec_encode_transaction(tx));
                let cnt = purge_count(
                    old(self).dedup_queue(),
                    old(self).transaction_window_nanos,
                    now.timestamp_nanos,
                );
                (cat + old(self).transaction_window_nanos >= now.timestamp_nanos && cat
                    <= now.timestamp_nanos + PERMITTED_DRIFT_NANOS && spec_find_hash(
                    old(self).dedup_index().skip(cnt),
                    txh,
                ) is None) ==> old(self).balances.can_apply(payment)
            }),
        ensures
            final(self).wf(),
            old(self).blockchain.chain_linked() ==> final(self).blockchain.chain_linked(),
            final(self).minting_account_id == old(self).minting_account_id,
            final(self).transaction_window_nanos == old(self).transaction_window_nanos,
            final(self).spec_whitelist() == old(self).spec_whitelist(),
            final(self).spec_max_accounts() == old(self).spec_max_accounts(),
            final(self).spec_trim_quantity() == old(self).spec_trim_quantity(),
            ({
                let w = old(self).transaction_window_nanos;
                let nowns = now.timestamp_nanos;
                let cnt = purge_count(old(self).dedup_queue(), w, nowns);
                let q1 = old(self).dedup_queue().skip(cnt);
                let x1 = old(self).dedup_index().skip(cnt);
                let notified1 = old(self).spec_notified().difference(
                    purged_heights(old(self).dedup_index(), cnt),
                );
                let cat = match created_at_time {
                    Some(t) => t.timestamp_nanos,
                    None => nowns,
                };
                let tx = Transaction {
                    operation: payment,
                    memo,
                    created_at_time: TimeStamp { timestamp_nanos: cat },
                };
                let txh = crate::hashing::sha256_of(crate::codec::spec_encode_transaction(tx));
                let rejected = {
                    &&& final(self).balances == old(self).balances
                    &&& final(self).blockchain == old(self).blockchain
                    &&& final(self).dedup_queue() == q1
                    &&& final(self).dedup_index() == x1
                    &&& final(self).spec_notified() == notified1
                };
                if cat + w < nowns {
                    r == Err::<(BlockHeight, HashOf), PaymentError>(
                        PaymentError::ExpiredTransaction,
                    ) && rejected
                } else if cat > nowns + PERMITTED_DRIFT_NANOS {
                    r == Err::<(BlockHeight, HashOf), PaymentError>(PaymentError::FutureTimestamp)
                        && rejected
                } else if spec_find_hash(x1, txh) is Some {
                    r == Err::<(BlockHeight, HashOf), PaymentError>(
                        PaymentError::DuplicateTransaction,
                    ) && rejected
                } else {
                    let h0 = old(self).blockchain.hist().len() as int;
                    let m1 = crate::balances::spec_apply_operation(
                        old(self).balances.balances_map(),
                        payment,
                    );
                    let p1 = crate::balances::spec_apply_pool(
                        old(self).balances.spec_pool(),
                        payment,
                    );
                    &&& r matches Ok(hh) && hh.0 == h0 && final(self).blockchain.spec_last_hash()
                        == Some(hh.1@)
                    &&& final(self).blockchain.hist()[h0] == (crate::ic_block::BlockV {
                        parent_hash: old(self).blockchain.spec_last_hash(),
                        transaction: tx,
                        timestamp: now,
                    })
                    &&& final(self).blockchain.hist().take(h0) == old(self).blockchain.hist()
                    &&& final(self).blockchain.spec_num_archived() == old(
                        self,
                    ).blockchain.spec_num_archived()
                    &&& final(self).blockchain.spec_last_timestamp() == now
                    &&& final(self).dedup_queue() == q1.push((nowns, txh))
                    &&& final(self).dedup_index() == x1.push((txh, h0 as u64))
                    &&& final(self).spec_notified() == notified1
                    &&& (if m1.dom().len() <= old(self).spec_max_accounts() + old(
                        self,
                    ).spec_trim_quantity() {
                        &&& final(self).blockchain.hist().len() == h0 + 1
                        &&& final(self).balances.balances_map() == m1
                        &&& final(self).balances.spec_pool() == p1
                    } else {
                        let qty = old(self).spec_trim_quantity() as int;
                        &&& final(self).blockchain.hist().len() == h0 + 1 + qty
                        &&& exists|sel: Seq<(TOKENs, AccountIdentifier)>|
                            #![trigger sel.len()]
                            {
                                &&& sel.len() == qty
                                &&& crate::balances::is_trim_selection(sel, m1)
                                &&& (forall|j: int|
                                    0 <= j < qty ==> {
                                        let b = #[trigger] final(self).blockchain.hist()[h0 + 1
                                            + j];
                                        &&& b.transaction.operation == (Operation::Burn {
                                            from: sel[j].1,
                                            amount: sel[j].0,
                                        })
                                        &&& b.transaction.memo.0 == 0
                                        &&& b.transaction.created_at_time == now
                                        &&& b.timestamp == now
                                    })
                                &&& final(self).balances.balances_map()
                                    == crate::balances::spec_remove_selected(m1, sel, qty)
                                &&& final(self).balances.spec_pool() == p1
                                    + crate::balances::spec_selected_sum(sel, qty)
                            }
                    })
                }
            }),
    {
        self.purge_old_transactions(now);
        let created_at = match created_at_time {
            Some(t) => t,
            None => now,
        };
        if (created_at.timestamp_nanos as u128) + (self.transaction_window_nanos as u128) < (
        now.timestamp_nanos as u128) {
            return Err(PaymentError::ExpiredTransaction);
        }
        if (created_at.timestamp_nanos as u128) > (now.timestamp_nanos as u128) + (
        PERMITTED_DRIFT_NANOS as u128) {
            return Err(PaymentError::FutureTimestamp);
        }
        let transaction = Transaction { operation: payment, memo, created_at_time: created_at };
        let transaction_hash = transaction.hash();
        match self.find_transaction(&transaction_hash) {
            Some(_) => {
                return Err(PaymentError::DuplicateTransaction);
            },
            None => {},
        }
        let ((height, tip_hash), sel) = self.finish_accepted_payment(
            transaction,
            transaction_hash,
            now,
        );
        proof {
            assert(sel@.len() == sel@.len());
        }
        Ok((height, tip_hash))
    }

    /// Adds a pre-created block to the ledger, applying its operation
    /// to the balances first. Meant for migration: the dedup window is
    /// not consulted and not updated.
    pub fn add_block(&mut self, block: crate::ic_block::Block) -> (r: Result<
        BlockHeight,
        crate::ic_block::ChainError,
    >)
        requires
            old(self).wf(),
            old(self).balances.can_apply(block.transaction.operation),
            block.parent_wf(),
            old(self).blockchain.hist().len() < u64::MAX,
        ensures
            final(self).wf(),
            old(self).blockchain.chain_linked() ==> final(self).blockchain.chain_linked(),
            final(self).balances.balances_map() == crate::balances::spec_apply_operation(
                old(self).balances.balances_map(),
                block.transaction.operation,
            ),
            final(self).balances.spec_pool() == crate::balances::spec_apply_pool(
                old(self).balances.spec_pool(),
                block.transaction.operation,
            ),
            final(self).dedup_queue() == old(self).dedup_queue(),
            final(self).dedup_index() == old(self).dedup_index(),
            final(self).spec_notified() == old(self).spec_notified(),
            ({
                let accepted = block@.parent_hash == old(self).blockchain.spec_last_hash()
                    && block.timestamp.timestamp_nanos
                    >= old(self).blockchain.spec_last_timestamp().timestamp_nanos;
                if accepted {
                    &&& r matches Ok(h) && h == old(self).blockchain.hist().len()
                    &&& final(self).blockchain.hist() == old(self).blockchain.hist().push(block@)
                } else {
                    &&& r is Err
                    &&& final(self).blockchain == old(self).blockchain
                }
            }),
    {
        let operation = block.transaction.operation;
        self.balances.add_payment(&operation);
        self.blockchain.add_block(block)
    }

    /// Mints one initial balance in its own block at `timestamp`.
    /// Fails only when the mint's digest repeats a remembered one.
    #[verifier::rlimit(60)]
    #[verifier::spinoff_prover]
    fn apply_initial_mint(&mut self, to: AccountIdentifier, amount: TOKENs, timestamp: TimeStamp)
        -> (r: Result<(), PaymentError>)
        requires
            old(self).wf(),
            old(self).blockchain.chain_linked(),
            old(self).blockchain.spec_last_timestamp().timestamp_nanos
                <= timestamp.timestamp_nanos,
            amount@ <= old(self).balances.spec_pool(),
            old(self).balances.balances_map().dom().finite(),
            old(self).balances.balances_map().dom().len() + 1 <= old(self).spec_max_accounts(),
            old(self).blockchain.hist().len() + 1 + old(self).spec_trim_quantity() <= u64::MAX,
            old(self).spec_max_accounts() + old(self).spec_trim_quantity() <= usize::MAX,
        ensures
            final(self).wf(),
            final(self).blockchain.chain_linked(),
            final(self).minting_account_id == old(self).minting_account_id,
            final(self).transaction_window_nanos == old(self).transaction_window_nanos,
            final(self).spec_whitelist() == old(self).spec_whitelist(),
            final(self).spec_max_accounts() == old(self).spec_max_accounts(),
            final(self).spec_trim_quantity() == old(self).spec_trim_quantity(),
            r is Err ==> r == Err::<(), PaymentError>(PaymentError::DuplicateTransaction)
                && (exists|k: int|
                0 <= k < old(self).dedup_index().len() && (#[trigger] old(self).dedup_index()[k]).0
                    == spec_mint_digest((to, amount), timestamp)),
            r is Ok ==> {
                &&& final(self).balances.balances_map() == crate::balances::set_bal(
                    old(self).balances.balances_map(),
                    to,
                    (crate::balances::bal(old(self).balances.balances_map(), to) + amount@) as u64,
                )
                &&& final(self).balances.spec_pool() == old(self).balances.spec_pool() - amount@
                &&& final(self).balances.balances_map().dom().finite()
                &&& final(self).balances.balances_map().dom().len() <= old(
                    self,
                ).balances.balances_map().dom().len() + 1
                &&& final(self).blockchain.hist().len() == old(self).blockchain.hist().len() + 1
                &&& final(self).blockchain.hist().take(old(self).blockchain.hist().len() as int)
                    == old(self).blockchain.hist()
                &&& final(self).blockchain.hist().last().transaction == spec_mint_transaction(
                    (to, amount),
                    timestamp,
                )
                &&& final(self).blockchain.hist().last().timestamp == timestamp
                &&& final(self).blockchain.spec_last_timestamp() == timestamp
                &&& final(self).blockchain.spec_num_archived() == old(
                    self,
                ).blockchain.spec_num_archived()
                &&& forall|k: int|
                    0 <= k < final(self).dedup_index().len() ==> (exists|k2: int|
                        0 <= k2 < old(self).dedup_index().len() && (
                        #[trigger] final(self).dedup_index()[k]).0 == old(self).dedup_index()[k2].0)
                        || final(self).dedup_index()[k].0 == spec_mint_digest(
                        (to, amount),
                        timestamp,
                    )
            },
    {
        let ghost pre = *self;
        let ghost cnt = purge_count(
            pre.dedup_queue(),
            pre.transaction_window_nanos,
            timestamp.timestamp_nanos,
        );
        let ghost digest = spec_mint_digest((to, amount), timestamp);
        let memo = Memo::default();
        match self.add_payment_with_timestamp(
            memo,
            Operation::Mint { to, amount },
            None,
            timestamp,
        ) {
            Ok(_) => {
                proof {
                    lemma_purge_count_le(
                        pre.dedup_queue(),
                        pre.transaction_window_nanos,
                        timestamp.timestamp_nanos,
                    );
                    assert(pre.dedup_queue().len() == pre.dedup_index().len());
                    let x1 = pre.dedup_index().skip(cnt);
                    assert forall|k: int| 0 <= k < self.dedup_index().len() implies (exists|
                        k2: int,
                    |
                        0 <= k2 < pre.dedup_index().len() && (#[trigger] self.dedup_index()[k]).0
                            == pre.dedup_index()[k2].0) || self.dedup_index()[k].0 == digest by {
                        if k < x1.len() {
                            assert(self.dedup_index()[k] == pre.dedup_index()[cnt + k]);
                            assert(0 <= cnt + k < pre.dedup_index().len()
                                && self.dedup_index()[k].0 == pre.dedup_index()[cnt + k].0);
                        } else {
                            assert(self.dedup_index()[k].0 == digest);
                        }
                    }
                }
                Ok(())
            },
            Err(_) => {
                proof {
                    lemma_purge_count_le(
                        pre.dedup_queue(),
                        pre.transaction_window_nanos,
                        timestamp.timestamp_nanos,
                    );
                    assert(pre.dedup_queue().len() == pre.dedup_index().len());
                    let x1 = pre.dedup_index().skip(cnt);
                    lemma_find_some_has_key(x1, digest);
                    let k = choose|k: int| 0 <= k < x1.len() && (#[trigger] x1[k]).0 == digest;
                    assert(x1[k] == pre.dedup_index()[cnt + k]);
                    assert(0 <= cnt + k < pre.dedup_index().len() && pre.dedup_index()[cnt + k].0
                        == digest);
                }
                Err(PaymentError::DuplicateTransaction)
            },
        }
    }

    /// Initializes a fresh ledger: fixes the minting account and the
    /// window, mints every initial balance in its own block at
    /// `timestamp`, and installs the send whitelist. Fails only if two
    /// mints collide in the dedup index; nothing is minted past the
    /// first failure.
    #[verifier::rlimit(100)]
    #[verifier::spinoff_prover]
    pub fn from_init(
        &mut self,
        initial_values: Vec<(AccountIdentifier, TOKENs)>,
        minting_account: AccountIdentifier,
        timestamp: TimeStamp,
        transaction_window: Option<u64>,
        send_whitelist: Vec<CanisterId>,
    ) -> (r: Result<(), PaymentError>)
        requires
            old(self).wf(),
            old(self).blockchain.hist().len() == 0,
            old(self).balances.balances_map() == Map::<AccountIdentifier, u64>::empty(),
            old(self).balances.spec_pool() == u64::MAX,
            old(self).dedup_queue().len() == 0,
            old(self).blockchain.spec_last_timestamp().timestamp_nanos
                <= timestamp.timestamp_nanos,
            crate::balances::sum_of(initial_values@) <= u64::MAX,
            initial_values@.len() < old(self).spec_max_accounts(),
            initial_values@.len() + 1 + old(self).spec_trim_quantity() <= u64::MAX,
            old(self).spec_max_accounts() + old(self).spec_trim_quantity() <= usize::MAX,
        ensures
            final(self).wf(),
            final(self).blockchain.chain_linked(),
            final(self).minting_account_id == Some(minting_account),
            final(self).transaction_window_nanos == (match transaction_window {
                Some(w) => w,
                None => old(self).transaction_window_nanos,
            }),
            final(self).spec_max_accounts() == old(self).spec_max_accounts(),
            final(self).spec_trim_quantity() == old(self).spec_trim_quantity(),
            r is Ok ==> {
                &&& final(self).spec_whitelist() == send_whitelist@
                &&& final(self).balances.balances_map() == spec_mint_maps(
                    Map::<AccountIdentifier, u64>::empty(),
                    initial_values@,
                )
                &&& final(self).balances.spec_pool() == u64::MAX - crate::balances::sum_of(
                    initial_values@,
                )
                &&& final(self).blockchain.hist().len() == initial_values@.len()
                &&& forall|i: int|
                    0 <= i < initial_values@.len() ==> {
                        let b = #[trigger] final(self).blockchain.hist()[i];
                        &&& b.transaction == (Transaction {
                            operation: Operation::Mint {
                                to: initial_values@[i].0,
                                amount: initial_values@[i].1,
                            },
                            memo: Memo(0),
                            created_at_time: timestamp,
                        })
                        &&& b.timestamp == timestamp
                    }
            },
            r is Err ==> r == Err::<(), PaymentError>(PaymentError::DuplicateTransaction),
            (forall|i: int, j: int|
                #![trigger spec_mint_digest(initial_values@[i], timestamp), spec_mint_digest(initial_values@[j], timestamp)]
                0 <= i < j < initial_values@.len() ==> spec_mint_digest(
                    initial_values@[i],
                    timestamp,
                ) != spec_mint_digest(initial_values@[j], timestamp)) ==> r is Ok,
    {
        self.balances.icpt_pool = TOKENs::max_value();
        self.minting_account_id = Some(minting_account);
        match transaction_window {
            Some(w) => {
                self.transaction_window_nanos = w;
            },
            None => {},
        }
        let ghost m0 = Map::<AccountIdentifier, u64>::empty();
        let n = initial_values.len();
        let mut i: usize = 0;
        proof {
            assert(initial_values@.take(0) =~= Seq::<(AccountIdentifier, TOKENs)>::empty());
        }
        while i < n
            invariant
                self.wf(),
                self.blockchain.chain_linked(),
                n == initial_values@.len(),
                0 <= i <= n,
                crate::balances::sum_of(initial_values@) <= u64::MAX,
                n < self.spec_max_accounts(),
                n + 1 + self.spec_trim_quantity() <= u64::MAX,
                self.spec_max_accounts() + self.spec_trim_quantity() <= usize::MAX,
                self.spec_max_accounts() == old(self).spec_max_accounts(),
                self.spec_trim_quantity() == old(self).spec_trim_quantity(),
                self.minting_account_id == Some(minting_account),
                self.transaction_window_nanos == (match transaction_window {
                    Some(w) => w,
                    None => old(self).transaction_window_nanos,
                }),
                self.balances.balances_map() == spec_mint_maps(m0, initial_values@.take(i as int)),
                self.balances.balances_map().dom().finite(),
                self.balances.balances_map().dom().len() <= i,
                self.balances.spec_pool() == u64::MAX - crate::balances::sum_of(
                    initial_values@.take(i as int),
                ),
                self.blockchain.hist().len() == i,
                self.blockchain.spec_last_timestamp().timestamp_nanos
                    <= timestamp.timestamp_nanos,
                self.blockchain.spec_num_archived() == 0,
                forall|k: int|
                    0 <= k < self.dedup_index().len() ==> exists|j: int|
                        0 <= j < i && (#[trigger] self.dedup_index()[k]).0 == spec_mint_digest(
                            initial_values@[j],
                            timestamp,
                        ),
                forall|j: int|
                    0 <= j < i ==> {
                        let b = #[trigger] self.blockchain.hist()[j];
                        &&& b.transaction == (Transaction {
                            operation: Operation::Mint {
                                to: initial_values@[j].0,
                                amount: initial_values@[j].1,
                            },
                            memo: Memo(0),
                            created_at_time: timestamp,
                        })
                        &&& b.timestamp == timestamp
                    },
            decreases n - i,
        {
            let (to, amount) = initial_values[i];
            let ghost pre = *self;
            proof {
                crate::balances::lemma_sum_of_take_succ(initial_values@, i as int);
                crate::balances::lemma_sum_of_take_le(initial_values@, i as int + 1);
            }
            match self.apply_initial_mint(to, amount, timestamp) {
                Ok(_) => {},
                Err(_) => {
                    proof {
                        // a remembered digest equals this mint's digest,
                        // and every remembered digest belongs to an
                        // earlier mint: two mints collide
                        let k = choose|k: int|
                            0 <= k < pre.dedup_index().len() && (#[trigger] pre.dedup_index()[k]).0
                                == spec_mint_digest((to, amount), timestamp);
                        let j = choose|j: int|
                            0 <= j < i && (#[trigger] pre.dedup_index()[k]).0 == spec_mint_digest(
                                initial_values@[j],
                                timestamp,
                            );
                        assert(spec_mint_digest(initial_values@[j], timestamp) == spec_mint_digest(
                            initial_values@[i as int],
                            timestamp,
                        ));
                    }
                    return Err(PaymentError::DuplicateTransaction);
                },
            }
            proof {
                assert forall|k: int| 0 <= k < self.dedup_index().len() implies exists|j: int|
                    0 <= j < i + 1 && (#[trigger] self.dedup_index()[k]).0 == spec_mint_digest(
                        initial_values@[j],
                        timestamp,
                    ) by {
                    if exists|k2: int|
                        0 <= k2 < pre.dedup_index().len() && (#[trigger] self.dedup_index()[k]).0
                            == pre.dedup_index()[k2].0 {
                        let k2 = choose|k2: int|
                            0 <= k2 < pre.dedup_index().len() && (
                            #[trigger] self.dedup_index()[k]).0 == pre.dedup_index()[k2].0;
                        let j = choose|j: int|
                            0 <= j < i && (#[trigger] pre.dedup_index()[k2]).0 == spec_mint_digest(
                                initial_values@[j],
                                timestamp,
                            );
                        assert(0 <= j < i + 1 && self.dedup_index()[k].0 == spec_mint_digest(
                            initial_values@[j],
                            timestamp,
                        ));
                    } else {
                        assert(self.dedup_index()[k].0 == spec_mint_digest(
                            (to, amount),
                            timestamp,
                        ));
                        assert(0 <= i < i + 1 && self.dedup_index()[k].0 == spec_mint_digest(
                            initial_values@[i as int],
                            timestamp,
                        ));
                    }
                }
            }
            proof {
                assert(initial_values@.take(i as int + 1).drop_last() =~= initial_values@.take(
                    i as int,
                ));
                assert(self.blockchain.hist().take(i as int) == pre.blockchain.hist());
                assert forall|j: int| 0 <= j < i + 1 implies {
                    let b = #[trigger] self.blockchain.hist()[j];
                    &&& b.transaction == (Transaction {
                        operation: Operation::Mint {
                            to: initial_values@[j].0,
                            amount: initial_values@[j].1,
                        },
                        memo: Memo(0),
                        created_at_time: timestamp,
                    })
                    &&& b.timestamp == timestamp
                } by {
                    if j < i {
                        assert(self.blockchain.hist()[j] == pre.blockchain.hist().take(
                            i as int,
                        )[j]);
                        assert(pre.blockchain.hist()[j].timestamp == timestamp);
                    }
                }
            }
            i += 1;
        }
        self.send_whitelist = send_whitelist;
        proof {
            assert(initial_values@.take(n as int) =~= initial_values@);
        }
        Ok(())
    }

    /// The number of remembered transaction hashes.
    pub fn transactions_by_hash_len(&self) -> (r: usize)
        ensures
            r == self.dedup_index().len(),
    {
        self.transactions_by_hash.len()
    }

    /// The number of remembered transactions in the window.
    pub fn transactions_by_height_len(&self) -> (r: usize)
        ensures
            r == self.dedup_queue().len(),
    {
        self.transactions_by_height.len()
    }

    /// Flips the one-shot notification flag of a height. Fails if the
    /// block has aged out of the window, or if the flag already has
    /// the requested state.
    pub fn change_notification_state(
        &mut self,
        height: BlockHeight,
        block_timestamp: TimeStamp,
        new_state: bool,
        now: TimeStamp,
    ) -> (r: Result<(), NotifyError>)
        requires
            old(self).wf(),
        ensures
            final(self).wf(),
            final(self).same_but_dedup(old(self)),
            final(self).dedup_queue() == old(self).dedup_queue(),
            final(self).dedup_index() == old(self).dedup_index(),
            ({
                let expired = block_timestamp.timestamp_nanos
                    + old(self).transaction_window_nanos <= now.timestamp_nanos;
                if expired {
                    &&& r == Err::<(), NotifyError>(NotifyError::TransactionTooOld)
                    &&& final(self).spec_notified() == old(self).spec_notified()
                } else if old(self).spec_notified().contains(height) == new_state {
                    &&& r == Err::<(), NotifyError>(NotifyError::StateAlreadySet)
                    &&& final(self).spec_notified() == old(self).spec_notified()
                } else if new_state {
                    &&& r == Ok::<(), NotifyError>(())
                    &&& final(self).spec_notified() == old(self).spec_notified().insert(height)
                } else {
                    &&& r == Ok::<(), NotifyError>(())
                    &&& final(self).spec_notified() == old(self).spec_notified().remove(height)
                }
            }),
    {
        if (block_timestamp.timestamp_nanos as u128) + (self.transaction_window_nanos as u128) <= (
        now.timestamp_nanos as u128) {
            return Err(NotifyError::TransactionTooOld);
        }
        let is_notified = notified_contains(&self.blocks_notified, height);
        if is_notified == new_state {
            return Err(NotifyError::StateAlreadySet);
        }
        if new_state {
            notified_insert(&mut self.blocks_notified, height);
        } else {
            notified_remove(&mut self.blocks_notified, height);
        }
        Ok(())
    }

    /// Whether a height's notification flag is set.
    pub fn is_notified(&self, height: BlockHeight) -> (r: bool)
        ensures
            r == self.spec_notified().contains(height),
    {
        notified_contains(&self.blocks_notified, height)
    }

    /// Whether a principal may send: it is self-authenticating, or its
    /// canister is whitelisted.
    pub fn can_send(&self, is_self_authenticating: bool, canister: &CanisterId) -> (r: bool)
        ensures
            r == (is_self_authenticating || self.spec_whitelist().contains(*canister)),
    {
        is_self_authenticating || self.whitelist_contains(canister)
    }

    /// Whether a canister may be notified: the send whitelist is
    /// reused for that.
    pub fn can_be_notified(&self, canister: &CanisterId) -> (r: bool)
        ensures
            r == self.spec_whitelist().contains(*canister),
    {
        self.whitelist_contains(canister)
    }

    /// Whether the whitelist holds the canister.
    fn whitelist_contains(&self, canister: &CanisterId) -> (r: bool)
        ensures
            r == self.spec_whitelist().contains(*canister),
    {
        let n = self.send_whitelist.len();
        let mut i: usize = 0;
        while i < n
            invariant
                n == self.send_whitelist@.len(),
                0 <= i <= n,
                forall|j: int| 0 <= j < i ==> self.send_whitelist@[j] != *canister,
            decreases n - i,
        {
            if self.send_whitelist[i].0 == canister.0 {
                return true;
            }
            i += 1;
        }
        false
    }

    /// Hands the oldest live blocks to the archiving logic; see
    /// `Blockchain::get_blocks_for_archiving`.
    pub fn get_blocks_for_archiving(
        &self,
        trigger_threshold: usize,
        num_blocks: usize,
    ) -> (r: VecDeque<crate::ic_block::EncodedBlock>)
        ensures
            ({
                let live = self.blockchain.live_blocks().len();
                if live < trigger_threshold {
                    crate::ic_block::seq_views(r@) == Seq::<Seq<u8>>::empty()
                } else {
                    crate::ic_block::seq_views(r@) == self.blockchain.live_blocks().take(
                        if num_blocks <= live {
                            num_blocks as int
                        } else {
                            live as int
                        },
                    )
                }
            }),
    {
        self.blockchain.get_blocks_for_archiving(trigger_threshold, num_blocks)
    }

    /// Drops archived blocks from live storage; see
    /// `Blockchain::remove_archived_blocks`.
    pub fn remove_archived_blocks(&mut self, len: usize)
        requires
            old(self).wf(),
            len <= old(self).blockchain.live_blocks().len(),
        ensures
            final(self).wf(),
            final(self).same_but_blockchain(old(self)),
            old(self).blockchain.chain_linked() ==> final(self).blockchain.chain_linked(),
            final(self).blockchain.hist() == old(self).blockchain.hist(),
            final(self).blockchain.spec_num_archived() == old(self).blockchain.spec_num_archived()
                + len,
            final(self).blockchain.live_blocks() == old(self).blockchain.live_blocks().skip(
                len as int,
            ),
    {
        self.blockchain.remove_archived_blocks(len);
    }

    /// Everything except the blockchain is unchanged.
    pub open spec fn same_but_blockchain(&self, other: &Ledger) -> bool {
        &&& self.balances == other.balances
        &&& self.minting_account_id == other.minting_account_id
        &&& self.transaction_window_nanos == other.transaction_window_nanos
        &&& self.spec_whitelist() == other.spec_whitelist()
        &&& self.spec_notified() == other.spec_notified()
        &&& self.dedup_queue() == other.dedup_queue()
        &&& self.dedup_index() == other.dedup_index()
        &&& self.spec_max_accounts() == other.spec_max_accounts()
        &&& self.spec_trim_quantity() == other.spec_trim_quantity()
    }
}

impl Default for Ledger {
    /// A fresh ledger: empty chain, empty balance sheet with the whole
    /// supply unminted, empty dedup window, no flags, the default
    /// window, and the fixed account-count configuration.
    fn default() -> (r: Ledger)
        ensures
            r.wf(),
            r.blockchain.chain_linked(),
            r.blockchain.hist() == Seq::<crate::ic_block::BlockV>::empty(),
            r.balances.balances_map() == Map::<AccountIdentifier, u64>::empty(),
            r.balances.spec_pool() == u64::MAX,
            r.dedup_queue() == Seq::<(u64, Seq<u8>)>::empty(),
            r.dedup_index() == Seq::<(Seq<u8>, u64)>::empty(),
            r.spec_notified() == Set::<u64>::empty(),
            r.spec_whitelist() == Seq::<CanisterId>::empty(),
            r.minting_account_id is None,
            r.transaction_window_nanos == DEFAULT_TRANSACTION_WINDOW_NANOS,
            r.spec_max_accounts() == MAXIMUM_NUMBER_OF_ACCOUNTS,
            r.spec_trim_quantity() == ACCOUNTS_OVERFLOW_TRIM_QUANTITY,
    {
        let r = Ledger {
            balances: Balances::new(),
            blockchain: Blockchain::default(),
            maximum_number_of_accounts: MAXIMUM_NUMBER_OF_ACCOUNTS,
            accounts_overflow_trim_quantity: ACCOUNTS_OVERFLOW_TRIM_QUANTITY,
            minting_account_id: None,
            blocks_notified: notified_new(),
            transaction_window_nanos: DEFAULT_TRANSACTION_WINDOW_NANOS,
            transactions_by_hash: VecDeque::new(),
            transactions_by_height: VecDeque::new(),
            send_whitelist: Vec::new(),
        };
        proof {
            assert(r.dedup_queue() =~= Seq::<(u64, Seq<u8>)>::empty());
            assert(r.dedup_index() =~= Seq::<(Seq<u8>, u64)>::empty());
        }
        r
    }
}

/// Sorted, non-overlapping archive index: each entry holds an
/// inclusive height range and the canister storing it, ranges in
/// ascending order.
pub open spec fn archive_index_wf(index: Seq<((u64, u64), CanisterId)>) -> bool {
    &&& forall|i: int| 0 <= i < index.len() ==> (#[trigger] index[i]).0.0 <= index[i].0.1
    &&& forall|i: int, j: int|
        #![trigger index[i], index[j]]
        0 <= i < j < index.len() ==> index[i].0.1 < index[j].0.0
}

/// Finds the archive node holding a block height, by binary search
/// over the sorted range index.
pub fn find_block_in_archive(index: &Vec<((u64, u64), CanisterId)>, block_height: u64) -> (r:
    Option<CanisterId>)
    requires
        archive_index_wf(index@),
    ensures
        match r {
            Some(c) => exists|i: int|
                0 <= i < index@.len() && (#[trigger] index@[i]).0.0 <= block_height
                    <= index@[i].0.1 && c == index@[i].1,
            None => forall|i: int|
                0 <= i < index@.len() ==> !((#[trigger] index@[i]).0.0 <= block_height
                    <= index@[i].0.1),
        },
{
    let mut lo: usize = 0;
    let mut hi: usize = index.len();
    while lo < hi
        invariant
            0 <= lo <= hi <= index@.len(),
            archive_index_wf(index@),
            forall|i: int| 0 <= i < lo ==> (#[trigger] index@[i]).0.1 < block_height,
            forall|i: int| hi <= i < index@.len() ==> block_height < (#[trigger] index@[i]).0.0,
        decreases hi - lo,
    {
        let mid = lo + (hi - lo) / 2;
        let ((from, to), canister) = index[mid];
        if from <= block_height && block_height <= to {
            return Some(canister);
        } else if from < block_height {
            lo = mid + 1;
        } else {
            hi = mid;
        }
    }
    None
}

/// Why a send request was rejected by the fixed mint/burn/transfer
/// rules.
#[derive(Clone, Copy, Debug, PartialEq, Eq, Structural)]
pub enum SendError {
    /// Minting and burning demand a zero fee.
    NonZeroFee,
    /// Minting to the minting account is not allowed.
    MintToMintingAccount,
    /// Burns below the minimum burn amount are rejected.
    BurnTooSmall,
    /// Transfers must pay exactly the fixed transaction fee.
    WrongFee,
}

/// Classifies a send request against the fixed rules: a send from the
/// minting account is a mint and must carry no fee and not target the
/// minting account; a send to the minting account is a burn, must
/// carry no fee and reach the minimum burn amount; anything else is a
/// transfer paying exactly the fixed fee.
pub fn make_send_operation(
    from: AccountIdentifier,
    to: AccountIdentifier,
    minting_account: AccountIdentifier,
    amount: TOKENs,
    fee: TOKENs,
) -> (r: Result<Operation, SendError>)
    ensures
        ({
            if from == minting_account {
                if fee@ != 0 {
                    r == Err::<Operation, SendError>(SendError::NonZeroFee)
                } else if to == minting_account {
                    r == Err::<Operation, SendError>(SendError::MintToMintingAccount)
                } else {
                    r == Ok::<Operation, SendError>(Operation::Mint { to, amount })
                }
            } else if to == minting_account {
                if fee@ != 0 {
                    r == Err::<Operation, SendError>(SendError::NonZeroFee)
                } else if amount@ < MIN_BURN_AMOUNT_E8S {
                    r == Err::<Operation, SendError>(SendError::BurnTooSmall)
                } else {
                    r == Ok::<Operation, SendError>(Operation::Burn { from, amount })
                }
            } else {
                if fee@ != TRANSACTION_FEE_E8S {
                    r == Err::<Operation, SendError>(SendError::WrongFee)
                } else {
                    r == Ok::<Operation, SendError>(Operation::Transfer { from, to, amount, fee })
                }
            }
        }),
{
    if from.0 == minting_account.0 {
        if fee.get_e8s() != 0 {
            Err(SendError::NonZeroFee)
        } else if to.0 == minting_account.0 {
            Err(SendError::MintToMintingAccount)
        } else {
            Ok(Operation::Mint { to, amount })
        }
    } else if to.0 == minting_account.0 {
        if fee.get_e8s() != 0 {
            Err(SendError::NonZeroFee)
        } else if amount.get_e8s() < MIN_BURN_AMOUNT_E8S {
            Err(SendError::BurnTooSmall)
        } else {
            Ok(Operation::Burn { from, amount })
        }
    } else {
        if fee.get_e8s() != TRANSACTION_FEE_E8S {
            Err(SendError::WrongFee)
        } else {
            Ok(Operation::Transfer { from, to, amount, fee })
        }
    }
}

} // verus!
