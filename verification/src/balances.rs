//! Account balances at the tip of the chain: a store mapping accounts
//! to nonzero balances, plus the unminted pool. The sum of all stored
//! balances and the pool is always the full token supply.

use vstd::prelude::*;
use crate::ic_token::TOKENs;
use crate::types::{AccountIdentifier, Operation};

verus! {

/// The balance of `k` in a balances map, counting an absent account as
/// zero.
pub open spec fn bal(m: Map<AccountIdentifier, u64>, k: AccountIdentifier) -> u64 {
    if m.contains_key(k) {
        m[k]
    } else {
        0
    }
}

/// The balances map with the balance of `k` set to `v`: a zero balance
/// removes the entry, so zero is never stored.
pub open spec fn set_bal(m: Map<AccountIdentifier, u64>, k: AccountIdentifier, v: u64) -> Map<
    AccountIdentifier,
    u64,
> {
    if v == 0 {
        m.remove(k)
    } else {
        m.insert(k, v)
    }
}

/// The balances map after applying an operation: a transfer debits the
/// sender by amount plus fee and credits the receiver the amount; a
/// burn debits the source; a mint credits the destination.
pub open spec fn spec_apply_operation(m: Map<AccountIdentifier, u64>, op: Operation) -> Map<
    AccountIdentifier,
    u64,
> {
    match op {
        Operation::Transfer { from, to, amount, fee } => {
            let m1 = set_bal(m, from, (bal(m, from) - amount@ - fee@) as u64);
            set_bal(m1, to, (bal(m1, to) + amount@) as u64)
        },
        Operation::Burn { from, amount } => set_bal(m, from, (bal(m, from) - amount@) as u64),
        Operation::Mint { to, amount } => set_bal(m, to, (bal(m, to) + amount@) as u64),
    }
}

/// The unminted pool after applying an operation: fees and burned
/// amounts return to the pool, minted amounts leave it.
pub open spec fn spec_apply_pool(pool: u64, op: Operation) -> int {
    match op {
        Operation::Transfer { fee, .. } => pool + fee@,
        Operation::Burn { amount, .. } => pool + amount@,
        Operation::Mint { amount, .. } => pool - amount@,
    }
}

/// Interface of a balance store: a mapping from account to balance in
/// which zero balances are never stored.
pub trait BalancesStore: Sized {
    /// The stored mapping, account to subunit balance.
    spec fn view_map(&self) -> Map<AccountIdentifier, u64>;

    /// The sum of all stored balances.
    spec fn sum_balances(&self) -> int;

    /// The store's internal well-formedness.
    spec fn store_wf(&self) -> bool;

    /// An empty store.
    fn empty() -> (r: Self)
        ensures
            r.store_wf(),
            r.view_map() == Map::<AccountIdentifier, u64>::empty(),
            r.sum_balances() == 0,
    ;

    /// The stored balance of an account, or nothing if the account has
    /// no entry.
    fn get_balance(&self, k: &AccountIdentifier) -> (r: Option<TOKENs>)
        requires
            self.store_wf(),
        ensures
            match r {
                Some(t) => self.view_map().contains_key(*k) && t@ == self.view_map()[*k],
                None => !self.view_map().contains_key(*k),
            },
    ;

    /// Stores the balance of an account; a zero balance removes the
    /// entry.
    fn set_balance(&mut self, k: AccountIdentifier, v: TOKENs)
        requires
            old(self).store_wf(),
        ensures
            final(self).store_wf(),
            final(self).view_map() == set_bal(old(self).view_map(), k, v@),
            final(self).sum_balances() == old(self).sum_balances() - bal(
                old(self).view_map(),
                k,
            ) + v@,
    ;

    /// The number of accounts with a stored balance.
    fn num_accounts(&self) -> (r: usize)
        requires
            self.store_wf(),
        ensures
            self.view_map().dom().finite(),
            r == self.view_map().dom().len(),
    ;

    /// Every stored balance is nonzero and no greater than the sum of
    /// all stored balances.
    proof fn lemma_balance_le_sum(&self, k: AccountIdentifier)
        requires
            self.store_wf(),
            self.view_map().contains_key(k),
        ensures
            0 < self.view_map()[k] <= self.sum_balances(),
    ;

    /// The sum of stored balances is nonnegative.
    proof fn lemma_sum_nonneg(&self)
        requires
            self.store_wf(),
        ensures
            self.sum_balances() >= 0,
    ;
}

/// Whether some entry of the sequence holds the key.
pub open spec fn seq_has_key(s: Seq<(AccountIdentifier, TOKENs)>, k: AccountIdentifier) -> bool {
    exists|i: int| 0 <= i < s.len() && s[i].0 == k
}

/// Whether the entries hold pairwise distinct keys.
pub open spec fn distinct_keys(s: Seq<(AccountIdentifier, TOKENs)>) -> bool {
    forall|i: int, j: int| 0 <= i < j < s.len() ==> s[i].0 != s[j].0
}

/// The mapping held by a sequence of entries.
pub open spec fn map_of(s: Seq<(AccountIdentifier, TOKENs)>) -> Map<AccountIdentifier, u64>
    decreases s.len(),
{
    if s.len() == 0 {
        Map::empty()
    } else {
        map_of(s.drop_last()).insert(s.last().0, s.last().1@)
    }
}

/// The sum of the balances held by a sequence of entries.
pub open spec fn sum_of(s: Seq<(AccountIdentifier, TOKENs)>) -> int
    decreases s.len(),
{
    if s.len() == 0 {
        0
    } else {
        sum_of(s.drop_last()) + s.last().1@
    }
}

/// A key is in the mapping exactly when some entry holds it.
proof fn lemma_map_of_contains(s: Seq<(AccountIdentifier, TOKENs)>, k: AccountIdentifier)
    ensures
        map_of(s).contains_key(k) <==> seq_has_key(s, k),
    decreases s.len(),
{
    if s.len() > 0 {
        let dl = s.drop_last();
        lemma_map_of_contains(dl, k);
        if seq_has_key(s, k) && s.last().0 != k {
            let i = choose|i: int| 0 <= i < s.len() && s[i].0 == k;
            assert(dl[i].0 == k);
        }
        if seq_has_key(dl, k) {
            let i = choose|i: int| 0 <= i < dl.len() && dl[i].0 == k;
            assert(s[i].0 == k);
        }
    }
}

/// With distinct keys, the mapping sends each entry's key to its
/// balance.
proof fn lemma_map_of_index(s: Seq<(AccountIdentifier, TOKENs)>, i: int)
    requires
        distinct_keys(s),
        0 <= i < s.len(),
    ensures
        map_of(s).contains_key(s[i].0),
        map_of(s)[s[i].0] == s[i].1@,
    decreases s.len(),
{
    if i < s.len() - 1 {
        let dl = s.drop_last();
        lemma_map_of_index(dl, i);
        assert(s.last().0 != s[i].0);
    }
}

/// The sum of a sequence of balances is nonnegative.
proof fn lemma_sum_of_nonneg(s: Seq<(AccountIdentifier, TOKENs)>)
    ensures
        sum_of(s) >= 0,
    decreases s.len(),
{
    if s.len() > 0 {
        lemma_sum_of_nonneg(s.drop_last());
    }
}

/// Each entry's balance is at most the sum of all entries.
proof fn lemma_entry_le_sum(s: Seq<(AccountIdentifier, TOKENs)>, i: int)
    requires
        0 <= i < s.len(),
    ensures
        s[i].1@ <= sum_of(s),
    decreases s.len(),
{
    if i == s.len() - 1 {
        lemma_sum_of_nonneg(s.drop_last());
    } else {
        lemma_entry_le_sum(s.drop_last(), i);
    }
}

/// With distinct keys, the mapping's domain is finite and has exactly
/// one element per entry.
proof fn lemma_map_of_dom(s: Seq<(AccountIdentifier, TOKENs)>)
    requires
        distinct_keys(s),
    ensures
        map_of(s).dom().finite(),
        map_of(s).dom().len() == s.len(),
    decreases s.len(),
{
    if s.len() > 0 {
        let dl = s.drop_last();
        lemma_map_of_dom(dl);
        lemma_map_of_contains(dl, s.last().0);
        assert(!seq_has_key(dl, s.last().0)) by {
            if seq_has_key(dl, s.last().0) {
                let i = choose|i: int| 0 <= i < dl.len() && dl[i].0 == s.last().0;
                assert(s[i].0 == s[s.len() - 1].0);
            }
        }
    }
}

/// Replacing the balance of one entry updates the mapping at its key.
proof fn lemma_map_of_update(s: Seq<(AccountIdentifier, TOKENs)>, i: int, v: TOKENs)
    requires
        distinct_keys(s),
        0 <= i < s.len(),
    ensures
        map_of(s.update(i, (s[i].0, v))) == map_of(s).insert(s[i].0, v@),
    decreases s.len(),
{
    let s2 = s.update(i, (s[i].0, v));
    if i == s.len() - 1 {
        assert(s2.drop_last() =~= s.drop_last());
        assert(map_of(s2) =~= map_of(s).insert(s[i].0, v@));
    } else {
        let dl = s.drop_last();
        lemma_map_of_update(dl, i, v);
        assert(s2.drop_last() =~= dl.update(i, (s[i].0, v)));
        assert(s.last().0 != s[i].0);
        assert(map_of(s2) =~= map_of(s).insert(s[i].0, v@));
    }
}

/// Replacing the balance of one entry shifts the sum by the difference.
proof fn lemma_sum_of_update(s: Seq<(AccountIdentifier, TOKENs)>, i: int, v: TOKENs)
    requires
        0 <= i < s.len(),
    ensures
        sum_of(s.update(i, (s[i].0, v))) == sum_of(s) - s[i].1@ + v@,
    decreases s.len(),
{
    let s2 = s.update(i, (s[i].0, v));
    if i == s.len() - 1 {
        assert(s2.drop_last() =~= s.drop_last());
    } else {
        let dl = s.drop_last();
        lemma_sum_of_update(dl, i, v);
        assert(s2.drop_last() =~= dl.update(i, (s[i].0, v)));
    }
}

/// Removing one entry removes its key from the mapping.
proof fn lemma_map_of_remove(s: Seq<(AccountIdentifier, TOKENs)>, i: int)
    requires
        distinct_keys(s),
        0 <= i < s.len(),
    ensures
        map_of(s.remove(i)) == map_of(s).remove(s[i].0),
    decreases s.len(),
{
    let s2 = s.remove(i);
    if i == s.len() - 1 {
        assert(s2 =~= s.drop_last());
        lemma_map_of_contains(s.drop_last(), s[i].0);
        assert(!seq_has_key(s.drop_last(), s[i].0)) by {
            if seq_has_key(s.drop_last(), s[i].0) {
                let j = choose|j: int|
                    0 <= j < s.drop_last().len() && s.drop_last()[j].0 == s[i].0;
                assert(s[j].0 == s[i].0);
            }
        }
        assert(map_of(s2) =~= map_of(s).remove(s[i].0));
    } else {
        let dl = s.drop_last();
        lemma_map_of_remove(dl, i);
        assert(s2.drop_last() =~= dl.remove(i));
        assert(s2.last() == s.last());
        assert(s.last().0 != s[i].0);
        assert(map_of(s2) =~= map_of(s).remove(s[i].0));
    }
}

/// Removing one entry subtracts its balance from the sum.
proof fn lemma_sum_of_remove(s: Seq<(AccountIdentifier, TOKENs)>, i: int)
    requires
        0 <= i < s.len(),
    ensures
        sum_of(s.remove(i)) == sum_of(s) - s[i].1@,
    decreases s.len(),
{
    let s2 = s.remove(i);
    if i == s.len() - 1 {
        assert(s2 =~= s.drop_last());
    } else {
        let dl = s.drop_last();
        lemma_sum_of_remove(dl, i);
        assert(s2.drop_last() =~= dl.remove(i));
        assert(s2.last() == s.last());
    }
}

/// Extending a prefix by one entry adds its balance to the prefix sum.
pub(crate) proof fn lemma_sum_of_take_succ(s: Seq<(AccountIdentifier, TOKENs)>, i: int)
    requires
        0 <= i < s.len(),
    ensures
        sum_of(s.take(i + 1)) == sum_of(s.take(i)) + s[i].1@,
{
    assert(s.take(i + 1).drop_last() =~= s.take(i));
    assert(s.take(i + 1).last() == s[i]);
}

/// A prefix sum never exceeds the whole sum.
pub(crate) proof fn lemma_sum_of_take_le(s: Seq<(AccountIdentifier, TOKENs)>, i: int)
    requires
        0 <= i <= s.len(),
    ensures
        sum_of(s.take(i)) <= sum_of(s),
    decreases s.len(),
{
    if i == s.len() {
        assert(s.take(i) =~= s);
    } else {
        let dl = s.drop_last();
        lemma_sum_of_take_le(dl, i);
        assert(s.take(i) =~= dl.take(i));
    }
}

/// A balance store backed by a vector of entries with pairwise
/// distinct keys and no zero balances.
pub struct AccountStore {
    entries: Vec<(AccountIdentifier, TOKENs)>,
}

impl AccountStore {
    /// The stored entries.
    pub closed spec fn entries_seq(&self) -> Seq<(AccountIdentifier, TOKENs)> {
        self.entries@
    }

    /// Finds the entry holding the key.
    fn index_of(entries: &Vec<(AccountIdentifier, TOKENs)>, k: &AccountIdentifier) -> (r: Option<
        usize,
    >)
        ensures
            match r {
                Some(i) => i < entries@.len() && entries@[i as int].0 == *k,
                None => !seq_has_key(entries@, *k),
            },
    {
        let n = entries.len();
        let mut i: usize = 0;
        while i < n
            invariant
                n == entries@.len(),
                0 <= i <= n,
                forall|j: int| 0 <= j < i ==> entries@[j].0 != *k,
            decreases n - i,
        {
            if entries[i].0 == *k {
                return Some(i);
            }
            i += 1;
        }
        None
    }
}

impl BalancesStore for AccountStore {
    closed spec fn view_map(&self) -> Map<AccountIdentifier, u64> {
        map_of(self.entries@)
    }

    closed spec fn sum_balances(&self) -> int {
        sum_of(self.entries@)
    }

    closed spec fn store_wf(&self) -> bool {
        &&& distinct_keys(self.entries@)
        &&& forall|i: int| 0 <= i < self.entries@.len() ==> (#[trigger] self.entries@[i]).1@ != 0
    }

    fn empty() -> (r: Self) {
        AccountStore { entries: Vec::new() }
    }

    fn get_balance(&self, k: &AccountIdentifier) -> (r: Option<TOKENs>) {
        match Self::index_of(&self.entries, k) {
            Some(i) => {
                proof {
                    lemma_map_of_index(self.entries@, i as int);
                }
                Some(self.entries[i].1)
            },
            None => {
                proof {
                    lemma_map_of_contains(self.entries@, *k);
                }
                None
            },
        }
    }

    fn set_balance(&mut self, k: AccountIdentifier, v: TOKENs) {
        let ghost s0 = self.entries@;
        match Self::index_of(&self.entries, &k) {
            Some(i) => {
                proof {
                    lemma_map_of_index(s0, i as int);
                }
                if v.get_e8s() == 0 {
                    self.entries.remove(i);
                    proof {
                        lemma_map_of_remove(s0, i as int);
                        lemma_sum_of_remove(s0, i as int);
                        assert forall|a: int, b: int|
                            0 <= a < b < self.entries@.len() implies self.entries@[a].0
                            != self.entries@[b].0 by {
                            if b < i {
                                assert(s0[a].0 != s0[b].0);
                            } else if a < i {
                                assert(s0[a].0 != s0[b + 1].0);
                            } else {
                                assert(s0[a + 1].0 != s0[b + 1].0);
                            }
                        }
                    }
                } else {
                    self.entries[i] = (k, v);
                    proof {
                        assert(self.entries@ =~= s0.update(i as int, (s0[i as int].0, v)));
                        lemma_map_of_update(s0, i as int, v);
                        lemma_sum_of_update(s0, i as int, v);
                        assert(set_bal(map_of(s0), k, v@) =~= map_of(s0).insert(k, v@));
                        assert forall|a: int, b: int|
                            0 <= a < b < self.entries@.len() implies self.entries@[a].0
                            != self.entries@[b].0 by {
                            assert(s0[a].0 != s0[b].0);
                        }
                    }
                }
            },
            None => {
                proof {
                    lemma_map_of_contains(s0, k);
                }
                if v.get_e8s() != 0 {
                    self.entries.push((k, v));
                    proof {
                        assert(self.entries@.drop_last() =~= s0);
                        assert forall|a: int, b: int|
                            0 <= a < b < self.entries@.len() implies self.entries@[a].0
                            != self.entries@[b].0 by {
                            if b < s0.len() {
                                assert(s0[a].0 != s0[b].0);
                            } else {
                                assert(!seq_has_key(s0, k));
                                assert(s0[a].0 != k);
                            }
                        }
                    }
                } else {
                    proof {
                        assert(set_bal(map_of(s0), k, 0u64) =~= map_of(s0));
                    }
                }
            },
        }
    }

    fn num_accounts(&self) -> (r: usize) {
        proof {
            lemma_map_of_dom(self.entries@);
        }
        self.entries.len()
    }

    proof fn lemma_balance_le_sum(&self, k: AccountIdentifier) {
        lemma_map_of_contains(self.entries@, k);
        let i = choose|i: int| 0 <= i < self.entries@.len() && self.entries@[i].0 == k;
        lemma_map_of_index(self.entries@, i);
        lemma_entry_le_sum(self.entries@, i);
    }

    proof fn lemma_sum_nonneg(&self) {
        lemma_sum_of_nonneg(self.entries@);
    }
}

/// The state of all accounts at the tip of the chain: a balance store
/// plus the unminted pool.
pub struct Balances<S: BalancesStore> {
    pub store: S,
    pub icpt_pool: TOKENs,
}

/// The balances kept by the ledger.
pub type LedgerBalances = Balances<AccountStore>;

impl<S: BalancesStore> Balances<S> {
    /// The balances map.
    pub open spec fn balances_map(&self) -> Map<AccountIdentifier, u64> {
        self.store.view_map()
    }

    /// The unminted pool, in subunits.
    pub open spec fn spec_pool(&self) -> u64 {
        self.icpt_pool@
    }

    /// The sum of all stored balances.
    pub open spec fn spec_sum(&self) -> int {
        self.store.sum_balances()
    }

    /// The balance of an account, counting an absent entry as zero.
    pub open spec fn spec_balance(&self, k: AccountIdentifier) -> u64 {
        bal(self.balances_map(), k)
    }

    /// The circulating supply: everything outside the unminted pool.
    pub open spec fn spec_total_supply(&self) -> int {
        u64::MAX - self.spec_pool()
    }

    /// The store is well formed.
    pub open spec fn wf_store(&self) -> bool {
        self.store.store_wf()
    }

    /// Conservation: the stored balances and the pool always add up to
    /// the full token supply.
    pub open spec fn wf(&self) -> bool {
        &&& self.wf_store()
        &&& self.spec_sum() + self.spec_pool() == u64::MAX
    }

    /// Whether an operation can be applied without violating a balance
    /// or pool bound: transfers and burns need the debited account to
    /// hold the debited amount, mints need the pool to hold the minted
    /// amount.
    pub open spec fn can_apply(&self, op: Operation) -> bool {
        match op {
            Operation::Transfer { from, to, amount, fee } => {
                &&& self.balances_map().contains_key(from)
                &&& amount@ + fee@ <= u64::MAX
                &&& self.spec_balance(from) >= amount@ + fee@
            },
            Operation::Burn { from, amount } => {
                &&& self.balances_map().contains_key(from)
                &&& self.spec_balance(from) >= amount@
            },
            Operation::Mint { to, amount } => amount@ <= self.spec_pool(),
        }
    }

    /// A fresh balance sheet: no accounts, the whole supply unminted.
    pub fn new() -> (r: Self)
        ensures
            r.wf(),
            r.balances_map() == Map::<AccountIdentifier, u64>::empty(),
            r.spec_pool() == u64::MAX,
    {
        Balances { store: S::empty(), icpt_pool: TOKENs::from_e8s(u64::MAX) }
    }

    /// Removes tokens from an account. The account must exist and hold
    /// at least the debited amount; the entry disappears when the
    /// balance reaches zero.
    pub fn debit(&mut self, from: &AccountIdentifier, amount: TOKENs)
        requires
            old(self).wf_store(),
            old(self).balances_map().contains_key(*from),
            old(self).spec_balance(*from) >= amount@,
        ensures
            final(self).wf_store(),
            final(self).balances_map() == set_bal(
                old(self).balances_map(),
                *from,
                (old(self).spec_balance(*from) - amount@) as u64,
            ),
            final(self).spec_sum() == old(self).spec_sum() - amount@,
            final(self).spec_pool() == old(self).spec_pool(),
    {
        let prev = match self.store.get_balance(from) {
            Some(t) => t,
            None => {
                proof {
                    assert(false);
                }
                TOKENs::from_e8s(0)
            },
        };
        let next = match prev.checked_sub(amount) {
            Ok(t) => t,
            Err(_) => {
                proof {
                    assert(false);
                }
                TOKENs::from_e8s(0)
            },
        };
        self.store.set_balance(*from, next);
    }

    /// Adds tokens to an account, creating its entry if absent. The new
    /// balance must fit in the subunit counter.
    pub fn credit(&mut self, to: &AccountIdentifier, amount: TOKENs)
        requires
            old(self).wf_store(),
            old(self).spec_balance(*to) + amount@ <= u64::MAX,
        ensures
            final(self).wf_store(),
            final(self).balances_map() == set_bal(
                old(self).balances_map(),
                *to,
                (old(self).spec_balance(*to) + amount@) as u64,
            ),
            final(self).spec_sum() == old(self).spec_sum() + amount@,
            final(self).spec_pool() == old(self).spec_pool(),
    {
        let prev = match self.store.get_balance(to) {
            Some(t) => t,
            None => TOKENs::from_e8s(0),
        };
        let next = match prev.checked_add(amount) {
            Ok(t) => t,
            Err(_) => {
                proof {
                    assert(false);
                }
                TOKENs::from_e8s(0)
            },
        };
        self.store.set_balance(*to, next);
    }

    /// Applies an operation to the balances and the pool. The caller
    /// must have validated it (`can_apply`); conservation of the total
    /// supply is preserved.
    pub fn add_payment(&mut self, payment: &Operation)
        requires
            old(self).wf(),
            old(self).can_apply(*payment),
        ensures
            final(self).wf(),
            final(self).balances_map() == spec_apply_operation(old(self).balances_map(), *payment),
            final(self).spec_pool() == spec_apply_pool(old(self).spec_pool(), *payment),
    {
        proof {
            self.store.lemma_sum_nonneg();
        }
        match payment {
            Operation::Transfer { from, to, amount, fee } => {
                proof {
                    self.store.lemma_balance_le_sum(*from);
                }
                let debit_amount = match amount.checked_add(*fee) {
                    Ok(t) => t,
                    Err(_) => {
                        proof {
                            assert(false);
                        }
                        TOKENs::from_e8s(0)
                    },
                };
                self.debit(from, debit_amount);
                proof {
                    if self.balances_map().contains_key(*to) {
                        self.store.lemma_balance_le_sum(*to);
                    }
                }
                self.credit(to, *amount);
                self.icpt_pool = match self.icpt_pool.checked_add(*fee) {
                    Ok(t) => t,
                    Err(_) => {
                        proof {
                            assert(false);
                        }
                        TOKENs::from_e8s(0)
                    },
                };
            },
            Operation::Burn { from, amount } => {
                proof {
                    self.store.lemma_balance_le_sum(*from);
                }
                self.debit(from, *amount);
                self.icpt_pool = match self.icpt_pool.checked_add(*amount) {
                    Ok(t) => t,
                    Err(_) => {
                        proof {
                            assert(false);
                        }
                        TOKENs::from_e8s(0)
                    },
                };
            },
            Operation::Mint { to, amount } => {
                proof {
                    if self.balances_map().contains_key(*to) {
                        self.store.lemma_balance_le_sum(*to);
                    }
                }
                self.credit(to, *amount);
                self.icpt_pool = match self.icpt_pool.checked_sub(*amount) {
                    Ok(t) => t,
                    Err(_) => {
                        proof {
                            assert(false);
                        }
                        TOKENs::from_e8s(0)
                    },
                };
            },
        }
    }

    /// Whether an operation can be applied; the executable face of
    /// `can_apply`.
    pub fn can_apply_payment(&self, payment: &Operation) -> (r: bool)
        requires
            self.wf_store(),
        ensures
            r == self.can_apply(*payment),
    {
        match payment {
            Operation::Transfer { from, to: _, amount, fee } => {
                match self.store.get_balance(from) {
                    Some(b) => match amount.checked_add(*fee) {
                        Ok(total) => b.get_e8s() >= total.get_e8s(),
                        Err(_) => false,
                    },
                    None => false,
                }
            },
            Operation::Burn { from, amount } => {
                match self.store.get_balance(from) {
                    Some(b) => b.get_e8s() >= amount.get_e8s(),
                    None => false,
                }
            },
            Operation::Mint { to: _, amount } => amount.get_e8s() <= self.icpt_pool.get_e8s(),
        }
    }

    /// The balance of an account, zero if it has no entry.
    pub fn account_balance(&self, account: &AccountIdentifier) -> (r: TOKENs)
        requires
            self.wf_store(),
        ensures
            r@ == self.spec_balance(*account),
    {
        match self.store.get_balance(account) {
            Some(t) => t,
            None => TOKENs::from_e8s(0),
        }
    }

    /// The total quantity of tokens in existence: everything outside
    /// the unminted pool, which equals the sum of all account balances.
    pub fn total_supply(&self) -> (r: TOKENs)
        requires
            self.wf(),
        ensures
            r@ == self.spec_total_supply(),
            r@ == self.spec_sum(),
    {
        match TOKENs::max_value().checked_sub(self.icpt_pool) {
            Ok(t) => t,
            Err(_) => {
                proof {
                    assert(false);
                }
                TOKENs::from_e8s(0)
            },
        }
    }
}

/// The total order on `(balance, account)` pairs used to pick the
/// accounts to trim: by balance first, then by account key.
pub open spec fn pair_le(a: (TOKENs, AccountIdentifier), b: (TOKENs, AccountIdentifier)) -> bool {
    a.0@ < b.0@ || (a.0@ == b.0@ && a.1.0 <= b.1.0)
}

/// Whether the selection holds an entry for the account.
pub open spec fn selected(r: Seq<(TOKENs, AccountIdentifier)>, k: AccountIdentifier) -> bool {
    exists|i: int| 0 <= i < r.len() && r[i].1 == k
}

/// The balances map with the first `t` selected accounts' entries
/// removed.
pub open spec fn spec_remove_selected(
    m: Map<AccountIdentifier, u64>,
    sel: Seq<(TOKENs, AccountIdentifier)>,
    t: int,
) -> Map<AccountIdentifier, u64>
    decreases t,
{
    if t <= 0 {
        m
    } else {
        spec_remove_selected(m, sel, t - 1).remove(sel[t - 1].1)
    }
}

/// The sum of the first `t` selected balances.
pub open spec fn spec_selected_sum(sel: Seq<(TOKENs, AccountIdentifier)>, t: int) -> int
    decreases t,
{
    if t <= 0 {
        0
    } else {
        spec_selected_sum(sel, t - 1) + sel[t - 1].0@
    }
}

/// A valid trim selection out of the balances map `m`: at most `num`
/// entries, each an existing account with its current balance,
/// pairwise distinct, and dominated (in the pair order) by every
/// account left out.
pub open spec fn is_trim_selection(
    sel: Seq<(TOKENs, AccountIdentifier)>,
    m: Map<AccountIdentifier, u64>,
) -> bool {
    &&& forall|i: int|
        0 <= i < sel.len() ==> m.contains_key((#[trigger] sel[i]).1) && sel[i].0@ == m[sel[i].1]
    &&& forall|i1: int, i2: int| 0 <= i1 < i2 < sel.len() ==> sel[i1].1 != sel[i2].1
    &&& forall|i: int, k: AccountIdentifier|
        #![trigger sel[i], m[k]]
        0 <= i < sel.len() && m.contains_key(k) && !selected(sel, k) ==> pair_le(
            sel[i],
            (TOKENs::spec_from_e8s(m[k]), k),
        )
}

/// Compares two `(balance, account)` pairs.
fn pair_le_exec(a: &(TOKENs, AccountIdentifier), b: &(TOKENs, AccountIdentifier)) -> (r: bool)
    ensures
        r == pair_le(*a, *b),
{
    let ae = a.0.get_e8s();
    let be = b.0.get_e8s();
    if ae < be {
        true
    } else if ae == be {
        a.1.0 <= b.1.0
    } else {
        false
    }
}

/// Every selected entry comes from the first `idx` store entries.
spec fn trim_from_prefix(
    r: Seq<(TOKENs, AccountIdentifier)>,
    s: Seq<(AccountIdentifier, TOKENs)>,
    idx: int,
) -> bool {
    forall|i: int|
        0 <= i < r.len() ==> exists|j: int|
            0 <= j < idx && s[j] == ((#[trigger] r[i]).1, r[i].0)
}

/// The selected entries name pairwise distinct accounts.
spec fn trim_distinct(r: Seq<(TOKENs, AccountIdentifier)>) -> bool {
    forall|i1: int, i2: int| 0 <= i1 < i2 < r.len() ==> r[i1].1 != r[i2].1
}

/// Every processed entry left out of the selection is at least as
/// large, in the pair order, as every selected entry.
spec fn trim_dominates(
    r: Seq<(TOKENs, AccountIdentifier)>,
    s: Seq<(AccountIdentifier, TOKENs)>,
    idx: int,
) -> bool {
    forall|j: int, i: int|
        0 <= j < idx && 0 <= i < r.len() && !selected(r, (#[trigger] s[j]).0) ==> pair_le(
            #[trigger] r[i],
            (s[j].1, s[j].0),
        )
}

impl AccountStore {
    /// Picks the `num` smallest `(balance, account)` pairs, fewer if
    /// the store holds fewer entries.
    fn select_smallest(&self, num: usize) -> (r: Vec<(TOKENs, AccountIdentifier)>)
        requires
            distinct_keys(self.entries@),
        ensures
            r@.len() == if num <= self.entries@.len() {
                num as int
            } else {
                self.entries@.len() as int
            },
            trim_from_prefix(r@, self.entries@, self.entries@.len() as int),
            trim_distinct(r@),
            trim_dominates(r@, self.entries@, self.entries@.len() as int),
    {
        let ghost s = self.entries@;
        let n = self.entries.len();
        let mut to_trim: Vec<(TOKENs, AccountIdentifier)> = Vec::new();
        let mut idx: usize = 0;
        while idx < n
            invariant
                n == s.len(),
                s == self.entries@,
                distinct_keys(s),
                0 <= idx <= n,
                to_trim@.len() == if num <= idx {
                    num as int
                } else {
                    idx as int
                },
                trim_from_prefix(to_trim@, s, idx as int),
                trim_distinct(to_trim@),
                trim_dominates(to_trim@, s, idx as int),
                idx <= num ==> forall|i: int|
                    0 <= i < to_trim@.len() ==> #[trigger] to_trim@[i] == (s[i].1, s[i].0),
            decreases n - idx,
        {
            let entry = self.entries[idx];
            let pair = (entry.1, entry.0);
            let ghost old_trim = to_trim@;
            proof {
                // The current account is in none of the selected pairs:
                // those come from earlier entries, and keys are distinct.
                assert forall|i: int| 0 <= i < old_trim.len() implies old_trim[i].1
                    != s[idx as int].0 by {
                    let j = choose|j: int| 0 <= j < idx && s[j] == (old_trim[i].1, old_trim[i].0);
                    assert(s[j].0 != s[idx as int].0);
                }
            }
            if to_trim.len() < num {
                to_trim.push(pair);
                proof {
                    assert forall|i: int| 0 <= i < to_trim@.len() implies exists|j: int|
                        0 <= j < idx + 1 && s[j] == ((#[trigger] to_trim@[i]).1, to_trim@[i].0) by {
                        if i < old_trim.len() {
                            let j = choose|j: int|
                                0 <= j < idx && s[j] == (old_trim[i].1, old_trim[i].0);
                            assert(s[j] == (to_trim@[i].1, to_trim@[i].0));
                        } else {
                            assert(s[idx as int] == (to_trim@[i].1, to_trim@[i].0));
                        }
                    }
                    // pushes happen only in the filling phase, where the
                    // selection is the processed prefix itself: every
                    // processed entry is selected, so domination is vacuous
                    assert forall|j: int, i: int|
                        0 <= j < idx + 1 && 0 <= i < to_trim@.len() && !selected(
                            to_trim@,
                            (#[trigger] s[j]).0,
                        ) implies pair_le(#[trigger] to_trim@[i], (s[j].1, s[j].0)) by {
                        assert(to_trim@[j].1 == s[j].0);
                    }
                }
            } else {
                if num > 0 {
                    // find the largest selected pair
                    let mut mi: usize = 0;
                    let mut t: usize = 1;
                    while t < to_trim.len()
                        invariant
                            0 < to_trim@.len(),
                            0 <= mi < to_trim@.len(),
                            1 <= t <= to_trim@.len(),
                            forall|x: int|
                                0 <= x < t ==> pair_le(#[trigger] to_trim@[x], to_trim@[mi as int]),
                        decreases to_trim@.len() - t,
                    {
                        if !pair_le_exec(&to_trim[t], &to_trim[mi]) {
                            mi = t;
                        }
                        t += 1;
                    }
                    let max_pair = to_trim[mi];
                    if !pair_le_exec(&max_pair, &pair) {
                        // the new pair is strictly smaller: evict the max
                        to_trim[mi] = pair;
                        proof {
                            lemma_trim_replace(old_trim, to_trim@, s, idx as int, mi as int, max_pair);
                        }
                    } else {
                        proof {
                            assert forall|j: int, i: int|
                                0 <= j < idx + 1 && 0 <= i < to_trim@.len() && !selected(
                                    to_trim@,
                                    (#[trigger] s[j]).0,
                                ) implies pair_le(#[trigger] to_trim@[i], (s[j].1, s[j].0)) by {
                                if j < idx {
                                    assert(pair_le(to_trim@[i], (s[j].1, s[j].0)));
                                } else {
                                    assert(pair_le(to_trim@[i], to_trim@[mi as int]));
                                    assert(pair_le(to_trim@[mi as int], pair));
                                }
                            }
                        }
                    }
                }
            }
            idx += 1;
        }
        to_trim
    }
}

/// Evicting the largest selected pair for a strictly smaller incoming
/// pair keeps the selection's invariants: the evicted pair, now left
/// out, was the largest, so domination still holds.
proof fn lemma_trim_replace(
    old_r: Seq<(TOKENs, AccountIdentifier)>,
    new_r: Seq<(TOKENs, AccountIdentifier)>,
    s: Seq<(AccountIdentifier, TOKENs)>,
    idx: int,
    mi: int,
    max_pair: (TOKENs, AccountIdentifier),
)
    requires
        distinct_keys(s),
        0 <= idx < s.len(),
        0 <= mi < old_r.len(),
        max_pair == old_r[mi],
        new_r == old_r.update(mi, (s[idx].1, s[idx].0)),
        forall|x: int| 0 <= x < old_r.len() ==> pair_le(#[trigger] old_r[x], max_pair),
        !pair_le(max_pair, (s[idx].1, s[idx].0)),
        trim_from_prefix(old_r, s, idx),
        trim_distinct(old_r),
        trim_dominates(old_r, s, idx),
        forall|i: int| 0 <= i < old_r.len() ==> (#[trigger] old_r[i]).1 != s[idx].0,
    ensures
        trim_from_prefix(new_r, s, idx + 1),
        trim_distinct(new_r),
        trim_dominates(new_r, s, idx + 1),
{
    let new_pair = (s[idx].1, s[idx].0);
    assert forall|i: int| 0 <= i < new_r.len() implies exists|j: int|
        0 <= j < idx + 1 && s[j] == ((#[trigger] new_r[i]).1, new_r[i].0) by {
        if i != mi {
            let j = choose|j: int| 0 <= j < idx && s[j] == (old_r[i].1, old_r[i].0);
            assert(s[j] == (new_r[i].1, new_r[i].0));
        } else {
            assert(s[idx] == (new_r[i].1, new_r[i].0));
        }
    }
    assert forall|j: int, i: int|
        0 <= j < idx + 1 && 0 <= i < new_r.len() && !selected(new_r, (#[trigger] s[j]).0) implies
        pair_le(#[trigger] new_r[i], (s[j].1, s[j].0)) by {
        if j == idx {
            assert(new_r[mi].1 == s[j].0);
            assert(selected(new_r, s[j].0));
        } else {
            if selected(old_r, s[j].0) {
                let i2 = choose|i2: int| 0 <= i2 < old_r.len() && old_r[i2].1 == s[j].0;
                if i2 != mi {
                    assert(new_r[i2].1 == s[j].0);
                    assert(selected(new_r, s[j].0));
                } else {
                    // the evicted pair held this account, and it was an
                    // entry of the prefix: it is the entry at j itself
                    let j2 = choose|j2: int| 0 <= j2 < idx && s[j2] == (old_r[mi].1, old_r[mi].0);
                    assert(s[j2].0 == s[j].0);
                    assert(j2 == j);
                    assert((s[j].1, s[j].0) == max_pair);
                    if i != mi {
                        assert(pair_le(old_r[i], max_pair));
                    } else {
                        assert(pair_le(new_pair, max_pair));
                    }
                }
            } else {
                assert(pair_le(old_r[mi], (s[j].1, s[j].0)));
                if i != mi {
                    assert(pair_le(new_r[i], (s[j].1, s[j].0)));
                } else {
                    assert(pair_le(new_pair, max_pair));
                    assert(pair_le(max_pair, (s[j].1, s[j].0)));
                }
            }
        }
    }
}

impl Balances<AccountStore> {
    /// Picks the accounts with the lowest balances so that they can be
    /// trimmed: at most `num_accounts` of them, each an existing
    /// account with its current balance, and every account left out
    /// holds at least as much as every account picked (ties broken by
    /// the account key).
    pub fn select_accounts_to_trim(&self, num_accounts: usize) -> (r: Vec<
        (TOKENs, AccountIdentifier),
    >)
        requires
            self.wf_store(),
        ensures
            self.balances_map().dom().finite(),
            r@.len() == if num_accounts <= self.balances_map().dom().len() {
                num_accounts as int
            } else {
                self.balances_map().dom().len() as int
            },
            forall|i: int|
                0 <= i < r@.len() ==> self.balances_map().contains_key((#[trigger] r@[i]).1)
                    && r@[i].0@ == self.balances_map()[r@[i].1],
            forall|i1: int, i2: int| 0 <= i1 < i2 < r@.len() ==> r@[i1].1 != r@[i2].1,
            forall|i: int, k: AccountIdentifier|
                #![trigger r@[i], self.balances_map()[k]]
                0 <= i < r@.len() && self.balances_map().contains_key(k) && !selected(r@, k)
                    ==> pair_le(r@[i], (TOKENs::spec_from_e8s(self.balances_map()[k]), k)),
    {
        let r = self.store.select_smallest(num_accounts);
        proof {
            broadcast use crate::ic_token::lemma_tokens_view_roundtrip;

            let s = self.store.entries_seq();
            lemma_map_of_dom(s);
            assert forall|i: int| 0 <= i < r@.len() implies self.balances_map().contains_key(
                (#[trigger] r@[i]).1,
            ) && r@[i].0@ == self.balances_map()[r@[i].1] by {
                let j = choose|j: int| 0 <= j < s.len() && s[j] == (r@[i].1, r@[i].0);
                lemma_map_of_index(s, j);
            }
            assert forall|i: int, k: AccountIdentifier|
                #![trigger r@[i], self.balances_map()[k]]
                0 <= i < r@.len() && self.balances_map().contains_key(k) && !selected(r@, k)
                    implies pair_le(r@[i], (TOKENs::spec_from_e8s(self.balances_map()[k]), k)) by {
                lemma_map_of_contains(s, k);
                let j = choose|j: int| 0 <= j < s.len() && s[j].0 == k;
                lemma_map_of_index(s, j);
                assert(TOKENs::spec_from_e8s(self.balances_map()[k]) == s[j].1);
                assert(pair_le(r@[i], (s[j].1, s[j].0)));
            }
        }
        r
    }
}

/// Balance conservation: in a well-formed balance sheet the total
/// supply plus the pool is the full token supply, and the total supply
/// equals the sum of all account balances.
pub proof fn lemma_balance_conservation<S: BalancesStore>(b: &Balances<S>)
    requires
        b.wf(),
    ensures
        b.spec_total_supply() + b.spec_pool() == u64::MAX,
        b.spec_total_supply() == b.spec_sum(),
{
}

} // verus!
