//! Plain value types of the ledger: timestamps, memos, account keys,
//! balance-changing operations and client transactions.

use vstd::prelude::*;
use crate::ic_token::TOKENs;

verus! {

/// Nanoseconds since the Unix epoch.
#[derive(Clone, Copy, Debug, Hash, PartialEq, Eq, Structural)]
pub struct TimeStamp {
    pub timestamp_nanos: u64,
}

impl TimeStamp {
    /// Builds a timestamp from a nanosecond count.
    pub fn from_nanos(timestamp_nanos: u64) -> (r: TimeStamp)
        ensures
            r.timestamp_nanos == timestamp_nanos,
    {
        TimeStamp { timestamp_nanos }
    }
}

/// An 8-byte message a client may attach to a transaction.
#[derive(Clone, Copy, Debug, Hash, PartialEq, Eq, Structural)]
pub struct Memo(pub u64);

impl Default for Memo {
    /// The default memo is zero.
    fn default() -> (r: Memo)
        ensures
            r.0 == 0,
    {
        Memo(0)
    }
}

/// An opaque account key. How such keys are derived from principals and
/// subaccounts is outside this library; the ledger only needs a totally
/// ordered, hashable identifier, carried here as a plain value.
#[derive(Clone, Copy, Debug, Hash, PartialEq, Eq, Structural)]
pub struct AccountIdentifier(pub u64);

/// An opaque identifier of another canister, such as an archive node;
/// carried here as a plain key value.
#[derive(Clone, Copy, Debug, Hash, PartialEq, Eq, Structural)]
pub struct CanisterId(pub u64);

/// An operation which modifies account balances.
#[derive(Clone, Copy, Debug, Hash, PartialEq, Eq, Structural)]
pub enum Operation {
    Burn { from: AccountIdentifier, amount: TOKENs },
    Mint { to: AccountIdentifier, amount: TOKENs },
    Transfer { from: AccountIdentifier, to: AccountIdentifier, amount: TOKENs, fee: TOKENs },
}

/// An operation with the metadata the client generated attached to it.
#[derive(Clone, Copy, Debug, Hash, PartialEq, Eq, Structural)]
pub struct Transaction {
    pub operation: Operation,
    pub memo: Memo,
    /// The time this transaction was created.
    pub created_at_time: TimeStamp,
}

impl Transaction {
    /// Builds a transfer transaction.
    pub fn new(
        from: AccountIdentifier,
        to: AccountIdentifier,
        amount: TOKENs,
        fee: TOKENs,
        memo: Memo,
        created_at_time: TimeStamp,
    ) -> (r: Transaction)
        ensures
            r == (Transaction {
                operation: Operation::Transfer { from, to, amount, fee },
                memo,
                created_at_time,
            }),
    {
        let operation = Operation::Transfer { from, to, amount, fee };
        Transaction { operation, memo, created_at_time }
    }
}

/// Why a byte string could not be read back, or a block could not be
/// written out, in the canonical encoding.
#[derive(Clone, Copy, Debug, PartialEq, Eq, Structural)]
pub enum CodecError {
    /// The bytes are not the canonical encoding of any block.
    InvalidEncoding,
    /// A parent hash did not hold exactly 32 bytes.
    InvalidHashLength,
}

} // verus!
