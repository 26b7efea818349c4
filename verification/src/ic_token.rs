//! Fixed-point unsigned token quantity backed by a `u64` count of
//! subunits, with checked arithmetic: overflow and underflow are reported
//! as errors, never wrapped or truncated.

use vstd::prelude::*;

verus! {

/// Number of decimal places of one whole token.
pub const DECIMAL_PLACES: u32 = 18;

/// How many subunits one whole token is divided into.
pub const TOKEN_SUBDIVIDABLE_BY: u64 = 100_000_000_000_000_000;

/// Why a checked amount operation failed.
#[derive(Clone, Copy, Debug, PartialEq, Eq, Structural)]
pub enum AmountError {
    /// The result would exceed the largest representable amount.
    Overflow,
    /// The result would be negative.
    Underflow,
    /// The subunit part of a `(whole, subunits)` pair was not below the
    /// subdivision base.
    TooManySubunits,
}

/// An unsigned token amount, counted in `10^-18` token subunits.
#[derive(Clone, Copy, Debug, Hash, PartialEq, Eq, Structural)]
pub struct TOKENs {
    e8s: u64,
}

impl View for TOKENs {
    type V = u64;

    closed spec fn view(&self) -> u64 {
        self.e8s
    }
}

impl TOKENs {
    /// The largest representable amount.
    pub fn max_value() -> (r: TOKENs)
        ensures
            r@ == u64::MAX,
    {
        TOKENs { e8s: u64::MAX }
    }

    /// The zero amount.
    pub fn zero() -> (r: TOKENs)
        ensures
            r@ == 0,
    {
        TOKENs { e8s: 0 }
    }

    /// Builds an amount out of a whole-token part and a subunit part.
    /// Fails if the subunit part reaches the subdivision base or if the
    /// combined subunit count does not fit in a `u64`.
    pub fn new(tokens: u64, e8s: u64) -> (r: Result<TOKENs, AmountError>)
        ensures
            ({
                let total = tokens * TOKEN_SUBDIVIDABLE_BY + e8s;
                if tokens * TOKEN_SUBDIVIDABLE_BY > u64::MAX {
                    r == Err::<TOKENs, AmountError>(AmountError::Overflow)
                } else if e8s >= TOKEN_SUBDIVIDABLE_BY {
                    r == Err::<TOKENs, AmountError>(AmountError::TooManySubunits)
                } else if total > u64::MAX {
                    r == Err::<TOKENs, AmountError>(AmountError::Overflow)
                } else {
                    r matches Ok(t) && t@ == total
                }
            }),
    {
        let token_part = match tokens.checked_mul(TOKEN_SUBDIVIDABLE_BY) {
            Some(p) => p,
            None => {
                return Err(AmountError::Overflow);
            },
        };
        if e8s >= TOKEN_SUBDIVIDABLE_BY {
            return Err(AmountError::TooManySubunits);
        }
        match token_part.checked_add(e8s) {
            Some(total) => Ok(TOKENs { e8s: total }),
            None => Err(AmountError::Overflow),
        }
    }

    /// Builds an amount of whole tokens.
    pub fn from_tokens(tokens: u64) -> (r: Result<TOKENs, AmountError>)
        ensures
            ({
                let total = tokens * TOKEN_SUBDIVIDABLE_BY;
                if total > u64::MAX {
                    r == Err::<TOKENs, AmountError>(AmountError::Overflow)
                } else {
                    r matches Ok(t) && t@ == total
                }
            }),
    {
        TOKENs::new(tokens, 0)
    }

    /// The amount holding the given subunit count, at the
    /// specification level.
    pub closed spec fn spec_from_e8s(e8s: u64) -> TOKENs {
        TOKENs { e8s }
    }

    /// Builds an amount directly from a subunit count.
    pub fn from_e8s(e8s: u64) -> (r: TOKENs)
        ensures
            r@ == e8s,
            r == TOKENs::spec_from_e8s(e8s),
    {
        TOKENs { e8s }
    }

    /// The whole-token part of the amount.
    pub fn get_tokens(self) -> (r: u64)
        ensures
            r == self@ / TOKEN_SUBDIVIDABLE_BY,
    {
        self.e8s / TOKEN_SUBDIVIDABLE_BY
    }

    /// The amount as a plain subunit count.
    pub fn get_e8s(self) -> (r: u64)
        ensures
            r == self@,
    {
        self.e8s
    }

    /// The subunit part below one whole token.
    pub fn get_remainder_e8s(self) -> (r: u64)
        ensures
            r == self@ % TOKEN_SUBDIVIDABLE_BY,
    {
        self.e8s % TOKEN_SUBDIVIDABLE_BY
    }

    /// The amount as a `(whole, remainder)` pair.
    pub fn unpack(self) -> (r: (u64, u64))
        ensures
            r.0 == self@ / TOKEN_SUBDIVIDABLE_BY,
            r.1 == self@ % TOKEN_SUBDIVIDABLE_BY,
    {
        (self.get_tokens(), self.get_remainder_e8s())
    }

    /// Checked addition: fails instead of wrapping when the sum does not
    /// fit in a `u64` subunit count.
    pub fn checked_add(self, other: TOKENs) -> (r: Result<TOKENs, AmountError>)
        ensures
            self@ + other@ <= u64::MAX ==> (r matches Ok(t) && t@ == self@ + other@),
            self@ + other@ > u64::MAX ==> r == Err::<TOKENs, AmountError>(AmountError::Overflow),
    {
        match self.e8s.checked_add(other.e8s) {
            Some(e8s) => Ok(TOKENs { e8s }),
            None => Err(AmountError::Overflow),
        }
    }

    /// Checked subtraction: fails instead of wrapping when the result
    /// would be negative.
    pub fn checked_sub(self, other: TOKENs) -> (r: Result<TOKENs, AmountError>)
        ensures
            self@ >= other@ ==> (r matches Ok(t) && t@ == self@ - other@),
            self@ < other@ ==> r == Err::<TOKENs, AmountError>(AmountError::Underflow),
    {
        match self.e8s.checked_sub(other.e8s) {
            Some(e8s) => Ok(TOKENs { e8s }),
            None => Err(AmountError::Underflow),
        }
    }

    /// Equal subunit counts mean equal amounts.
    pub proof fn lemma_view_injective(a: TOKENs, b: TOKENs)
        ensures
            (a == b) <==> (a@ == b@),
    {
    }
}

/// An amount built from a subunit count views back to that count.
pub broadcast proof fn lemma_from_e8s_view(e8s: u64)
    ensures
        (#[trigger] TOKENs::spec_from_e8s(e8s))@ == e8s,
{
}

/// An amount is determined by its subunit count.
pub broadcast proof fn lemma_tokens_view_roundtrip(t: TOKENs)
    ensures
        TOKENs::spec_from_e8s(#[trigger] t@) == t,
{
}

impl Default for TOKENs {
    /// The default amount is zero.
    fn default() -> (r: TOKENs)
        ensures
            r@ == 0,
    {
        TOKENs { e8s: 0 }
    }
}

/// The fee charged on every transfer, in subunits.
pub const TRANSACTION_FEE_E8S: u64 = 10_000;

/// The smallest amount a burn may remove, in subunits.
pub const MIN_BURN_AMOUNT_E8S: u64 = TRANSACTION_FEE_E8S;

} // verus!
