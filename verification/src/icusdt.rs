//! Fixed-point unsigned USDT quantity backed by a `u64` count of
//! subunits, with checked arithmetic: overflow and underflow are
//! reported as errors, never wrapped or truncated.

use vstd::prelude::*;
use crate::ic_token::AmountError;

verus! {

/// How many subunits one whole USDT is divided into.
pub const USDT_SUBDIVIDABLE_BY: u64 = 100_000_000_000_000_000;

/// An unsigned USDT amount, counted in `10^-18` USDT subunits.
#[derive(Clone, Copy, Debug, Hash, PartialEq, Eq, Structural)]
pub struct USDTs {
    e8s: u64,
}

impl View for USDTs {
    type V = u64;

    closed spec fn view(&self) -> u64 {
        self.e8s
    }
}

impl USDTs {
    /// The largest representable amount.
    pub fn max_value() -> (r: USDTs)
        ensures
            r@ == u64::MAX,
    {
        USDTs { e8s: u64::MAX }
    }

    /// The zero amount.
    pub fn zero() -> (r: USDTs)
        ensures
            r@ == 0,
    {
        USDTs { e8s: 0 }
    }

    /// Builds an amount out of a whole-USDT part and a subunit part.
    /// Fails if the subunit part reaches the subdivision base or if the
    /// combined subunit count does not fit in a `u64`.
    pub fn new(usdts: u64, e8s: u64) -> (r: Result<USDTs, AmountError>)
        ensures
            ({
                let total = usdts * USDT_SUBDIVIDABLE_BY + e8s;
                if usdts * USDT_SUBDIVIDABLE_BY > u64::MAX {
                    r == Err::<USDTs, AmountError>(AmountError::Overflow)
                } else if e8s >= USDT_SUBDIVIDABLE_BY {
                    r == Err::<USDTs, AmountError>(AmountError::TooManySubunits)
                } else if total > u64::MAX {
                    r == Err::<USDTs, AmountError>(AmountError::Overflow)
                } else {
                    r matches Ok(t) && t@ == total
                }
            }),
    {
        let usdt_part = match usdts.checked_mul(USDT_SUBDIVIDABLE_BY) {
            Some(p) => p,
            None => {
                return Err(AmountError::Overflow);
            },
        };
        if e8s >= USDT_SUBDIVIDABLE_BY {
            return Err(AmountError::TooManySubunits);
        }
        match usdt_part.checked_add(e8s) {
            Some(total) => Ok(USDTs { e8s: total }),
            None => Err(AmountError::Overflow),
        }
    }

    /// Builds an amount of whole USDTs.
    pub fn from_usdts(usdts: u64) -> (r: Result<USDTs, AmountError>)
        ensures
            ({
                let total = usdts * USDT_SUBDIVIDABLE_BY;
                if total > u64::MAX {
                    r == Err::<USDTs, AmountError>(AmountError::Overflow)
                } else {
                    r matches Ok(t) && t@ == total
                }
            }),
    {
        USDTs::new(usdts, 0)
    }

    /// The amount holding the given subunit count, at the
    /// specification level.
    pub closed spec fn spec_from_e8s(e8s: u64) -> USDTs {
        USDTs { e8s }
    }

    /// Builds an amount directly from a subunit count.
    pub fn from_e8s(e8s: u64) -> (r: USDTs)
        ensures
            r@ == e8s,
            r == USDTs::spec_from_e8s(e8s),
    {
        USDTs { e8s }
    }

    /// The whole-USDT part of the amount.
    pub fn get_usdts(self) -> (r: u64)
        ensures
            r == self@ / USDT_SUBDIVIDABLE_BY,
    {
        self.e8s / USDT_SUBDIVIDABLE_BY
    }

    /// The amount as a plain subunit count.
    pub fn get_e8s(self) -> (r: u64)
        ensures
            r == self@,
    {
        self.e8s
    }

    /// The subunit part below one whole USDT.
    pub fn get_remainder_e8s(self) -> (r: u64)
        ensures
            r == self@ % USDT_SUBDIVIDABLE_BY,
    {
        self.e8s % USDT_SUBDIVIDABLE_BY
    }

    /// The amount as a `(whole, remainder)` pair.
    pub fn unpack(self) -> (r: (u64, u64))
        ensures
            r.0 == self@ / USDT_SUBDIVIDABLE_BY,
            r.1 == self@ % USDT_SUBDIVIDABLE_BY,
    {
        (self.get_usdts(), self.get_remainder_e8s())
    }

    /// Checked addition: fails instead of wrapping when the sum does not
    /// fit in a `u64` subunit count.
    pub fn checked_add(self, other: USDTs) -> (r: Result<USDTs, AmountError>)
        ensures
            self@ + other@ <= u64::MAX ==> (r matches Ok(t) && t@ == self@ + other@),
            self@ + other@ > u64::MAX ==> r == Err::<USDTs, AmountError>(AmountError::Overflow),
    {
        match self.e8s.checked_add(other.e8s) {
            Some(e8s) => Ok(USDTs { e8s }),
            None => Err(AmountError::Overflow),
        }
    }

    /// Checked subtraction: fails instead of wrapping when the result
    /// would be negative.
    pub fn checked_sub(self, other: USDTs) -> (r: Result<USDTs, AmountError>)
        ensures
            self@ >= other@ ==> (r matches Ok(t) && t@ == self@ - other@),
            self@ < other@ ==> r == Err::<USDTs, AmountError>(AmountError::Underflow),
    {
        match self.e8s.checked_sub(other.e8s) {
            Some(e8s) => Ok(USDTs { e8s }),
            None => Err(AmountError::Underflow),
        }
    }

    /// Equal subunit counts mean equal amounts.
    pub proof fn lemma_view_injective(a: USDTs, b: USDTs)
        ensures
            (a == b) <==> (a@ == b@),
    {
    }
}

/// An amount is determined by its subunit count.
pub broadcast proof fn lemma_usdts_view_roundtrip(t: USDTs)
    ensures
        USDTs::spec_from_e8s(#[trigger] t@) == t,
{
}

impl Default for USDTs {
    /// The default amount is zero.
    fn default() -> (r: USDTs)
        ensures
            r@ == 0,
    {
        USDTs { e8s: 0 }
    }
}

} // verus!
