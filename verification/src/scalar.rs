//! Scalars of a prime field, tagged by curve. The polynomial
//! arithmetic used for secret sharing depends only on the field laws,
//! so each curve's scalar field is modeled by a Mersenne-prime field
//! that fits in one 64-bit word; every operation reduces modulo the
//! curve's prime.

use vstd::prelude::*;
use rand_core::RngCore;

verus! {

/// The curves whose scalar fields are supported.
#[derive(Clone, Copy, Debug, Hash, PartialEq, Eq, Structural)]
pub enum EccCurveType {
    K256,
    P256,
}

/// The field order used for K256 scalars: the Mersenne prime 2^61 - 1.
pub const MODULUS_K256: u64 = 2_305_843_009_213_693_951;

/// The field order used for P256 scalars: the Mersenne prime 2^31 - 1.
pub const MODULUS_P256: u64 = 2_147_483_647;

/// The field order of a curve's scalar field.
pub open spec fn spec_modulus(curve: EccCurveType) -> u64 {
    match curve {
        EccCurveType::K256 => MODULUS_K256,
        EccCurveType::P256 => MODULUS_P256,
    }
}

/// Why a scalar or polynomial operation failed.
#[derive(Clone, Copy, Debug, PartialEq, Eq, Structural)]
pub enum ThresholdEcdsaError {
    /// Two operands belong to different curves.
    CurveMismatch,
}

/// The result type of scalar and polynomial operations.
pub type ThresholdEcdsaResult<T> = Result<T, ThresholdEcdsaError>;

/// Relies on rand_core::OsRng (the operating system's entropy source)
/// for one raw 64-bit value; nothing is promised of the outcome. The
/// call panics if the system's generator is unavailable.
#[verifier::external_body]
fn random_u64() -> u64 {
    rand_core::OsRng.next_u64()
}

/// A power of a field value by square and multiply, carrying the
/// accumulated result: the value `pow_mod` computes.
pub open spec fn spec_pow_acc(result: u64, b: u64, e: u64, p: u64) -> u64
    recommends
        p > 1,
    decreases e,
{
    if e == 0 {
        result
    } else {
        let r2 = if e % 2 == 1 {
            ((result * b) % (p as int)) as u64
        } else {
            result
        };
        spec_pow_acc(r2, ((b * b) % (p as int)) as u64, e / 2, p)
    }
}

/// The checked inverse: zero for zero; otherwise the square-and-
/// multiply power to `p - 2`, kept only if its product with the input
/// is one, and zero otherwise.
pub open spec fn spec_invert(x: u64, p: u64) -> u64
    recommends
        1 < p,
        x < p,
{
    if x == 0 {
        0
    } else {
        let c = spec_pow_acc(1, x % p, (p - 2) as u64, p);
        if (x * c) % (p as int) == 1 {
            c
        } else {
            0
        }
    }
}

/// A scalar of a curve's prime field: a value reduced modulo the
/// curve's field order.
#[derive(Clone, Copy, Debug, Hash, PartialEq, Eq, Structural)]
pub struct EccScalar {
    pub curve: EccCurveType,
    pub value: u64,
}

impl EccScalar {
    /// A well-formed scalar is reduced modulo its field order.
    pub open spec fn wf(&self) -> bool {
        self.value < spec_modulus(self.curve)
    }

    /// The curve whose field this scalar belongs to.
    pub fn curve_type(&self) -> (r: EccCurveType)
        ensures
            r == self.curve,
    {
        self.curve
    }

    /// The field order of a curve's scalar field.
    pub fn modulus(curve: EccCurveType) -> (r: u64)
        ensures
            r == spec_modulus(curve),
            r > 1,
    {
        match curve {
            EccCurveType::K256 => MODULUS_K256,
            EccCurveType::P256 => MODULUS_P256,
        }
    }

    /// The additive identity.
    pub fn zero(curve: EccCurveType) -> (r: EccScalar)
        ensures
            r == (EccScalar { curve, value: 0 }),
            r.wf(),
    {
        EccScalar { curve, value: 0 }
    }

    /// The multiplicative identity.
    pub fn one(curve: EccCurveType) -> (r: EccScalar)
        ensures
            r == (EccScalar { curve, value: 1 }),
            r.wf(),
    {
        EccScalar { curve, value: 1 }
    }

    /// The scalar with the given value reduced into the field.
    pub fn from_u64(curve: EccCurveType, n: u64) -> (r: EccScalar)
        ensures
            r.curve == curve,
            r.value == n % spec_modulus(curve),
            r.wf(),
    {
        let m = Self::modulus(curve);
        EccScalar { curve, value: n % m }
    }

    /// Whether the scalar is the additive identity.
    pub fn is_zero(&self) -> (r: bool)
        ensures
            r == (self.value == 0),
    {
        self.value == 0
    }

    /// A uniformly drawn raw value reduced into the field. Nothing is
    /// promised of the outcome beyond well-formedness.
    pub fn random(curve: EccCurveType) -> (r: EccScalar)
        ensures
            r.curve == curve,
            r.wf(),
    {
        Self::from_u64(curve, random_u64())
    }

    /// Field addition. Fails if the operands belong to different
    /// curves.
    pub fn add(&self, other: &EccScalar) -> (r: ThresholdEcdsaResult<EccScalar>)
        requires
            self.wf(),
            other.wf(),
        ensures
            self.curve != other.curve ==> r == Err::<EccScalar, ThresholdEcdsaError>(
                ThresholdEcdsaError::CurveMismatch,
            ),
            self.curve == other.curve ==> (r matches Ok(s) && s.curve == self.curve && s.wf()
                && s.value == (self.value + other.value) % (spec_modulus(self.curve) as int)),
    {
        if self.curve != other.curve {
            return Err(ThresholdEcdsaError::CurveMismatch);
        }
        let p = Self::modulus(self.curve);
        let sum = ((self.value as u128) + (other.value as u128)) % (p as u128);
        Ok(EccScalar { curve: self.curve, value: sum as u64 })
    }

    /// Field subtraction. Fails if the operands belong to different
    /// curves.
    pub fn sub(&self, other: &EccScalar) -> (r: ThresholdEcdsaResult<EccScalar>)
        requires
            self.wf(),
            other.wf(),
        ensures
            self.curve != other.curve ==> r == Err::<EccScalar, ThresholdEcdsaError>(
                ThresholdEcdsaError::CurveMismatch,
            ),
            self.curve == other.curve ==> (r matches Ok(s) && s.curve == self.curve && s.wf()
                && s.value == (self.value + spec_modulus(self.curve) - other.value) % (
                spec_modulus(self.curve) as int)),
    {
        if self.curve != other.curve {
            return Err(ThresholdEcdsaError::CurveMismatch);
        }
        let p = Self::modulus(self.curve);
        let diff = ((self.value as u128) + (p as u128) - (other.value as u128)) % (p as u128);
        Ok(EccScalar { curve: self.curve, value: diff as u64 })
    }

    /// The additive inverse.
    pub fn negate(&self) -> (r: EccScalar)
        requires
            self.wf(),
        ensures
            r.curve == self.curve,
            r.wf(),
            r.value == (spec_modulus(self.curve) - self.value) % (spec_modulus(self.curve) as int),
    {
        let p = Self::modulus(self.curve);
        EccScalar { curve: self.curve, value: (p - self.value) % p }
    }

    /// Field multiplication. Fails if the operands belong to different
    /// curves.
    pub fn mul(&self, other: &EccScalar) -> (r: ThresholdEcdsaResult<EccScalar>)
        requires
            self.wf(),
            other.wf(),
        ensures
            self.curve != other.curve ==> r == Err::<EccScalar, ThresholdEcdsaError>(
                ThresholdEcdsaError::CurveMismatch,
            ),
            self.curve == other.curve ==> (r matches Ok(s) && s.curve == self.curve && s.wf()
                && s.value == (self.value * other.value) % (spec_modulus(self.curve) as int)),
    {
        if self.curve != other.curve {
            return Err(ThresholdEcdsaError::CurveMismatch);
        }
        Ok(EccScalar { curve: self.curve, value: mul_mod(self.value, other.value, Self::modulus(self.curve)) })
    }

    /// The multiplicative inverse: zero for the zero scalar, and a
    /// scalar whose product with the input is one otherwise. The
    /// result is checked before it is returned, so a nonzero result is
    /// always a true inverse.
    pub fn invert(&self) -> (r: EccScalar)
        requires
            self.wf(),
        ensures
            r.curve == self.curve,
            r.wf(),
            r.value == spec_invert(self.value, spec_modulus(self.curve)),
            self.value == 0 ==> r.value == 0,
            r.value != 0 ==> (self.value * r.value) % (spec_modulus(self.curve) as int) == 1,
    {
        if self.value == 0 {
            return EccScalar { curve: self.curve, value: 0 };
        }
        let p = Self::modulus(self.curve);
        let candidate = pow_mod(self.value, p - 2, p);
        if mul_mod(self.value, candidate, p) == 1 {
            EccScalar { curve: self.curve, value: candidate }
        } else {
            EccScalar { curve: self.curve, value: 0 }
        }
    }
}

/// The product of two field values, reduced.
pub(crate) fn mul_mod(a: u64, b: u64, p: u64) -> (r: u64)
    requires
        p > 1,
    ensures
        r == (a * b) % (p as int),
{
    proof {
        assert((a as int) * (b as int) < 0x1_0000_0000_0000_0000_0000_0000_0000_0000int)
            by (nonlinear_arith)
            requires
                a < 0x1_0000_0000_0000_0000int,
                b < 0x1_0000_0000_0000_0000int,
        ;
    }
    (((a as u128) * (b as u128)) % (p as u128)) as u64
}

/// A power of a field value, reduced, by square and multiply. Only the
/// range of the result is stated; inversion checks what it needs at
/// run time.
fn pow_mod(base: u64, exp: u64, p: u64) -> (r: u64)
    requires
        p > 1,
    ensures
        r < p,
        r == spec_pow_acc(1, base % p, exp, p),
{
    let mut result: u64 = 1;
    let mut b: u64 = base % p;
    let mut e: u64 = exp;
    while e > 0
        invariant
            p > 1,
            result < p,
            b < p,
            spec_pow_acc(result, b, e, p) == spec_pow_acc(1, base % p, exp, p),
        decreases e,
    {
        if e % 2 == 1 {
            result = mul_mod(result, b, p);
        }
        b = mul_mod(b, b, p);
        e = e / 2;
    }
    result
}

} // verus!
