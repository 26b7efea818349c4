//! Scalar field arithmetic and polynomial interpolation: a random
//! polynomial is reconstructed exactly from degree-plus-one distinct
//! samples.

use token_ledger::{
    EccCurveType, EccScalar, Polynomial, ThresholdEcdsaError, MODULUS_K256, MODULUS_P256,
};

fn s(v: u64) -> EccScalar {
    EccScalar::from_u64(EccCurveType::K256, v)
}

#[test]
fn scalar_arithmetic_is_modular() {
    let p = MODULUS_K256;
    assert_eq!(s(p).value, 0);
    assert_eq!(s(p - 1).add(&s(2)).unwrap().value, 1);
    assert_eq!(s(3).sub(&s(5)).unwrap().value, p - 2);
    assert_eq!(s(0).negate().value, 0);
    assert_eq!(s(1).negate().value, p - 1);
    assert_eq!(s(1 << 31).mul(&s(1 << 31)).unwrap().value, (1u128 << 62).rem_euclid(p as u128) as u64);
    assert_eq!(EccScalar::modulus(EccCurveType::P256), MODULUS_P256);
}

#[test]
fn scalar_inversion_is_checked() {
    for v in [1u64, 2, 3, 12345, MODULUS_K256 - 1] {
        let x = s(v);
        let inv = x.invert();
        assert_ne!(inv.value, 0);
        assert_eq!(x.mul(&inv).unwrap().value, 1);
    }
    assert_eq!(s(0).invert().value, 0);
}

#[test]
fn scalar_curve_mismatch_is_rejected() {
    let a = EccScalar::from_u64(EccCurveType::K256, 1);
    let b = EccScalar::from_u64(EccCurveType::P256, 1);
    assert_eq!(a.add(&b), Err(ThresholdEcdsaError::CurveMismatch));
    assert_eq!(a.sub(&b), Err(ThresholdEcdsaError::CurveMismatch));
    assert_eq!(a.mul(&b), Err(ThresholdEcdsaError::CurveMismatch));
}

#[test]
fn evaluate_uses_all_coefficients() {
    // p(x) = 2 + 3x + x^2
    let poly = Polynomial::new(EccCurveType::K256, vec![s(2), s(3), s(1)]).unwrap();
    assert_eq!(poly.evaluate_at(&s(0)).unwrap().value, 2);
    assert_eq!(poly.evaluate_at(&s(4)).unwrap().value, 2 + 12 + 16);
    // the empty polynomial is zero everywhere
    let zero = Polynomial::zero(EccCurveType::K256).unwrap();
    assert_eq!(zero.evaluate_at(&s(9)).unwrap().value, 0);
    // evaluation at a scalar of another curve fails
    let off = EccScalar::from_u64(EccCurveType::P256, 1);
    assert_eq!(poly.evaluate_at(&off), Err(ThresholdEcdsaError::CurveMismatch));
}

#[test]
fn new_rejects_mixed_curves() {
    let mixed = vec![s(1), EccScalar::from_u64(EccCurveType::P256, 2)];
    assert_eq!(
        Polynomial::new(EccCurveType::K256, mixed),
        Err(ThresholdEcdsaError::CurveMismatch)
    );
}

#[test]
fn equality_ignores_trailing_zeros() {
    let a = Polynomial::new(EccCurveType::K256, vec![s(1), s(2)]).unwrap();
    let b = Polynomial::new(EccCurveType::K256, vec![s(1), s(2), s(0), s(0)]).unwrap();
    assert_eq!(a, b);
    let c = Polynomial::new(EccCurveType::K256, vec![s(1), s(2), s(3)]).unwrap();
    assert_ne!(a, c);
    assert_eq!(b.non_zero_coefficients(), vec![s(1), s(2)]);
}

#[test]
fn interpolation_reconstructs_a_random_polynomial() {
    let curve = EccCurveType::K256;
    let degree = 3usize;
    let p = Polynomial::random(curve, degree).unwrap();
    // degree + 1 distinct sample points
    let mut samples = Vec::new();
    for x in 1..=(degree as u64 + 1) {
        let xs = s(x * 1_000);
        samples.push((xs, p.evaluate_at(&xs).unwrap()));
    }
    let q = Polynomial::interpolate(curve, &samples).unwrap();
    // q agrees with p everywhere, including points never sampled
    for x in [0u64, 7, 99, 123_456, MODULUS_K256 - 5] {
        let xs = s(x);
        assert_eq!(p.evaluate_at(&xs).unwrap(), q.evaluate_at(&xs).unwrap());
    }
    assert_eq!(p, q);
}

#[test]
fn interpolation_with_constant_secret_shares() {
    let curve = EccCurveType::K256;
    let secret = s(424_242);
    let p = Polynomial::random_with_constant(secret, 2).unwrap();
    assert_eq!(p.coefficients[0], secret);
    // any 3 shares reconstruct the secret at zero
    let mut samples = Vec::new();
    for x in [5u64, 11, 17] {
        let xs = s(x);
        samples.push((xs, p.evaluate_at(&xs).unwrap()));
    }
    let q = Polynomial::interpolate(curve, &samples).unwrap();
    assert_eq!(q.evaluate_at(&s(0)).unwrap(), secret);
}

#[test]
fn interpolation_silently_skips_duplicate_abscissas() {
    let curve = EccCurveType::K256;
    // the second sample repeats x = 1 with another value; it is
    // dropped, and the result passes through the first
    let samples = vec![(s(1), s(5)), (s(1), s(7)), (s(2), s(9))];
    let q = Polynomial::interpolate(curve, &samples).unwrap();
    assert_eq!(q.evaluate_at(&s(1)).unwrap().value, 5);
    assert_eq!(q.evaluate_at(&s(2)).unwrap().value, 9);
}

#[test]
fn interpolation_keeps_the_first_sample_and_drops_after_a_coincidence() {
    let curve = EccCurveType::K256;
    // the second sample already lies on the partial interpolant
    // (the constant 5), which scales the basis polynomial to zero:
    // the construction keeps what it has and drops what follows
    let samples = vec![(s(1), s(5)), (s(2), s(5)), (s(3), s(7))];
    let q = Polynomial::interpolate(curve, &samples).unwrap();
    assert_eq!(q.evaluate_at(&s(1)).unwrap().value, 5);
    assert_eq!(q.evaluate_at(&s(2)).unwrap().value, 5);
    // the third sample was dropped
    assert_eq!(q.evaluate_at(&s(3)).unwrap().value, 5);
}

#[test]
fn interpolation_of_nothing_is_zero() {
    let q = Polynomial::interpolate(EccCurveType::K256, &Vec::new()).unwrap();
    assert_eq!(q.coefficients.len(), 0);
}

#[test]
fn interpolation_rejects_off_curve_samples() {
    let bad = vec![(s(1), EccScalar::from_u64(EccCurveType::P256, 5))];
    assert_eq!(
        Polynomial::interpolate(EccCurveType::K256, &bad),
        Err(ThresholdEcdsaError::CurveMismatch)
    );
}

#[test]
fn random_polynomials_have_the_requested_degree() {
    let p = Polynomial::random(EccCurveType::P256, 4).unwrap();
    assert_eq!(p.coefficients.len(), 5);
    assert_eq!(p.curve_type(), EccCurveType::P256);
    for c in &p.coefficients {
        assert!(c.value < MODULUS_P256);
    }
}
