//! Polynomials over a curve's scalar field, stored as a dense
//! little-endian coefficient vector: the constant term is coefficient
//! zero. Trailing zero coefficients are permitted and ignored by
//! equality. Used to secret-share scalar values: a secret is the
//! constant term, shares are evaluations.

use vstd::prelude::*;
use vstd::arithmetic::div_mod::{
    lemma_add_mod_noop, lemma_add_mod_noop_right, lemma_mul_mod_noop_left,
    lemma_mul_mod_noop_right, lemma_small_mod,
};
use crate::scalar::{
    spec_modulus, EccCurveType, EccScalar, ThresholdEcdsaError, ThresholdEcdsaResult,
};

verus! {

/// The coefficient at an index, zero past the stored ones.
pub open spec fn spec_coeff(s: Seq<EccScalar>, curve: EccCurveType, i: int) -> EccScalar {
    if 0 <= i < s.len() {
        s[i]
    } else {
        EccScalar { curve, value: 0 }
    }
}

/// The value of a polynomial at `x`, little-endian Horner form: the
/// constant term plus `x` times the value of the shifted polynomial,
/// reduced at each step.
pub open spec fn spec_poly_eval(coeffs: Seq<EccScalar>, x: u64, p: int) -> int
    decreases coeffs.len(),
{
    if coeffs.len() == 0 {
        0
    } else {
        (coeffs[0].value + x * spec_poly_eval(coeffs.drop_first(), x, p)) % p
    }
}

/// The length of the coefficient vector with trailing zeros stripped.
pub open spec fn spec_trimmed_len(s: Seq<EccScalar>) -> int
    decreases s.len(),
{
    if s.len() == 0 {
        0
    } else if s.last().value == 0 {
        spec_trimmed_len(s.drop_last())
    } else {
        s.len() as int
    }
}

/// The convolution of two coefficient vectors at output index `k`,
/// over the first `i` coefficients of `a`, reduced at each step.
pub open spec fn spec_conv_partial(
    a: Seq<EccScalar>,
    b: Seq<EccScalar>,
    k: int,
    i: int,
    p: int,
) -> int
    decreases i,
{
    if i <= 0 {
        0
    } else {
        (spec_conv_partial(a, b, k, i - 1, p) + (if 0 <= k - (i - 1) < b.len() {
            (a[i - 1].value * b[k - (i - 1)].value) % p
        } else {
            0
        })) % p
    }
}

/// The convolution of two coefficient vectors at output index `k`.
pub open spec fn spec_conv(a: Seq<EccScalar>, b: Seq<EccScalar>, k: int, p: int) -> int {
    spec_conv_partial(a, b, k, a.len() as int, p)
}

/// Pointwise modular sum of two coefficient vectors, the shorter one
/// padded with zeros: what polynomial addition computes.
pub open spec fn spec_add_coeffs(
    a: Seq<EccScalar>,
    b: Seq<EccScalar>,
    curve: EccCurveType,
) -> Seq<EccScalar> {
    Seq::new(
        if a.len() >= b.len() {
            a.len()
        } else {
            b.len()
        },
        |i: int|
            EccScalar {
                curve,
                value: ((spec_coeff(a, curve, i).value + spec_coeff(b, curve, i).value) % (
                spec_modulus(curve) as int)) as u64,
            },
    )
}

/// Each coefficient multiplied by a scalar, reduced: what
/// multiplication by a scalar computes.
pub open spec fn spec_scale_coeffs(a: Seq<EccScalar>, s: u64, curve: EccCurveType) -> Seq<
    EccScalar,
> {
    Seq::new(
        a.len(),
        |i: int|
            EccScalar { curve, value: ((a[i].value * s) % (spec_modulus(curve) as int)) as u64 },
    )
}

/// The coefficient vector of the product: the convolution at each
/// output index. Meaningful for factors with at least one coefficient
/// between them.
pub open spec fn spec_mul_coeffs(
    a: Seq<EccScalar>,
    b: Seq<EccScalar>,
    curve: EccCurveType,
) -> Seq<EccScalar> {
    Seq::new(
        (a.len() + b.len() - 1) as nat,
        |k: int| EccScalar { curve, value: spec_conv(a, b, k, spec_modulus(curve) as int) as u64 },
    )
}

/// The incremental Newton-style construction that interpolation
/// performs, as a recurrence over the first `i` samples: the partial
/// interpolant and the basis polynomial that is zero on the samples
/// honored so far. A sample is skipped when the basis evaluates to
/// zero at its abscissa (a repeated abscissa — or any later sample,
/// once a sample that already lay on the partial interpolant has
/// scaled the basis to zero; that quirk of the construction is kept).
pub open spec fn spec_newton(
    curve: EccCurveType,
    samples: Seq<(EccScalar, EccScalar)>,
    i: int,
) -> (Seq<EccScalar>, Seq<EccScalar>)
    recommends
        1 <= i <= samples.len(),
    decreases i,
{
    let p = spec_modulus(curve) as int;
    if i <= 1 {
        (
            seq![samples[0].1],
            seq![
                EccScalar { curve, value: ((spec_modulus(curve) - samples[0].0.value) % p) as u64 },
                EccScalar { curve, value: 1 },
            ],
        )
    } else {
        let prev = spec_newton(curve, samples, i - 1);
        let poly = prev.0;
        let base = prev.1;
        let x = samples[i - 1].0;
        let y = samples[i - 1].1;
        let at_x = spec_poly_eval(poly, x.value, p);
        let base_at_x = spec_poly_eval(base, x.value, p);
        let inv = crate::scalar::spec_invert(base_at_x as u64, spec_modulus(curve));
        if inv == 0 {
            prev
        } else {
            let diff0 = (y.value + spec_modulus(curve) - at_x) % p;
            let diff = ((diff0 * inv) % p) as u64;
            let base2 = spec_scale_coeffs(base, diff, curve);
            let poly2 = spec_add_coeffs(poly, base2, curve);
            let lin = seq![
                EccScalar { curve, value: ((spec_modulus(curve) - x.value) % p) as u64 },
                EccScalar { curve, value: 1 },
            ];
            (poly2, spec_mul_coeffs(base2, lin, curve))
        }
    }
}

/// The field order of every supported curve is above one.
proof fn lemma_modulus_pos(curve: EccCurveType)
    ensures
        spec_modulus(curve) > 1,
{
}

/// Evaluating a pointwise modular sum adds the evaluations, reduced.
#[verifier::rlimit(60)]
#[verifier::spinoff_prover]
proof fn lemma_eval_add_coeffs(a: Seq<EccScalar>, b: Seq<EccScalar>, curve: EccCurveType, x: u64)
    requires
        x < spec_modulus(curve),
    ensures
        spec_poly_eval(spec_add_coeffs(a, b, curve), x, spec_modulus(curve) as int) == (
        spec_poly_eval(a, x, spec_modulus(curve) as int) + spec_poly_eval(
            b,
            x,
            spec_modulus(curve) as int,
        )) % (spec_modulus(curve) as int),
    decreases a.len() + b.len(),
{
    lemma_modulus_pos(curve);
    let p = spec_modulus(curve) as int;
    let c = spec_add_coeffs(a, b, curve);
    if c.len() == 0 {
        assert(spec_poly_eval(c, x, p) == 0);
    } else {
        let a1 = if a.len() > 0 {
            a.drop_first()
        } else {
            a
        };
        let b1 = if b.len() > 0 {
            b.drop_first()
        } else {
            b
        };
        lemma_eval_add_coeffs(a1, b1, curve, x);
        assert(c.drop_first() =~= spec_add_coeffs(a1, b1, curve)) by {
            assert forall|i: int| 0 <= i < c.len() - 1 implies c.drop_first()[i]
                == spec_add_coeffs(a1, b1, curve)[i] by {
                assert(spec_coeff(a1, curve, i) == spec_coeff(a, curve, i + 1));
                assert(spec_coeff(b1, curve, i) == spec_coeff(b, curve, i + 1));
            }
        }
        let a0 = spec_coeff(a, curve, 0).value as int;
        let b0 = spec_coeff(b, curve, 0).value as int;
        let ea1 = spec_poly_eval(a1, x, p);
        let eb1 = spec_poly_eval(b1, x, p);
        assert(spec_poly_eval(a, x, p) == (a0 + x * ea1) % p) by {
            if a.len() == 0 {
                assert(x * ea1 == 0);
            }
        }
        assert(spec_poly_eval(b, x, p) == (b0 + x * eb1) % p) by {
            if b.len() == 0 {
                assert(x * eb1 == 0);
            }
        }
        let c0 = (a0 + b0) % p;
        let w = x * ((ea1 + eb1) % p);
        let z = x * (ea1 + eb1);
        assert(spec_poly_eval(c, x, p) == (c0 + w) % p);
        lemma_mul_mod_noop_right(x as int, ea1 + eb1, p);
        lemma_add_mod_noop_right(c0, w, p);
        lemma_add_mod_noop_right(c0, z, p);
        assert((c0 + w) % p == (c0 + z) % p);
        lemma_add_mod_noop(a0 + b0, z, p);
        lemma_small_mod((z % p) as nat, p as nat);
        assert((c0 + z % p) % p == ((a0 + b0) % p + (z % p) % p) % p);
        assert((c0 + z) % p == (a0 + b0 + z) % p);
        assert(x * (ea1 + eb1) == x * ea1 + x * eb1) by (nonlinear_arith);
        lemma_add_mod_noop(a0 + x * ea1, b0 + x * eb1, p);
        assert(((a0 + x * ea1) % p + (b0 + x * eb1) % p) % p == (a0 + x * ea1 + b0 + x * eb1)
            % p);
    }
}

/// Evaluating a scaled coefficient vector scales the evaluation,
/// reduced.
#[verifier::rlimit(60)]
#[verifier::spinoff_prover]
proof fn lemma_eval_scale_coeffs(a: Seq<EccScalar>, sc: u64, curve: EccCurveType, x: u64)
    requires
        x < spec_modulus(curve),
        sc < spec_modulus(curve),
    ensures
        spec_poly_eval(spec_scale_coeffs(a, sc, curve), x, spec_modulus(curve) as int) == (
        spec_poly_eval(a, x, spec_modulus(curve) as int) * sc) % (spec_modulus(curve) as int),
    decreases a.len(),
{
    lemma_modulus_pos(curve);
    let p = spec_modulus(curve) as int;
    let c = spec_scale_coeffs(a, sc, curve);
    if a.len() == 0 {
        assert(spec_poly_eval(c, x, p) == 0);
        assert((0int * sc) % p == 0) by (nonlinear_arith)
            requires
                p > 1,
        ;
    } else {
        let a1 = a.drop_first();
        lemma_eval_scale_coeffs(a1, sc, curve, x);
        assert(c.drop_first() =~= spec_scale_coeffs(a1, sc, curve));
        let a0 = a[0].value as int;
        let ea1 = spec_poly_eval(a1, x, p);
        let c0 = (a0 * sc) % p;
        let w = x * ((ea1 * sc) % p);
        let z = x * (ea1 * sc);
        assert(spec_poly_eval(c, x, p) == (c0 + w) % p);
        lemma_mul_mod_noop_right(x as int, ea1 * sc, p);
        lemma_add_mod_noop_right(c0, w, p);
        lemma_add_mod_noop_right(c0, z, p);
        assert((c0 + w) % p == (c0 + z) % p);
        lemma_add_mod_noop(a0 * sc, z, p);
        lemma_small_mod((z % p) as nat, p as nat);
        assert((c0 + z % p) % p == ((a0 * sc) % p + (z % p) % p) % p);
        assert((c0 + z) % p == (a0 * sc + z) % p);
        assert(a0 * sc + x * (ea1 * sc) == (a0 + x * ea1) * sc) by (nonlinear_arith);
        lemma_mul_mod_noop_left(a0 + x * ea1, sc as int, p);
    }
}

/// Each partial convolution is reduced.
proof fn lemma_conv_partial_bounds(a: Seq<EccScalar>, b: Seq<EccScalar>, k: int, i: int, p: int)
    requires
        p > 1,
        0 <= i,
    ensures
        0 <= spec_conv_partial(a, b, k, i, p) < p,
    decreases i,
{
    if i > 0 {
        lemma_conv_partial_bounds(a, b, k, i - 1, p);
    }
}

/// The convolution against a two-coefficient factor keeps exactly the
/// two matching terms.
proof fn lemma_conv_partial_linear(a: Seq<EccScalar>, lin: Seq<EccScalar>, k: int, i: int, p: int)
    requires
        p > 1,
        lin.len() == 2,
        0 <= i <= a.len(),
    ensures
        spec_conv_partial(a, lin, k, i, p) == ((if 0 <= k < i {
            (a[k].value * lin[0].value) % p
        } else {
            0
        }) + (if 0 <= k - 1 < i {
            (a[k - 1].value * lin[1].value) % p
        } else {
            0
        })) % p,
    decreases i,
{
    if i > 0 {
        lemma_conv_partial_linear(a, lin, k, i - 1, p);
        lemma_conv_partial_bounds(a, lin, k, i - 1, p);
        let prev = spec_conv_partial(a, lin, k, i - 1, p);
        let t1: int = if 0 <= k - 1 < i {
            (a[k - 1].value * lin[1].value) % p
        } else {
            0
        };
        if i - 1 == k {
            // the term against the constant coefficient enters here;
            // the linear term, if any, is already in the sum
            if 0 <= k - 1 {
                vstd::arithmetic::div_mod::lemma_mod_bound(a[k - 1].value * lin[1].value, p);
            }
            lemma_small_mod(t1 as nat, p as nat);
            assert(prev == t1);
        } else if i - 1 == k - 1 {
            // the term against the linear coefficient enters here;
            // nothing was in the sum yet
            lemma_small_mod(0 as nat, p as nat);
            assert(prev == 0);
        } else {
            // no term of this factor matches: the sum is unchanged
            lemma_small_mod(prev as nat, p as nat);
        }
    } else {
        lemma_small_mod(0 as nat, p as nat);
        assert(spec_conv_partial(a, lin, k, i, p) == 0);
    }
}

/// Evaluating the product with a two-coefficient factor multiplies the
/// evaluations, reduced.
#[verifier::rlimit(60)]
#[verifier::spinoff_prover]
proof fn lemma_eval_mul_linear(a: Seq<EccScalar>, lin: Seq<EccScalar>, curve: EccCurveType, x: u64)
    requires
        x < spec_modulus(curve),
        lin.len() == 2,
        lin[0].value < spec_modulus(curve),
        lin[1].value < spec_modulus(curve),
    ensures
        spec_poly_eval(spec_mul_coeffs(a, lin, curve), x, spec_modulus(curve) as int) == (
        spec_poly_eval(a, x, spec_modulus(curve) as int) * (lin[0].value + x * lin[1].value)) % (
        spec_modulus(curve) as int),
{
    lemma_modulus_pos(curve);
    let p = spec_modulus(curve) as int;
    let l0 = lin[0].value;
    let l1 = lin[1].value;
    let c = spec_mul_coeffs(a, lin, curve);
    let pad = spec_scale_coeffs(a, l0, curve);
    let zero_head = EccScalar { curve, value: 0 };
    let shifted = seq![zero_head] + spec_scale_coeffs(a, l1, curve);
    assert(c =~= spec_add_coeffs(pad, shifted, curve)) by {
        assert forall|k: int| 0 <= k < c.len() implies c[k] == spec_add_coeffs(
            pad,
            shifted,
            curve,
        )[k] by {
            lemma_conv_partial_linear(a, lin, k, a.len() as int, p);
            lemma_conv_partial_bounds(a, lin, k, a.len() as int, p);
            assert(spec_coeff(pad, curve, k).value as int == (if 0 <= k < a.len() {
                (a[k].value * l0) % p
            } else {
                0
            }));
            assert(spec_coeff(shifted, curve, k).value as int == (if 0 <= k - 1 < a.len() {
                (a[k - 1].value * l1) % p
            } else {
                0
            })) by {
                if 1 <= k < shifted.len() {
                    assert(shifted[k] == spec_scale_coeffs(a, l1, curve)[k - 1]);
                }
            }
        }
    }
    lemma_eval_add_coeffs(pad, shifted, curve, x);
    lemma_eval_scale_coeffs(a, l0, curve, x);
    lemma_eval_scale_coeffs(a, l1, curve, x);
    let ea = spec_poly_eval(a, x, p);
    assert(spec_poly_eval(shifted, x, p) == (0 + x * ((ea * l1) % p)) % p) by {
        assert(shifted.drop_first() =~= spec_scale_coeffs(a, l1, curve));
    }
    lemma_mul_mod_noop_right(x as int, ea * l1, p);
    lemma_add_mod_noop_right(0, x * ((ea * l1) % p), p);
    lemma_add_mod_noop_right(0, x * (ea * l1), p);
    assert(spec_poly_eval(shifted, x, p) == (x * (ea * l1)) % p);
    lemma_add_mod_noop(ea * l0, x * (ea * l1), p);
    assert(((ea * l0) % p + (x * (ea * l1)) % p) % p == (ea * l0 + x * (ea * l1)) % p);
    assert(ea * l0 + x * (ea * l1) == ea * (l0 + x * l1)) by (nonlinear_arith);
}

/// Every evaluation is reduced.
proof fn lemma_eval_bounds(s: Seq<EccScalar>, x: u64, p: int)
    requires
        p > 1,
    ensures
        0 <= spec_poly_eval(s, x, p) < p,
{
    if s.len() != 0 {
        vstd::arithmetic::div_mod::lemma_mod_bound(
            s[0].value + x * spec_poly_eval(s.drop_first(), x, p),
            p,
        );
    }
}

/// Once the partial interpolant takes a value at a point where the
/// basis polynomial is zero, every later step preserves both: the
/// basis keeps its root through every scaling and added linear
/// factor, so additions to the interpolant vanish there.
pub proof fn lemma_newton_preserves_point(
    curve: EccCurveType,
    samples: Seq<(EccScalar, EccScalar)>,
    m: int,
    i: int,
    t: u64,
    v: u64,
)
    requires
        1 <= m <= i <= samples.len(),
        t < spec_modulus(curve),
        v < spec_modulus(curve),
        forall|j: int|
            0 <= j < samples.len() ==> (#[trigger] samples[j]).0.wf() && samples[j].1.wf()
                && samples[j].0.curve == curve && samples[j].1.curve == curve,
        spec_poly_eval(spec_newton(curve, samples, m).0, t, spec_modulus(curve) as int) == v,
        spec_poly_eval(spec_newton(curve, samples, m).1, t, spec_modulus(curve) as int) == 0,
    ensures
        spec_poly_eval(spec_newton(curve, samples, i).0, t, spec_modulus(curve) as int) == v,
        spec_poly_eval(spec_newton(curve, samples, i).1, t, spec_modulus(curve) as int) == 0,
    decreases i - m,
{
    lemma_modulus_pos(curve);
    let p = spec_modulus(curve) as int;
    if i > m {
        lemma_newton_preserves_point(curve, samples, m, i - 1, t, v);
        let prev = spec_newton(curve, samples, i - 1);
        let pp = prev.0;
        let bb = prev.1;
        let x = samples[i - 1].0;
        let y = samples[i - 1].1;
        let at_x = spec_poly_eval(pp, x.value, p);
        let base_at_x = spec_poly_eval(bb, x.value, p);
        let inv = crate::scalar::spec_invert(base_at_x as u64, spec_modulus(curve));
        if inv != 0 {
            let diff0 = (y.value + spec_modulus(curve) - at_x) % p;
            let diff = ((diff0 * inv) % p) as u64;
            vstd::arithmetic::div_mod::lemma_mod_bound(diff0 * inv, p);
            let base2 = spec_scale_coeffs(bb, diff, curve);
            lemma_eval_scale_coeffs(bb, diff, curve, t);
            lemma_small_mod(0 as nat, p as nat);
            assert(spec_poly_eval(base2, t, p) == 0) by {
                assert(0int * diff == 0);
            }
            lemma_eval_add_coeffs(pp, base2, curve, t);
            lemma_small_mod(v as nat, p as nat);
            assert(spec_poly_eval(spec_add_coeffs(pp, base2, curve), t, p) == v);
            let lin = seq![
                EccScalar { curve, value: ((spec_modulus(curve) - x.value) % p) as u64 },
                EccScalar { curve, value: 1 },
            ];
            vstd::arithmetic::div_mod::lemma_mod_bound(spec_modulus(curve) - x.value, p);
            lemma_eval_mul_linear(base2, lin, curve, t);
            assert(spec_poly_eval(spec_mul_coeffs(base2, lin, curve), t, p) == 0) by {
                assert(0int * (lin[0].value + t * lin[1].value) == 0);
            }
        }
    }
}

/// Every accepted sample is honored: if the basis polynomial was
/// invertible at a sample's abscissa when that sample was processed,
/// then every later partial interpolant — and so the final result —
/// takes the sample's value at its abscissa. Only repeated abscissae
/// and samples processed after the basis was scaled to zero are
/// dropped.
#[verifier::rlimit(100)]
#[verifier::spinoff_prover]
pub proof fn lemma_newton_honors_accepted_sample(
    curve: EccCurveType,
    samples: Seq<(EccScalar, EccScalar)>,
    j: int,
    i: int,
)
    requires
        1 <= j,
        j + 1 <= i <= samples.len(),
        forall|j2: int|
            0 <= j2 < samples.len() ==> (#[trigger] samples[j2]).0.wf() && samples[j2].1.wf()
                && samples[j2].0.curve == curve && samples[j2].1.curve == curve,
        crate::scalar::spec_invert(
            spec_poly_eval(
                spec_newton(curve, samples, j).1,
                samples[j].0.value,
                spec_modulus(curve) as int,
            ) as u64,
            spec_modulus(curve),
        ) != 0,
    ensures
        spec_poly_eval(
            spec_newton(curve, samples, i).0,
            samples[j].0.value,
            spec_modulus(curve) as int,
        ) == samples[j].1.value,
        spec_poly_eval(
            spec_newton(curve, samples, i).1,
            samples[j].0.value,
            spec_modulus(curve) as int,
        ) == 0,
{
    lemma_modulus_pos(curve);
    let p = spec_modulus(curve) as int;
    let pm = spec_modulus(curve);
    let prev = spec_newton(curve, samples, j);
    let pp = prev.0;
    let bb = prev.1;
    let x = samples[j].0;
    let y = samples[j].1;
    let at_x = spec_poly_eval(pp, x.value, p);
    let base_at_x = spec_poly_eval(bb, x.value, p);
    let inv = crate::scalar::spec_invert(base_at_x as u64, pm);
    lemma_eval_bounds(pp, x.value, p);
    lemma_eval_bounds(bb, x.value, p);
    assert((base_at_x * inv) % p == 1);
    let diff0 = (y.value + pm - at_x) % p;
    let diff = ((diff0 * inv) % p) as u64;
    vstd::arithmetic::div_mod::lemma_mod_bound(diff0 * inv, p);
    vstd::arithmetic::div_mod::lemma_mod_bound(y.value + pm - at_x, p);
    let base2 = spec_scale_coeffs(bb, diff, curve);
    lemma_eval_scale_coeffs(bb, diff, curve, x.value);
    assert(spec_poly_eval(base2, x.value, p) == diff0) by {
        lemma_mul_mod_noop_right(base_at_x, diff0 * inv, p);
        assert(base_at_x * (diff0 * inv) == diff0 * (base_at_x * inv)) by (nonlinear_arith);
        lemma_mul_mod_noop_right(diff0, base_at_x * inv, p);
        lemma_small_mod(1 as nat, p as nat);
        assert((diff0 * ((base_at_x * inv) % p)) % p == (diff0 * 1) % p);
        lemma_small_mod(diff0 as nat, p as nat);
    }
    let poly2 = spec_add_coeffs(pp, base2, curve);
    lemma_eval_add_coeffs(pp, base2, curve, x.value);
    assert(spec_poly_eval(poly2, x.value, p) == y.value) by {
        lemma_add_mod_noop_right(at_x, y.value + pm - at_x, p);
        assert((at_x + diff0) % p == (y.value + pm) % p);
        lemma_add_mod_noop(y.value as int, pm as int, p);
        vstd::arithmetic::div_mod::lemma_mod_self_0(p);
        lemma_small_mod(y.value as nat, p as nat);
        assert((y.value + pm) % p == ((y.value as int) % p + (pm as int) % p) % p);
    }
    let lin = seq![
        EccScalar { curve, value: ((pm - x.value) % p) as u64 },
        EccScalar { curve, value: 1 },
    ];
    vstd::arithmetic::div_mod::lemma_mod_bound(pm - x.value, p);
    lemma_eval_mul_linear(base2, lin, curve, x.value);
    let base3 = spec_mul_coeffs(base2, lin, curve);
    assert(spec_poly_eval(base3, x.value, p) == 0) by {
        vstd::arithmetic::div_mod::lemma_mod_self_0(p);
        if x.value == 0 {
            assert(lin[0].value + x.value * lin[1].value == 0);
            assert((diff0 * 0) % p == 0) by {
                lemma_small_mod(0 as nat, p as nat);
            }
        } else {
            lemma_small_mod((pm - x.value) as nat, p as nat);
            assert(lin[0].value + x.value * lin[1].value == pm);
            lemma_mul_mod_noop_right(diff0, pm as int, p);
            assert((diff0 * ((pm as int) % p)) % p == (diff0 * pm) % p);
            assert((diff0 * 0) % p == 0) by {
                lemma_small_mod(0 as nat, p as nat);
            }
        }
    }
    assert(spec_newton(curve, samples, j + 1) == (poly2, base3));
    lemma_newton_preserves_point(curve, samples, j + 1, i, x.value, y.value);
}

/// The construction always honors the first sample: at every step the
/// partial interpolant takes the value `y_0` at `x_0`, because the
/// basis polynomial keeps its root at `x_0` through every scaling and
/// every added linear factor. Together with `interpolate`'s contract,
/// the returned polynomial always evaluates to the first sample's
/// value at the first sample's abscissa.
pub proof fn lemma_newton_honors_first_sample(
    curve: EccCurveType,
    samples: Seq<(EccScalar, EccScalar)>,
    i: int,
)
    requires
        1 <= i <= samples.len(),
        forall|j: int|
            0 <= j < samples.len() ==> (#[trigger] samples[j]).0.wf() && samples[j].1.wf()
                && samples[j].0.curve == curve && samples[j].1.curve == curve,
    ensures
        spec_poly_eval(
            spec_newton(curve, samples, i).0,
            samples[0].0.value,
            spec_modulus(curve) as int,
        ) == samples[0].1.value,
        spec_poly_eval(
            spec_newton(curve, samples, i).1,
            samples[0].0.value,
            spec_modulus(curve) as int,
        ) == 0,
    decreases i,
{
    lemma_modulus_pos(curve);
    let p = spec_modulus(curve) as int;
    let x0 = samples[0].0.value;
    let y0 = samples[0].1.value;
    if i <= 1 {
        assert(i == 1);
        let st = spec_newton(curve, samples, i);
        assert(st.0 == seq![samples[0].1]);
        assert(st.0.len() == 1);
        assert(st.0[0] == samples[0].1);
        assert(st.0.drop_first() =~= Seq::<EccScalar>::empty());
        assert(spec_poly_eval(Seq::<EccScalar>::empty(), x0, p) == 0);
        assert(x0 * 0 == 0);
        lemma_small_mod(y0 as nat, p as nat);
        assert(spec_poly_eval(st.0, x0, p) == (y0 + x0 * 0) % p);
        assert(spec_poly_eval(st.0, x0, p) == y0);
        let m = ((spec_modulus(curve) - x0) % p) as u64;
        let tail = st.1.drop_first();
        assert(tail =~= seq![EccScalar { curve, value: 1 }]);
        assert(tail.drop_first() =~= Seq::<EccScalar>::empty());
        lemma_small_mod(1 as nat, p as nat);
        assert(spec_poly_eval(tail, x0, p) == 1);
        assert(st.1[0].value == m);
        assert(spec_poly_eval(st.1, x0, p) == (m + x0 * 1) % p);
        vstd::arithmetic::div_mod::lemma_mod_self_0(p);
        if x0 == 0 {
            assert(m == 0);
        } else {
            lemma_small_mod((p - x0) as nat, p as nat);
            assert(m == p - x0);
        }
        assert((m + x0 * 1) % p == 0);
    } else {
        lemma_newton_honors_first_sample(curve, samples, i - 1);
        let prev = spec_newton(curve, samples, i - 1);
        let pp = prev.0;
        let bb = prev.1;
        let x = samples[i - 1].0;
        let y = samples[i - 1].1;
        let at_x = spec_poly_eval(pp, x.value, p);
        let base_at_x = spec_poly_eval(bb, x.value, p);
        let inv = crate::scalar::spec_invert(base_at_x as u64, spec_modulus(curve));
        if inv != 0 {
            let diff0 = (y.value + spec_modulus(curve) - at_x) % p;
            let diff = ((diff0 * inv) % p) as u64;
            vstd::arithmetic::div_mod::lemma_mod_bound(diff0 * inv, p);
            let base2 = spec_scale_coeffs(bb, diff, curve);
            lemma_eval_scale_coeffs(bb, diff, curve, x0);
            lemma_small_mod(0 as nat, p as nat);
            assert(spec_poly_eval(base2, x0, p) == 0) by {
                assert(0int * diff == 0);
            }
            lemma_eval_add_coeffs(pp, base2, curve, x0);
            lemma_small_mod(y0 as nat, p as nat);
            assert(spec_poly_eval(spec_add_coeffs(pp, base2, curve), x0, p) == y0);
            let lin = seq![
                EccScalar { curve, value: ((spec_modulus(curve) - x.value) % p) as u64 },
                EccScalar { curve, value: 1 },
            ];
            vstd::arithmetic::div_mod::lemma_mod_bound(spec_modulus(curve) - x.value, p);
            lemma_eval_mul_linear(base2, lin, curve, x0);
            assert(spec_poly_eval(spec_mul_coeffs(base2, lin, curve), x0, p) == 0) by {
                assert(0int * (lin[0].value + x0 * lin[1].value) == 0);
            }
        }
    }
}

/// A polynomial whose coefficients are scalars of one curve's field.

/// A polynomial whose coefficients are scalars of one curve's field.

/// A polynomial whose coefficients are scalars of one curve's field.

/// A polynomial whose coefficients are scalars of one curve's field.
#[derive(Debug)]
pub struct Polynomial {
    pub curve: EccCurveType,
    pub coefficients: Vec<EccScalar>,
}

impl Clone for Polynomial {
    /// Cloning keeps the curve and the coefficients.
    fn clone(&self) -> (r: Self)
        ensures
            r.curve == self.curve,
            r.coefficients@ == self.coefficients@,
    {
        let mut coefficients: Vec<EccScalar> = Vec::new();
        let n = self.coefficients.len();
        let mut i: usize = 0;
        while i < n
            invariant
                n == self.coefficients@.len(),
                0 <= i <= n,
                coefficients@.len() == i,
                forall|j: int| 0 <= j < i ==> coefficients@[j] == self.coefficients@[j],
            decreases n - i,
        {
            coefficients.push(self.coefficients[i]);
            i += 1;
        }
        proof {
            assert(coefficients@ =~= self.coefficients@);
        }
        Polynomial { curve: self.curve, coefficients }
    }
}

impl Polynomial {
    /// Every coefficient belongs to the polynomial's curve and is
    /// reduced.
    pub open spec fn wf(&self) -> bool {
        forall|i: int|
            0 <= i < self.coefficients@.len() ==> (#[trigger] self.coefficients@[i]).curve
                == self.curve && self.coefficients@[i].wf()
    }

    /// Builds a polynomial from its coefficients. Fails if any
    /// coefficient belongs to another curve.
    pub fn new(curve: EccCurveType, coefficients: Vec<EccScalar>) -> (r: ThresholdEcdsaResult<
        Polynomial,
    >)
        requires
            forall|i: int| 0 <= i < coefficients@.len() ==> (#[trigger] coefficients@[i]).wf(),
        ensures
            (forall|i: int|
                0 <= i < coefficients@.len() ==> (#[trigger] coefficients@[i]).curve == curve)
                ==> (r matches Ok(p) && p == (Polynomial { curve, coefficients })),
            (exists|i: int|
                0 <= i < coefficients@.len() && (#[trigger] coefficients@[i]).curve != curve) ==> r
                == Err::<Polynomial, ThresholdEcdsaError>(ThresholdEcdsaError::CurveMismatch),
            r matches Ok(p) ==> p.wf() && p.curve == curve && p.coefficients@ == coefficients@,
    {
        let n = coefficients.len();
        let mut i: usize = 0;
        while i < n
            invariant
                n == coefficients@.len(),
                0 <= i <= n,
                forall|j: int| 0 <= j < i ==> (#[trigger] coefficients@[j]).curve == curve,
            decreases n - i,
        {
            if coefficients[i].curve_type() != curve {
                return Err(ThresholdEcdsaError::CurveMismatch);
            }
            i += 1;
        }
        Ok(Polynomial { curve, coefficients })
    }

    /// The polynomial with constant value zero: no coefficients.
    pub fn zero(curve: EccCurveType) -> (r: ThresholdEcdsaResult<Polynomial>)
        ensures
            r matches Ok(p) && p.curve == curve && p.coefficients@.len() == 0 && p.wf(),
    {
        Self::new(curve, Vec::new())
    }

    /// A polynomial of the given degree with uniformly drawn
    /// coefficients.
    pub fn random(curve: EccCurveType, degree: usize) -> (r: ThresholdEcdsaResult<Polynomial>)
        requires
            degree < usize::MAX,
        ensures
            r matches Ok(p) && p.curve == curve && p.coefficients@.len() == degree + 1 && p.wf(),
    {
        let mut coefficients: Vec<EccScalar> = Vec::new();
        let mut i: usize = 0;
        while i < degree + 1
            invariant
                degree < usize::MAX,
                0 <= i <= degree + 1,
                coefficients@.len() == i,
                forall|j: int|
                    0 <= j < i ==> (#[trigger] coefficients@[j]).curve == curve
                        && coefficients@[j].wf(),
            decreases degree + 1 - i,
        {
            coefficients.push(EccScalar::random(curve));
            i += 1;
        }
        Self::new(curve, coefficients)
    }

    /// A polynomial of the given degree whose constant term is fixed
    /// and whose other coefficients are uniformly drawn: secret-shares
    /// the constant.
    pub fn random_with_constant(constant: EccScalar, degree: usize) -> (r: ThresholdEcdsaResult<
        Polynomial,
    >)
        requires
            constant.wf(),
            degree < usize::MAX,
        ensures
            r matches Ok(p) && p.curve == constant.curve && p.coefficients@.len() == degree + 1
                && p.coefficients@[0] == constant && p.wf(),
    {
        let curve = constant.curve_type();
        let mut coefficients: Vec<EccScalar> = Vec::new();
        coefficients.push(constant);
        let mut i: usize = 1;
        while i < degree + 1
            invariant
                degree < usize::MAX,
                1 <= i <= degree + 1,
                coefficients@.len() == i,
                coefficients@[0] == constant,
                curve == constant.curve,
                forall|j: int|
                    0 <= j < i ==> (#[trigger] coefficients@[j]).curve == curve
                        && coefficients@[j].wf(),
            decreases degree + 1 - i,
        {
            coefficients.push(EccScalar::random(curve));
            i += 1;
        }
        Self::new(curve, coefficients)
    }

    /// The curve whose scalars this polynomial is made of.
    pub fn curve_type(&self) -> (r: EccCurveType)
        ensures
            r == self.curve,
    {
        self.curve
    }

    /// The coefficient at an index, zero past the stored ones.
    fn coeff(&self, idx: usize) -> (r: EccScalar)
        ensures
            r == spec_coeff(self.coefficients@, self.curve, idx as int),
    {
        if idx < self.coefficients.len() {
            self.coefficients[idx]
        } else {
            EccScalar::zero(self.curve)
        }
    }

    /// The coefficients with trailing zeros stripped.
    pub fn non_zero_coefficients(&self) -> (r: Vec<EccScalar>)
        ensures
            r@ == self.coefficients@.take(spec_trimmed_len(self.coefficients@)),
    {
        let n = self.coefficients.len();
        let mut len: usize = n;
        proof {
            assert(self.coefficients@.take(n as int) =~= self.coefficients@);
        }
        while len > 0 && self.coefficients[len - 1].is_zero()
            invariant
                0 <= len <= n,
                n == self.coefficients@.len(),
                spec_trimmed_len(self.coefficients@.take(len as int)) == spec_trimmed_len(
                    self.coefficients@,
                ),
            decreases len,
        {
            proof {
                assert(self.coefficients@.take(len as int).drop_last() =~= self.coefficients@.take(
                    len as int - 1,
                ));
            }
            len -= 1;
        }
        proof {
            if len > 0 {
                assert(spec_trimmed_len(self.coefficients@.take(len as int)) == len as int);
            }
        }
        let mut out: Vec<EccScalar> = Vec::new();
        let mut i: usize = 0;
        while i < len
            invariant
                0 <= i <= len <= self.coefficients@.len(),
                out@.len() == i,
                forall|j: int| 0 <= j < i ==> out@[j] == self.coefficients@[j],
            decreases len - i,
        {
            out.push(self.coefficients[i]);
            i += 1;
        }
        proof {
            assert(out@ =~= self.coefficients@.take(spec_trimmed_len(self.coefficients@)));
        }
        out
    }

    /// Pointwise polynomial addition. Fails if the curves differ.
    fn add(&self, rhs: &Polynomial) -> (r: ThresholdEcdsaResult<Polynomial>)
        requires
            self.wf(),
            rhs.wf(),
        ensures
            self.curve != rhs.curve ==> r == Err::<Polynomial, ThresholdEcdsaError>(
                ThresholdEcdsaError::CurveMismatch,
            ),
            self.curve == rhs.curve ==> (r matches Ok(out) && out.curve == self.curve && out.wf()
                && out.coefficients@ == spec_add_coeffs(
                self.coefficients@,
                rhs.coefficients@,
                self.curve,
            )),
    {
        if self.curve_type() != rhs.curve_type() {
            return Err(ThresholdEcdsaError::CurveMismatch);
        }
        let max_coef = if self.coefficients.len() >= rhs.coefficients.len() {
            self.coefficients.len()
        } else {
            rhs.coefficients.len()
        };
        let mut res: Vec<EccScalar> = Vec::new();
        let mut idx: usize = 0;
        while idx < max_coef
            invariant
                self.wf(),
                rhs.wf(),
                self.curve == rhs.curve,
                0 <= idx <= max_coef,
                res@.len() == idx,
                max_coef == (if self.coefficients@.len() >= rhs.coefficients@.len() {
                    self.coefficients@.len()
                } else {
                    rhs.coefficients@.len()
                }),
                forall|i: int|
                    0 <= i < idx ==> (#[trigger] res@[i]).curve == self.curve && res@[i].wf()
                        && res@[i].value == (spec_coeff(self.coefficients@, self.curve, i).value
                        + spec_coeff(rhs.coefficients@, self.curve, i).value) % (spec_modulus(
                        self.curve,
                    ) as int),
            decreases max_coef - idx,
        {
            let x = self.coeff(idx);
            let y = rhs.coeff(idx);
            let sum = match x.add(&y) {
                Ok(v) => v,
                Err(_) => {
                    proof {
                        assert(false);
                    }
                    EccScalar::zero(self.curve)
                },
            };
            res.push(sum);
            idx += 1;
        }
        proof {
            assert(res@ =~= spec_add_coeffs(self.coefficients@, rhs.coefficients@, self.curve));
        }
        let out = Polynomial { curve: self.curve, coefficients: res };
        Ok(out)
    }

    /// Polynomial multiplication: the coefficient at `k` of the
    /// product is the convolution of the factors at `k`. Fails if the
    /// curves differ.
    fn mul(&self, rhs: &Polynomial) -> (r: ThresholdEcdsaResult<Polynomial>)
        requires
            self.wf(),
            rhs.wf(),
            self.coefficients@.len() + rhs.coefficients@.len() >= 1,
            self.coefficients@.len() + rhs.coefficients@.len() <= usize::MAX,
        ensures
            self.curve != rhs.curve ==> r == Err::<Polynomial, ThresholdEcdsaError>(
                ThresholdEcdsaError::CurveMismatch,
            ),
            self.curve == rhs.curve ==> (r matches Ok(out) && out.curve == self.curve && out.wf()
                && out.coefficients@ == spec_mul_coeffs(
                self.coefficients@,
                rhs.coefficients@,
                self.curve,
            )),
    {
        if self.curve_type() != rhs.curve_type() {
            return Err(ThresholdEcdsaError::CurveMismatch);
        }
        let p = EccScalar::modulus(self.curve);
        let n_coeffs = self.coefficients.len() + rhs.coefficients.len() - 1;
        let mut coeffs: Vec<EccScalar> = Vec::new();
        let mut k: usize = 0;
        while k < n_coeffs
            invariant
                self.wf(),
                rhs.wf(),
                self.curve == rhs.curve,
                p == spec_modulus(self.curve),
                p > 1,
                n_coeffs == self.coefficients@.len() + rhs.coefficients@.len() - 1,
                0 <= k <= n_coeffs,
                coeffs@.len() == k,
                forall|k2: int|
                    0 <= k2 < k ==> (#[trigger] coeffs@[k2]).curve == self.curve && coeffs@[k2].wf()
                        && coeffs@[k2].value == spec_conv(
                        self.coefficients@,
                        rhs.coefficients@,
                        k2,
                        p as int,
                    ),
            decreases n_coeffs - k,
        {
            let mut acc: u64 = 0;
            let mut i: usize = 0;
            let a_len = self.coefficients.len();
            let b_len = rhs.coefficients.len();
            while i < a_len
                invariant
                    self.wf(),
                    rhs.wf(),
                    p == spec_modulus(self.curve),
                    p > 1,
                    a_len == self.coefficients@.len(),
                    b_len == rhs.coefficients@.len(),
                    0 <= i <= a_len,
                    acc < p,
                    acc == spec_conv_partial(
                        self.coefficients@,
                        rhs.coefficients@,
                        k as int,
                        i as int,
                        p as int,
                    ),
                decreases a_len - i,
            {
                if k >= i && k - i < b_len {
                    let term = crate::scalar::mul_mod(
                        self.coefficients[i].value,
                        rhs.coefficients[k - i].value,
                        p,
                    );
                    acc = (((acc as u128) + (term as u128)) % (p as u128)) as u64;
                } else {
                    proof {
                        lemma_small_mod(acc as nat, p as nat);
                    }
                }
                i += 1;
            }
            coeffs.push(EccScalar { curve: self.curve, value: acc });
            k += 1;
        }
        proof {
            assert(coeffs@ =~= spec_mul_coeffs(self.coefficients@, rhs.coefficients@, self.curve));
        }
        Ok(Polynomial { curve: self.curve, coefficients: coeffs })
    }

    /// Multiplication by a scalar, coefficient by coefficient. Fails
    /// if the curves differ.
    fn mul_scalar(&self, scalar: &EccScalar) -> (r: ThresholdEcdsaResult<Polynomial>)
        requires
            self.wf(),
            scalar.wf(),
        ensures
            self.curve != scalar.curve ==> r == Err::<Polynomial, ThresholdEcdsaError>(
                ThresholdEcdsaError::CurveMismatch,
            ),
            self.curve == scalar.curve ==> (r matches Ok(out) && out.curve == self.curve
                && out.wf() && out.coefficients@ == spec_scale_coeffs(
                self.coefficients@,
                scalar.value,
                self.curve,
            )),
    {
        if self.curve_type() != scalar.curve_type() {
            return Err(ThresholdEcdsaError::CurveMismatch);
        }
        let n_coeffs = self.coefficients.len();
        let mut coeffs: Vec<EccScalar> = Vec::new();
        let mut i: usize = 0;
        while i < n_coeffs
            invariant
                self.wf(),
                scalar.wf(),
                self.curve == scalar.curve,
                n_coeffs == self.coefficients@.len(),
                0 <= i <= n_coeffs,
                coeffs@.len() == i,
                forall|j: int|
                    0 <= j < i ==> (#[trigger] coeffs@[j]).curve == self.curve && coeffs@[j].wf()
                        && coeffs@[j].value == (self.coefficients@[j].value * scalar.value) % (
                        spec_modulus(self.curve) as int),
            decreases n_coeffs - i,
        {
            let prod = match self.coefficients[i].mul(scalar) {
                Ok(v) => v,
                Err(_) => {
                    proof {
                        assert(false);
                    }
                    EccScalar::zero(self.curve)
                },
            };
            coeffs.push(prod);
            i += 1;
        }
        proof {
            assert(coeffs@ =~= spec_scale_coeffs(self.coefficients@, scalar.value, self.curve));
        }
        Ok(Polynomial { curve: self.curve, coefficients: coeffs })
    }

    /// The value of the polynomial at `x`, by Horner's method. Fails
    /// if `x` belongs to another curve.
    pub fn evaluate_at(&self, x: &EccScalar) -> (r: ThresholdEcdsaResult<EccScalar>)
        requires
            self.wf(),
            x.wf(),
        ensures
            self.curve != x.curve ==> r == Err::<EccScalar, ThresholdEcdsaError>(
                ThresholdEcdsaError::CurveMismatch,
            ),
            self.curve == x.curve ==> (r matches Ok(s) && s.curve == self.curve && s.wf()
                && s.value == spec_poly_eval(
                self.coefficients@,
                x.value,
                spec_modulus(self.curve) as int,
            )),
    {
        if self.curve_type() != x.curve_type() {
            return Err(ThresholdEcdsaError::CurveMismatch);
        }
        let ghost p = spec_modulus(self.curve) as int;
        let n = self.coefficients.len();
        if n == 0 {
            return Ok(EccScalar::zero(self.curve));
        }
        let mut ans = self.coefficients[n - 1];
        proof {
            let tail = self.coefficients@.skip(n - 1);
            assert(tail.len() == 1);
            assert(tail[0] == self.coefficients@[n - 1]);
            assert(tail.drop_first() =~= Seq::<EccScalar>::empty());
            assert(spec_poly_eval(tail.drop_first(), x.value, p) == 0);
            assert(x.value * 0 == 0);
            lemma_small_mod(ans.value as nat, spec_modulus(self.curve) as nat);
            assert(spec_poly_eval(tail, x.value, p) == (tail[0].value + x.value * 0) % p);
        }
        let mut j: usize = n - 1;
        while j > 0
            invariant
                self.wf(),
                x.wf(),
                self.curve == x.curve,
                p == spec_modulus(self.curve) as int,
                n == self.coefficients@.len(),
                0 <= j < n,
                ans.curve == self.curve,
                ans.wf(),
                ans.value == spec_poly_eval(self.coefficients@.skip(j as int), x.value, p),
            decreases j,
        {
            j -= 1;
            let ghost prev = ans.value;
            let prod = match ans.mul(x) {
                Ok(v) => v,
                Err(_) => {
                    proof {
                        assert(false);
                    }
                    EccScalar::zero(self.curve)
                },
            };
            ans = match prod.add(&self.coefficients[j]) {
                Ok(v) => v,
                Err(_) => {
                    proof {
                        assert(false);
                    }
                    EccScalar::zero(self.curve)
                },
            };
            proof {
                let c = self.coefficients@[j as int].value;
                assert(self.coefficients@.skip(j as int).drop_first() =~= self.coefficients@.skip(
                    j as int + 1,
                ));
                lemma_small_mod(c as nat, spec_modulus(self.curve) as nat);
                lemma_add_mod_noop((prev * x.value) as int, c as int, p);
                assert(ans.value == (c + x.value * prev) % p);
            }
        }
        proof {
            assert(self.coefficients@.skip(0) =~= self.coefficients@);
        }
        Ok(ans)
    }

    /// The polynomial built by the incremental Newton-style
    /// construction `spec_newton`, which the contract pins exactly. A
    /// sample is silently skipped when the basis polynomial evaluates
    /// to zero at its abscissa: on a repeated x-coordinate, and on
    /// every sample after one that already lay on the partial
    /// interpolant (such a sample scales the basis to zero). With
    /// pairwise distinct abscissae and no such coincidence the result
    /// is the unique polynomial of degree below the sample count
    /// through all samples; the first sample is honored in every case
    /// (`lemma_newton_honors_first_sample`).
    pub fn interpolate(curve: EccCurveType, samples: &Vec<(EccScalar, EccScalar)>) -> (r:
        ThresholdEcdsaResult<Polynomial>)
        requires
            forall|i: int|
                0 <= i < samples@.len() ==> (#[trigger] samples@[i]).0.wf() && samples@[i].1.wf(),
            samples@.len() + 2 <= usize::MAX,
        ensures
            samples@.len() == 0 ==> (r matches Ok(p) && p.curve == curve && p.coefficients@.len()
                == 0),
            (exists|i: int|
                0 <= i < samples@.len() && ((#[trigger] samples@[i]).0.curve != curve
                    || samples@[i].1.curve != curve)) ==> r == Err::<
                Polynomial,
                ThresholdEcdsaError,
            >(ThresholdEcdsaError::CurveMismatch),
            (forall|i: int|
                0 <= i < samples@.len() ==> (#[trigger] samples@[i]).0.curve == curve
                    && samples@[i].1.curve == curve) ==> (r matches Ok(p) && p.curve == curve
                && p.wf() && p.coefficients@.len() <= samples@.len() && (samples@.len() > 0
                ==> p.coefficients@ == spec_newton(curve, samples@, samples@.len() as int).0)),
    {
        let n = samples.len();
        if n == 0 {
            return Self::zero(curve);
        }
        // check the curves of all samples up front; the constructions
        // below then cannot fail
        let mut c: usize = 0;
        while c < n
            invariant
                n == samples@.len(),
                0 <= c <= n,
                forall|i: int|
                    0 <= i < c ==> (#[trigger] samples@[i]).0.curve == curve && samples@[i].1.curve
                        == curve,
            decreases n - c,
        {
            if samples[c].0.curve_type() != curve || samples[c].1.curve_type() != curve {
                return Err(ThresholdEcdsaError::CurveMismatch);
            }
            c += 1;
        }
        let one = EccScalar::one(curve);
        let mut poly_coeffs: Vec<EccScalar> = Vec::new();
        poly_coeffs.push(samples[0].1);
        let mut poly = Polynomial { curve, coefficients: poly_coeffs };
        let minus_s0 = samples[0].0.negate();
        let mut base_coeffs: Vec<EccScalar> = Vec::new();
        base_coeffs.push(minus_s0);
        base_coeffs.push(one);
        let mut base = Polynomial { curve, coefficients: base_coeffs };
        proof {
            assert(poly.coefficients@ =~= spec_newton(curve, samples@, 1).0);
            assert(base.coefficients@ =~= spec_newton(curve, samples@, 1).1);
        }
        let mut idx: usize = 1;
        while idx < n
            invariant
                n == samples@.len(),
                n + 2 <= usize::MAX,
                1 <= idx <= n,
                one == (EccScalar { curve, value: 1 }),
                forall|i: int|
                    0 <= i < n ==> (#[trigger] samples@[i]).0.wf() && samples@[i].1.wf()
                        && samples@[i].0.curve == curve && samples@[i].1.curve == curve,
                poly.curve == curve,
                base.curve == curve,
                poly.wf(),
                base.wf(),
                poly.coefficients@.len() < base.coefficients@.len(),
                base.coefficients@.len() <= idx + 1,
                poly.coefficients@ == spec_newton(curve, samples@, idx as int).0,
                base.coefficients@ == spec_newton(curve, samples@, idx as int).1,
            decreases n - idx,
        {
            let ghost pp = poly.coefficients@;
            let ghost bb = base.coefficients@;
            let ghost p = spec_modulus(curve) as int;
            let x = samples[idx].0;
            let y = samples[idx].1;
            let at_x = match poly.evaluate_at(&x) {
                Ok(v) => v,
                Err(_) => {
                    proof {
                        assert(false);
                    }
                    EccScalar::zero(curve)
                },
            };
            let mut diff = match y.sub(&at_x) {
                Ok(v) => v,
                Err(_) => {
                    proof {
                        assert(false);
                    }
                    EccScalar::zero(curve)
                },
            };
            let base_at_x = match base.evaluate_at(&x) {
                Ok(v) => v,
                Err(_) => {
                    proof {
                        assert(false);
                    }
                    EccScalar::zero(curve)
                },
            };
            let inv = base_at_x.invert();
            proof {
                assert(spec_newton(curve, samples@, idx as int) == (pp, bb));
                assert(base_at_x.value as int == spec_poly_eval(bb, x.value, p));
                assert(inv.value == crate::scalar::spec_invert(
                    base_at_x.value,
                    spec_modulus(curve),
                ));
            }
            if !inv.is_zero() {
                let ghost d0 = diff.value;
                diff = match diff.mul(&inv) {
                    Ok(v) => v,
                    Err(_) => {
                        proof {
                            assert(false);
                        }
                        EccScalar::zero(curve)
                    },
                };
                base = match base.mul_scalar(&diff) {
                    Ok(v) => v,
                    Err(_) => {
                        proof {
                            assert(false);
                        }
                        base
                    },
                };
                let ghost b2 = base.coefficients@;
                poly = match poly.add(&base) {
                    Ok(v) => v,
                    Err(_) => {
                        proof {
                            assert(false);
                        }
                        poly
                    },
                };
                let neg_x = x.negate();
                let mut lin_coeffs: Vec<EccScalar> = Vec::new();
                lin_coeffs.push(neg_x);
                lin_coeffs.push(one);
                let lin = Polynomial { curve, coefficients: lin_coeffs };
                proof {
                    assert forall|i2: int| 0 <= i2 < lin.coefficients@.len() implies (
                    #[trigger] lin.coefficients@[i2]).curve == lin.curve
                        && lin.coefficients@[i2].wf() by {
                        assert(lin.coefficients@.len() == 2);
                        if i2 == 0 {
                            assert(lin.coefficients@[0] == neg_x);
                        } else {
                            assert(lin.coefficients@[1] == one);
                        }
                    }
                }
                base = match base.mul(&lin) {
                    Ok(v) => v,
                    Err(_) => {
                        proof {
                            assert(false);
                        }
                        base
                    },
                };
                proof {
                    // one step of the construction, matched piece by
                    // piece against the recurrence
                    let st = spec_newton(curve, samples@, idx as int + 1);
                    assert(d0 == (y.value + spec_modulus(curve) - spec_poly_eval(
                        pp,
                        x.value,
                        p,
                    )) % p);
                    assert(b2 == spec_scale_coeffs(bb, diff.value, curve));
                    assert(poly.coefficients@ == spec_add_coeffs(pp, b2, curve));
                    assert(lin.coefficients@ =~= seq![
                        EccScalar {
                            curve,
                            value: ((spec_modulus(curve) - x.value) % p) as u64,
                        },
                        EccScalar { curve, value: 1 },
                    ]);
                    assert(base.coefficients@ == spec_mul_coeffs(b2, lin.coefficients@, curve));
                    assert(st.0 == poly.coefficients@);
                    assert(st.1 == base.coefficients@);
                }
            } else {
                proof {
                    let st = spec_newton(curve, samples@, idx as int + 1);
                    assert(st == (pp, bb));
                }
            }
            idx += 1;
        }
        Ok(poly)
    }
}

impl PartialEq for Polynomial {
    /// Two polynomials are equal when their curves match and their
    /// coefficients agree, trailing zeros ignored.
    fn eq(&self, other: &Polynomial) -> (r: bool) {
        if self.curve_type() != other.curve_type() {
            return false;
        }
        let max_coef = if self.coefficients.len() >= other.coefficients.len() {
            self.coefficients.len()
        } else {
            other.coefficients.len()
        };
        let mut i: usize = 0;
        while i < max_coef
            invariant
                self.curve == other.curve,
                0 <= i <= max_coef,
                max_coef == (if self.coefficients@.len() >= other.coefficients@.len() {
                    self.coefficients@.len()
                } else {
                    other.coefficients@.len()
                }),
                forall|j: int|
                    0 <= j < i ==> spec_coeff(self.coefficients@, self.curve, j) == spec_coeff(
                        other.coefficients@,
                        other.curve,
                        j,
                    ),
            decreases max_coef - i,
        {
            let a = self.coeff(i);
            let b = other.coeff(i);
            if a != b {
                return false;
            }
            i += 1;
        }
        true
    }
}

impl Eq for Polynomial {

}

impl vstd::std_specs::cmp::PartialEqSpecImpl for Polynomial {
    open spec fn obeys_eq_spec() -> bool {
        true
    }

    open spec fn eq_spec(&self, other: &Polynomial) -> bool {
        &&& self.curve == other.curve
        &&& forall|j: int|
            0 <= j < (if self.coefficients@.len() >= other.coefficients@.len() {
                self.coefficients@.len()
            } else {
                other.coefficients@.len()
            }) ==> spec_coeff(self.coefficients@, self.curve, j) == spec_coeff(
                other.coefficients@,
                other.curve,
                j,
            )
    }
}

} // verus!
