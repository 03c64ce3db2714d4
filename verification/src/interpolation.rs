//! Correctness of Lagrange interpolation at zero.
//!
//! The round-trip law for Shamir sharing rests on the interpolation
//! theorem: over the field, evaluating the Lagrange combination of a
//! polynomial's values at distinct points recovers the polynomial's value
//! at zero. This module builds the required polynomial algebra over
//! coefficient sequences of residues — sums, scalings, products of linear
//! factors, and synthetic division — and derives the theorem from them.
//!
//! Inverses enter only through explicit hypotheses of the form
//! `fmul(d, finv_p(d)) == 1` for the pairwise differences of the
//! evaluation points; callers discharge them with `fe_inv` and
//! `lemma_finv_unique`, or inherit them from `shamir_round_trip`'s own
//! derivation for distinct points.

use vstd::prelude::*;
use crate::field::{
    fadd, fmul, fp, fsub, fe_val, fe_wf, finv_p, lemma_fadd_absorb, lemma_field_range,
    lemma_field_units, lemma_finv_unique, lemma_fmul_absorb, lemma_fmul_assoc, lemma_fmul_comm,
    lemma_fp_bounds, lemma_fsub_absorb, lemma_mod_noop_small,
};
use crate::secret_sharing::{
    poly_eval, shamir_den, shamir_den_prefix, shamir_num, shamir_num_prefix, shamir_x,
    ShamirShare,
};

verus! {

/// Coefficient `k` of a polynomial, reading past the end as zero.
pub open spec fn pget(a: Seq<int>, k: int) -> int {
    if 0 <= k < a.len() {
        a[k]
    } else {
        0
    }
}

/// All but the constant coefficient; the empty polynomial stays empty.
pub open spec fn pdrop(a: Seq<int>) -> Seq<int> {
    if a.len() == 0 {
        a
    } else {
        a.drop_first()
    }
}

/// Evaluation can always be unfolded one Horner step, reading an absent
/// constant coefficient as zero.
proof fn lemma_eval_unfold(a: Seq<int>, x: int)
    ensures
        poly_eval(a, x) == fadd(pget(a, 0), fmul(x, poly_eval(pdrop(a), x))),
{
    lemma_fp_bounds();
    if a.len() == 0 {
        lemma_field_units(x);
        lemma_field_units(0);
        lemma_mod_noop_small(0);
    }
}

/// Pointwise field sum of two polynomials.
pub open spec fn padd(a: Seq<int>, b: Seq<int>) -> Seq<int> {
    Seq::new(
        if a.len() >= b.len() {
            a.len()
        } else {
            b.len()
        },
        |k: int| fadd(pget(a, k), pget(b, k)),
    )
}

/// Pointwise field difference of two polynomials.
pub open spec fn psub(a: Seq<int>, b: Seq<int>) -> Seq<int> {
    Seq::new(
        if a.len() >= b.len() {
            a.len()
        } else {
            b.len()
        },
        |k: int| fsub(pget(a, k), pget(b, k)),
    )
}

/// Scaling of a polynomial by a residue.
pub open spec fn pscale(c: int, a: Seq<int>) -> Seq<int> {
    Seq::new(a.len(), |k: int| fmul(c, pget(a, k)))
}

/// Multiplication by the indeterminate: a zero constant term in front.
pub open spec fn pshift(a: Seq<int>) -> Seq<int> {
    Seq::new(a.len() + 1, |k: int| pget(a, k - 1))
}

/// Sums of field sums regroup: `(p - q) + (u - v) == (p + u) - (q + v)`
/// and the plain grouped forms, all modulo `fp()`.
proof fn lemma_fadd_of_sums(p: int, q: int, u: int, v: int)
    ensures
        fadd(fadd(p, q), fadd(u, v)) == fadd(fadd(p, u), fadd(q, v)),
        fadd(fsub(p, q), fsub(u, v)) == fsub(fadd(p, u), fadd(q, v)),
{
    lemma_fadd_absorb(p + q, u + v);
    lemma_fadd_absorb(p + q, (u + v) % fp());
    lemma_fadd_absorb(p + u, q + v);
    lemma_fadd_absorb(p + u, (q + v) % fp());
    lemma_fadd_absorb(p - q, u - v);
    lemma_fadd_absorb(p - q, (u - v) % fp());
    lemma_fsub_absorb(p + u, q + v);
    lemma_fsub_absorb(p + u, (q + v) % fp());
}

/// Evaluation is additive.
proof fn lemma_eval_padd(a: Seq<int>, b: Seq<int>, x: int)
    ensures
        poly_eval(padd(a, b), x) == fadd(poly_eval(a, x), poly_eval(b, x)),
    decreases a.len() + b.len(),
{
    lemma_fp_bounds();
    let s = padd(a, b);
    if s.len() == 0 {
        lemma_field_units(0);
        lemma_mod_noop_small(0);
    } else {
        assert(pdrop(s) =~= padd(pdrop(a), pdrop(b)));
        lemma_eval_padd(pdrop(a), pdrop(b), x);
        lemma_eval_unfold(a, x);
        lemma_eval_unfold(b, x);
        lemma_eval_unfold(s, x);
        let ra = poly_eval(pdrop(a), x);
        let rb = poly_eval(pdrop(b), x);
        // x * (ra + rb) == x*ra + x*rb
        assert(fmul(x, fadd(ra, rb)) == fadd(fmul(x, ra), fmul(x, rb))) by {
            crate::field::lemma_fmul_distrib(x, ra, rb);
        }
        lemma_fadd_of_sums(pget(a, 0), fmul(x, ra), pget(b, 0), fmul(x, rb));
        // The new constant coefficient is already a field sum.
        assert(fadd(fadd(pget(a, 0), pget(b, 0)), fmul(x, fadd(ra, rb))) == fadd(
            pget(s, 0),
            fmul(x, poly_eval(pdrop(s), x)),
        ));
    }
}

/// Evaluation respects subtraction.
proof fn lemma_eval_psub(a: Seq<int>, b: Seq<int>, x: int)
    ensures
        poly_eval(psub(a, b), x) == fsub(poly_eval(a, x), poly_eval(b, x)),
    decreases a.len() + b.len(),
{
    lemma_fp_bounds();
    let s = psub(a, b);
    if s.len() == 0 {
        lemma_fsub_absorb(0, 0);
        lemma_mod_noop_small(0);
    } else {
        assert(pdrop(s) =~= psub(pdrop(a), pdrop(b)));
        lemma_eval_psub(pdrop(a), pdrop(b), x);
        lemma_eval_unfold(a, x);
        lemma_eval_unfold(b, x);
        lemma_eval_unfold(s, x);
        let ra = poly_eval(pdrop(a), x);
        let rb = poly_eval(pdrop(b), x);
        // x * (ra - rb) == x*ra - x*rb
        assert(fmul(x, fsub(ra, rb)) == fsub(fmul(x, ra), fmul(x, rb))) by {
            lemma_fmul_absorb(x, ra - rb);
            lemma_fsub_absorb(x * ra, x * rb);
            lemma_fsub_absorb(x * ra, (x * rb) % fp());
            assert(x * (ra - rb) == x * ra - x * rb) by (nonlinear_arith);
        }
        lemma_fadd_of_sums(pget(a, 0), pget(b, 0), fmul(x, ra), fmul(x, rb));
    }
}

/// Evaluation respects scaling.
proof fn lemma_eval_pscale(c: int, a: Seq<int>, x: int)
    ensures
        poly_eval(pscale(c, a), x) == fmul(c, poly_eval(a, x)),
    decreases a.len(),
{
    lemma_fp_bounds();
    let s = pscale(c, a);
    if a.len() == 0 {
        lemma_field_units(c);
    } else {
        assert(pdrop(s) =~= pscale(c, pdrop(a)));
        lemma_eval_pscale(c, pdrop(a), x);
        lemma_eval_unfold(a, x);
        lemma_eval_unfold(s, x);
        let ra = poly_eval(pdrop(a), x);
        // c*(a0 + x*ra) == c*a0 + x*(c*ra)
        assert(fmul(c, fadd(pget(a, 0), fmul(x, ra))) == fadd(
            fmul(c, pget(a, 0)),
            fmul(x, fmul(c, ra)),
        )) by {
            crate::field::lemma_fmul_distrib(c, pget(a, 0), fmul(x, ra));
            lemma_fmul_assoc(c, x, ra);
            lemma_fmul_comm(c, x);
            lemma_fmul_assoc(x, c, ra);
        }
    }
}

/// Evaluation after a shift multiplies by the point.
proof fn lemma_eval_pshift(a: Seq<int>, x: int)
    ensures
        poly_eval(pshift(a), x) == fmul(x, poly_eval(a, x)),
{
    lemma_fp_bounds();
    let s = pshift(a);
    assert(s.len() >= 1);
    assert(pdrop(s) =~= a);
    lemma_eval_unfold(s, x);
    // 0 + x*r == x*r, and products are reduced.
    lemma_field_range(x, poly_eval(a, x));
    lemma_field_units(fmul(x, poly_eval(a, x)));
    lemma_mod_noop_small(fmul(x, poly_eval(a, x)));
}

/// Left fold of the factors `x - roots[j]` for `j < k`.
pub open spec fn fold_diff(roots: Seq<int>, x: int, k: int) -> int
    decreases k,
{
    if k <= 0 {
        1
    } else {
        fmul(fold_diff(roots, x, k - 1), fsub(x, roots[k - 1]))
    }
}

/// The monic polynomial with the given roots, as coefficients.
pub open spec fn prod_linear(roots: Seq<int>) -> Seq<int>
    decreases roots.len(),
{
    if roots.len() == 0 {
        seq![1int]
    } else {
        let q = prod_linear(roots.drop_last());
        padd(pshift(q), pscale(fsub(0, roots.last()), q))
    }
}

/// The root polynomial has one more coefficient than it has roots.
proof fn lemma_prod_linear_len(roots: Seq<int>)
    ensures
        prod_linear(roots).len() == roots.len() + 1,
    decreases roots.len(),
{
    if roots.len() > 0 {
        lemma_prod_linear_len(roots.drop_last());
    }
}

/// Multiplying out one linear factor: `(x - r) * v == x*v + (0 - r)*v`.
proof fn lemma_linear_factor(x: int, r: int, v: int)
    ensures
        fmul(fsub(x, r), v) == fadd(fmul(x, v), fmul(fsub(0, r), v)),
{
    lemma_fp_bounds();
    lemma_fmul_absorb(x - r, v);
    lemma_fmul_absorb(0 - r, v);
    lemma_fadd_absorb(x * v, (0 - r) * v);
    lemma_fadd_absorb(x * v, ((0 - r) * v) % fp());
    assert((x - r) * v == x * v + (0 - r) * v) by (nonlinear_arith);
}

/// A fold only reads the prefix it covers.
proof fn lemma_fold_diff_agree(r1: Seq<int>, r2: Seq<int>, x: int, k: int)
    requires
        0 <= k <= r1.len(),
        k <= r2.len(),
        forall|j: int| 0 <= j < k ==> r1[j] == r2[j],
    ensures
        fold_diff(r1, x, k) == fold_diff(r2, x, k),
    decreases k,
{
    if k > 0 {
        lemma_fold_diff_agree(r1, r2, x, k - 1);
    }
}

/// Evaluating the root polynomial folds the differences.
proof fn lemma_eval_prod_linear(roots: Seq<int>, x: int)
    ensures
        poly_eval(prod_linear(roots), x) == fold_diff(roots, x, roots.len() as int),
    decreases roots.len(),
{
    lemma_fp_bounds();
    if roots.len() == 0 {
        // eval([1], x) == 1
        assert(prod_linear(roots) =~= seq![1int]);
        assert(poly_eval(seq![1int].drop_first(), x) == 0) by {
            assert(seq![1int].drop_first() =~= Seq::<int>::empty());
        }
        lemma_field_units(x);
        lemma_field_units(1);
        lemma_mod_noop_small(1);
    } else {
        let front = roots.drop_last();
        let r = roots.last();
        let q = prod_linear(front);
        lemma_eval_prod_linear(front, x);
        lemma_eval_padd(pshift(q), pscale(fsub(0, r), q), x);
        lemma_eval_pshift(q, x);
        lemma_eval_pscale(fsub(0, r), q, x);
        let v = poly_eval(q, x);
        // (x - r) * v == x*v + (0-r)*v, with the scalar on either side.
        lemma_linear_factor(x, r, v);
        lemma_fmul_comm(fsub(0, r), v);
        // The fold appends its factor on the right.
        lemma_fold_diff_agree(front, roots, x, front.len() as int);
        lemma_fmul_comm(fold_diff(roots, x, roots.len() - 1), fsub(x, r));
        lemma_fmul_comm(fsub(x, r), v);
    }
}

/// A fold with a vanishing factor vanishes.
proof fn lemma_fold_diff_zero(roots: Seq<int>, x: int, t: int, k: int)
    requires
        0 <= t < k <= roots.len(),
        fsub(x, roots[t]) == 0,
    ensures
        fold_diff(roots, x, k) == 0,
    decreases k,
{
    lemma_fp_bounds();
    if k - 1 == t {
        lemma_field_units(fold_diff(roots, x, k - 1));
    } else {
        lemma_fold_diff_zero(roots, x, t, k - 1);
        lemma_field_units(fsub(x, roots[k - 1]));
    }
}

/// A fold of invertible factors is invertible.
proof fn lemma_fold_diff_invertible(roots: Seq<int>, x: int, k: int)
    requires
        0 <= k <= roots.len(),
        forall|j: int|
            0 <= j < k ==> fmul(
                fsub(x, roots[j]),
                finv_p(#[trigger] fsub(x, roots[j])),
            ) == 1,
    ensures
        fmul(fold_diff(roots, x, k), finv_p(fold_diff(roots, x, k))) == 1,
    decreases k,
{
    lemma_fp_bounds();
    if k <= 0 {
        lemma_finv_one_local();
    } else {
        lemma_fold_diff_invertible(roots, x, k - 1);
        let a = fold_diff(roots, x, k - 1);
        let b = fsub(x, roots[k - 1]);
        let u = finv_p(a);
        let v = finv_p(b);
        // (a*b) * (u*v) == (a*u) * (b*v) == 1
        assert(fmul(fmul(a, b), fmul(u, v)) == fmul(fmul(a, u), fmul(b, v))) by {
            lemma_fmul_assoc(fmul(a, b), u, v);
            lemma_fmul_assoc(a, b, u);
            lemma_fmul_comm(b, u);
            lemma_fmul_assoc(a, u, b);
            lemma_fmul_assoc(fmul(a, u), b, v);
        }
        assert(fmul(1, 1) == 1) by {
            lemma_field_units(1);
            lemma_mod_noop_small(1);
        }
        lemma_field_range(u, v);
        lemma_finv_unique(fmul(a, b), fmul(u, v));
    }
}

/// The quotient of a polynomial by the linear factor `X - r`: coefficient
/// `k` is the evaluation at `r` of the part above degree `k`.
pub open spec fn quot_linear(b: Seq<int>, r: int) -> Seq<int> {
    Seq::new(
        if b.len() == 0 {
            0
        } else {
            (b.len() - 1) as nat
        },
        |k: int| poly_eval(b.skip(k + 1), r),
    )
}

/// Division with remainder by a linear factor:
/// `b(x) == (x - r) * q(x) + b(r)`.
proof fn lemma_eval_division(b: Seq<int>, r: int, x: int)
    ensures
        poly_eval(b, x) == fadd(
            fmul(fsub(x, r), poly_eval(quot_linear(b, r), x)),
            poly_eval(b, r),
        ),
    decreases b.len(),
{
    lemma_fp_bounds();
    let q = quot_linear(b, r);
    if b.len() <= 1 {
        assert(q =~= Seq::<int>::empty());
        lemma_field_units(fsub(x, r));
        if b.len() == 1 {
            assert(b.drop_first() =~= Seq::<int>::empty());
        }
        crate::secret_sharing::lemma_poly_eval_range(b, r);
        lemma_field_units(poly_eval(b, r));
        lemma_mod_noop_small(poly_eval(b, r));
    } else {
        let bb = b.drop_first();
        let qb = quot_linear(bb, r);
        lemma_eval_division(bb, r, x);
        assert(b.skip(1) =~= bb);
        assert(pdrop(q) =~= qb) by {
            assert forall|k: int| 0 <= k < qb.len() implies pdrop(q)[k] == qb[k] by {
                assert(b.skip(k + 2) =~= bb.skip(k + 1));
            }
            assert(pdrop(q).len() == qb.len());
        }
        let b0 = pget(b, 0);
        let brr = poly_eval(bb, r);
        let qbx = poly_eval(qb, x);
        lemma_eval_unfold(b, x);
        lemma_eval_unfold(b, r);
        assert(poly_eval(q, x) == fadd(brr, fmul(x, qbx))) by {
            lemma_eval_unfold(q, x);
        }
        // Both sides reduce to the same raw expression modulo fp().
        assert(fadd(b0, fmul(x, fadd(fmul(fsub(x, r), qbx), brr))) == fadd(
            fmul(fsub(x, r), fadd(brr, fmul(x, qbx))),
            fadd(b0, fmul(r, brr)),
        )) by {
            lemma_fmul_absorb(x - r, qbx);
            lemma_fadd_absorb((x - r) * qbx, brr);
            lemma_fmul_absorb(x, (x - r) * qbx + brr);
            lemma_fadd_absorb(b0, x * ((x - r) * qbx + brr));
            lemma_fadd_absorb(brr, x * qbx);
            lemma_fmul_absorb(x - r, brr + x * qbx);
            lemma_fmul_absorb((x - r) % fp(), brr + x * qbx);
            lemma_fadd_absorb(b0, r * brr);
            lemma_fadd_absorb((x - r) * (brr + x * qbx), b0 + r * brr);
            lemma_fadd_absorb((x - r) * (brr + x * qbx), (b0 + r * brr) % fp());
            assert(b0 + x * ((x - r) * qbx + brr) == (x - r) * (brr + x * qbx) + (b0 + r * brr))
                by (nonlinear_arith);
        }
    }
}

/// A polynomial bounded in degree by its number of distinct roots, with
/// invertible pairwise root differences, also vanishes at zero.
proof fn lemma_vanishing(b: Seq<int>, pts: Seq<int>)
    requires
        b.len() <= pts.len(),
        forall|j: int| 0 <= j < pts.len() ==> #[trigger] poly_eval(b, pts[j]) == 0,
        forall|i: int, j: int|
            0 <= i < pts.len() && 0 <= j < pts.len() && i != j ==> fmul(
                fsub(pts[i], pts[j]),
                finv_p(#[trigger] fsub(pts[i], pts[j])),
            ) == 1,
    ensures
        poly_eval(b, 0) == 0,
    decreases b.len(),
{
    lemma_fp_bounds();
    if b.len() > 0 {
        let r = pts[0];
        let q = quot_linear(b, r);
        assert(poly_eval(b, r) == 0);
        // b(x) == (x - r) * q(x) everywhere.
        assert forall|x: int| #[trigger] poly_eval(b, x) == fmul(fsub(x, r), poly_eval(q, x)) by {
            lemma_eval_division(b, r, x);
            lemma_field_range(fsub(x, r), poly_eval(q, x));
            lemma_field_units(fmul(fsub(x, r), poly_eval(q, x)));
            lemma_mod_noop_small(fmul(fsub(x, r), poly_eval(q, x)));
        }
        let rest = pts.drop_first();
        assert forall|j: int| 0 <= j < rest.len() implies #[trigger] poly_eval(q, rest[j])
            == 0 by {
            let d = fsub(rest[j], r);
            let e = poly_eval(q, rest[j]);
            assert(rest[j] == pts[j + 1]);
            assert(fmul(d, finv_p(d)) == 1) by {
                assert(fmul(fsub(pts[j + 1], pts[0]), finv_p(fsub(pts[j + 1], pts[0]))) == 1);
            }
            assert(poly_eval(b, pts[j + 1]) == 0);
            assert(poly_eval(b, rest[j]) == fmul(fsub(rest[j], r), poly_eval(q, rest[j])));
            assert(fmul(d, e) == 0);
            // Multiply by the inverse of d.
            assert(fmul(finv_p(d), fmul(d, e)) == fmul(fmul(finv_p(d), d), e)) by {
                lemma_fmul_assoc(finv_p(d), d, e);
            }
            lemma_fmul_comm(finv_p(d), d);
            assert(fmul(finv_p(d), 0) == 0) by {
                lemma_field_units(finv_p(d));
            }
            assert(fmul(1, e) == e) by {
                lemma_field_units(e);
                crate::secret_sharing::lemma_poly_eval_range(q, rest[j]);
                lemma_mod_noop_small(e);
            }
        }
        assert forall|i: int, j: int|
            0 <= i < rest.len() && 0 <= j < rest.len() && i != j implies fmul(
            fsub(rest[i], rest[j]),
            finv_p(#[trigger] fsub(rest[i], rest[j])),
        ) == 1 by {
            assert(rest[i] == pts[i + 1] && rest[j] == pts[j + 1]);
            assert(fmul(fsub(pts[i + 1], pts[j + 1]), finv_p(fsub(pts[i + 1], pts[j + 1])))
                == 1);
        }
        lemma_vanishing(q, rest);
        assert(poly_eval(b, 0) == fmul(fsub(0, r), poly_eval(q, 0)));
        lemma_field_units(fsub(0, r));
    }
}

/// The inverse of one, locally.
proof fn lemma_finv_one_local()
    ensures
        fmul(1, finv_p(1)) == 1,
{
    crate::field::lemma_finv_one();
    lemma_fp_bounds();
    lemma_field_units(1);
    lemma_mod_noop_small(1);
}

// ---------------------------------------------------------------------------
// The Lagrange interpolant of a share sequence.
// ---------------------------------------------------------------------------

/// The evaluation points of all shares but share `i`, in order.
pub open spec fn xs_excl(sh: Seq<ShamirShare>, i: int) -> Seq<int> {
    Seq::new(
        (sh.len() - 1) as nat,
        |j: int|
            if j < i {
                shamir_x(sh[j])
            } else {
                shamir_x(sh[j + 1])
            },
    )
}

/// The Lagrange coefficient of share `i`: its value over its denominator.
pub open spec fn lag_coef(sh: Seq<ShamirShare>, i: int) -> int {
    fmul(fe_val(sh[i].value), finv_p(shamir_den(sh, i)))
}

/// The interpolant through the first `k` shares, as coefficients.
pub open spec fn lag_poly(sh: Seq<ShamirShare>, k: int) -> Seq<int>
    decreases k,
{
    if k <= 0 {
        Seq::<int>::empty()
    } else {
        padd(lag_poly(sh, k - 1), pscale(lag_coef(sh, k - 1), prod_linear(xs_excl(sh, k - 1))))
    }
}

/// The interpolant's value at `x`, as the fold its evaluation produces.
pub open spec fn lag_sum(sh: Seq<ShamirShare>, k: int, x: int) -> int
    decreases k,
{
    if k <= 0 {
        0
    } else {
        fadd(
            lag_sum(sh, k - 1, x),
            fmul(lag_coef(sh, k - 1), fold_diff(xs_excl(sh, k - 1), x, sh.len() - 1)),
        )
    }
}

/// The fold of the differences to all points but `i`, in point order.
spec fn excl_fold(sh: Seq<ShamirShare>, i: int, x: int, k: int) -> int
    decreases k,
{
    if k <= 0 {
        1
    } else if k - 1 == i {
        excl_fold(sh, i, x, k - 1)
    } else {
        fmul(excl_fold(sh, i, x, k - 1), fsub(x, shamir_x(sh[k - 1])))
    }
}

/// At `x_i` the exclusion fold is the Lagrange denominator fold.
proof fn lemma_excl_fold_den(sh: Seq<ShamirShare>, i: int, k: int)
    ensures
        excl_fold(sh, i, shamir_x(sh[i]), k) == shamir_den_prefix(sh, i, k),
    decreases k,
{
    if k > 0 {
        lemma_excl_fold_den(sh, i, k - 1);
    }
}

/// At zero the exclusion fold is the Lagrange numerator fold.
proof fn lemma_excl_fold_num(sh: Seq<ShamirShare>, i: int, k: int)
    ensures
        excl_fold(sh, i, 0, k) == shamir_num_prefix(sh, i, k),
    decreases k,
{
    if k > 0 {
        lemma_excl_fold_num(sh, i, k - 1);
    }
}

/// Folding over the punctured point list is the exclusion fold over the
/// full list.
proof fn lemma_fold_excl(sh: Seq<ShamirShare>, i: int, x: int, k: int)
    requires
        0 <= i < sh.len(),
        0 <= k <= sh.len() - 1,
    ensures
        fold_diff(xs_excl(sh, i), x, k) == excl_fold(
            sh,
            i,
            x,
            if k <= i {
                k
            } else {
                k + 1
            },
        ),
    decreases k,
{
    if k > 0 {
        lemma_fold_excl(sh, i, x, k - 1);
        if k - 1 < i {
            assert(xs_excl(sh, i)[k - 1] == shamir_x(sh[k - 1]));
            assert(excl_fold(sh, i, x, k) == fmul(
                excl_fold(sh, i, x, k - 1),
                fsub(x, shamir_x(sh[k - 1])),
            ));
        } else if k - 1 == i {
            assert(xs_excl(sh, i)[k - 1] == shamir_x(sh[k]));
            assert(excl_fold(sh, i, x, k) == excl_fold(sh, i, x, k - 1));
            assert(excl_fold(sh, i, x, k + 1) == fmul(
                excl_fold(sh, i, x, k),
                fsub(x, shamir_x(sh[k])),
            ));
        } else {
            assert(xs_excl(sh, i)[k - 1] == shamir_x(sh[k]));
            assert(excl_fold(sh, i, x, k + 1) == fmul(
                excl_fold(sh, i, x, k),
                fsub(x, shamir_x(sh[k])),
            ));
        }
    }
}

/// The full punctured fold equals the denominator at `x_i`, the numerator
/// at zero.
proof fn lemma_fold_excl_den_num(sh: Seq<ShamirShare>, i: int)
    requires
        0 <= i < sh.len(),
    ensures
        fold_diff(xs_excl(sh, i), shamir_x(sh[i]), sh.len() - 1) == shamir_den(sh, i),
        fold_diff(xs_excl(sh, i), 0, sh.len() - 1) == shamir_num(sh, i),
{
    lemma_fold_excl(sh, i, shamir_x(sh[i]), sh.len() - 1);
    lemma_fold_excl(sh, i, 0, sh.len() - 1);
    lemma_excl_fold_den(sh, i, sh.len() as int);
    lemma_excl_fold_num(sh, i, sh.len() as int);
    if sh.len() - 1 <= i {
        // i is the last share; the exclusion fold already stops before it.
        lemma_excl_fold_den(sh, i, sh.len() - 1);
        lemma_excl_fold_num(sh, i, sh.len() - 1);
        assert(shamir_den_prefix(sh, i, sh.len() as int) == shamir_den_prefix(
            sh,
            i,
            sh.len() - 1,
        ));
        assert(shamir_num_prefix(sh, i, sh.len() as int) == shamir_num_prefix(
            sh,
            i,
            sh.len() - 1,
        ));
    }
}

/// The interpolant through `k` shares has as many coefficients as there
/// are shares, once any share is included.
proof fn lemma_lag_poly_len(sh: Seq<ShamirShare>, k: int)
    requires
        sh.len() >= 1,
        0 <= k <= sh.len(),
    ensures
        lag_poly(sh, k).len() == if k == 0 {
            0int
        } else {
            sh.len() as int
        },
    decreases k,
{
    if k > 0 {
        lemma_lag_poly_len(sh, k - 1);
        lemma_prod_linear_len(xs_excl(sh, k - 1));
    }
}

/// Evaluating the interpolant folds the weighted punctured products.
proof fn lemma_lag_eval(sh: Seq<ShamirShare>, k: int, x: int)
    requires
        sh.len() >= 1,
        0 <= k <= sh.len(),
    ensures
        poly_eval(lag_poly(sh, k), x) == lag_sum(sh, k, x),
    decreases k,
{
    lemma_fp_bounds();
    if k == 0 {
        lemma_field_units(0);
        lemma_mod_noop_small(0);
    } else {
        lemma_lag_eval(sh, k - 1, x);
        let b = prod_linear(xs_excl(sh, k - 1));
        lemma_eval_padd(lag_poly(sh, k - 1), pscale(lag_coef(sh, k - 1), b), x);
        lemma_eval_pscale(lag_coef(sh, k - 1), b, x);
        lemma_eval_prod_linear(xs_excl(sh, k - 1), x);
        assert(xs_excl(sh, k - 1).len() == sh.len() - 1);
    }
}

/// All pairwise differences of the shares' evaluation points have the
/// inverses that `finv_p` names.
pub open spec fn diffs_invertible(sh: Seq<ShamirShare>) -> bool {
    forall|a: int, b: int|
        0 <= a < sh.len() && 0 <= b < sh.len() && a != b ==> fmul(
            fsub(shamir_x(sh[a]), shamir_x(sh[b])),
            finv_p(#[trigger] fsub(shamir_x(sh[a]), shamir_x(sh[b]))),
        ) == 1
}

/// The interpolant takes each share's value at that share's point.
proof fn lemma_lag_sum_at_point(sh: Seq<ShamirShare>, j: int, k: int)
    requires
        sh.len() >= 1,
        0 <= j < sh.len(),
        0 <= k <= sh.len(),
        forall|i: int| 0 <= i < sh.len() ==> fe_wf(#[trigger] sh[i].value),
        diffs_invertible(sh),
    ensures
        lag_sum(sh, k, shamir_x(sh[j])) == if k <= j {
            0int
        } else {
            fe_val(sh[j].value)
        },
    decreases k,
{
    lemma_fp_bounds();
    lemma_mod_noop_small(0);
    let x = shamir_x(sh[j]);
    let m = sh.len() as int;
    if k > 0 {
        lemma_lag_sum_at_point(sh, j, k - 1);
        let i = k - 1;
        let acc = lag_sum(sh, i, x);
        if i != j {
            let t = if j < i {
                j
            } else {
                j - 1
            };
            assert(xs_excl(sh, i)[t] == x);
            assert(fsub(x, x) == 0);
            lemma_fold_diff_zero(xs_excl(sh, i), x, t, m - 1);
            lemma_field_units(lag_coef(sh, i));
            lemma_field_units(acc);
            if k - 1 <= j {
                lemma_mod_noop_small(0);
            } else {
                lemma_mod_noop_small(fe_val(sh[j].value));
            }
        } else {
            // The own term: weight times denominator collapses to the value.
            lemma_fold_excl_den_num(sh, j);
            let den = shamir_den(sh, j);
            let u = finv_p(den);
            let y = fe_val(sh[j].value);
            assert(fmul(den, u) == 1) by {
                assert forall|t: int|
                    0 <= t < m - 1 implies fmul(
                    fsub(x, xs_excl(sh, j)[t]),
                    finv_p(#[trigger] fsub(x, xs_excl(sh, j)[t])),
                ) == 1 by {
                    let o = if t < j {
                        t
                    } else {
                        t + 1
                    };
                    assert(xs_excl(sh, j)[t] == shamir_x(sh[o]));
                    assert(fmul(
                        fsub(shamir_x(sh[j]), shamir_x(sh[o])),
                        finv_p(fsub(shamir_x(sh[j]), shamir_x(sh[o]))),
                    ) == 1);
                }
                lemma_fold_diff_invertible(xs_excl(sh, j), x, m - 1);
            }
            assert(fmul(fmul(y, u), den) == y) by {
                lemma_fmul_assoc(y, u, den);
                lemma_fmul_comm(u, den);
                lemma_field_units(y);
                lemma_mod_noop_small(y);
            }
            lemma_field_units(fmul(lag_coef(sh, i), fold_diff(xs_excl(sh, i), x, m - 1)));
            lemma_mod_noop_small(y);
        }
    }
}

/// At zero the interpolant's value is the reconstruction fold.
proof fn lemma_lag_sum_at_zero(sh: Seq<ShamirShare>, k: int)
    requires
        sh.len() >= 1,
        0 <= k <= sh.len(),
    ensures
        lag_sum(sh, k, 0) == crate::secret_sharing::shamir_combine_prefix(sh, k),
    decreases k,
{
    if k > 0 {
        lemma_lag_sum_at_zero(sh, k - 1);
        let i = k - 1;
        lemma_fold_excl_den_num(sh, i);
        let y = fe_val(sh[i].value);
        let u = finv_p(shamir_den(sh, i));
        let n = shamir_num(sh, i);
        assert(fmul(fmul(y, u), n) == fmul(fmul(y, n), u)) by {
            lemma_fmul_assoc(y, u, n);
            lemma_fmul_comm(u, n);
            lemma_fmul_assoc(y, n, u);
        }
    }
}

/// Two reduced residues with vanishing difference are equal.
proof fn lemma_fsub_zero_equal(a: int, b: int)
    requires
        0 <= a < fp(),
        0 <= b < fp(),
        fsub(a, b) == 0,
    ensures
        a == b,
{
    lemma_fp_bounds();
    if a >= b {
        lemma_mod_noop_small(a - b);
    } else {
        vstd::arithmetic::div_mod::lemma_fundamental_div_mod_converse(
            a - b,
            fp(),
            -1,
            a - b + fp(),
        );
    }
}

/// Interpolation at zero recovers the constant term: reconstructing from
/// any sequence of at least `coeffs.len()` shares whose points are
/// distinct and whose values lie on the polynomial `coeffs` yields the
/// polynomial's constant term.
///
/// The inverse hypotheses are facts of the field; executable callers
/// obtain them for concrete shares from `fe_inv` and `lemma_finv_unique`.
pub proof fn shamir_interpolation(sh: Seq<ShamirShare>, coeffs: Seq<int>)
    requires
        sh.len() >= 1,
        1 <= coeffs.len() <= sh.len(),
        forall|k: int| 0 <= k < coeffs.len() ==> 0 <= #[trigger] coeffs[k] < fp(),
        forall|i: int| 0 <= i < sh.len() ==> fe_wf(#[trigger] sh[i].value),
        forall|i: int|
            0 <= i < sh.len() ==> fe_val(#[trigger] sh[i].value) == poly_eval(
                coeffs,
                shamir_x(sh[i]),
            ),
        diffs_invertible(sh),
    ensures
        crate::secret_sharing::shamir_reconstruct(sh) == Ok::<int, crate::secret_sharing::SecretSharingError>(coeffs[0]),
{
    lemma_fp_bounds();
    let m = sh.len() as int;
    let lag = lag_poly(sh, m);
    let diff = psub(coeffs, lag);
    lemma_lag_poly_len(sh, m);
    assert(diff.len() == m);
    // Denominators are invertible, hence nonzero, for every share.
    assert forall|i: int| 0 <= i < m implies #[trigger] shamir_den(sh, i) != 0 by {
        lemma_den_invertible(sh, i);
        if shamir_den(sh, i) == 0 {
            lemma_field_units(finv_p(0));
        }
    }
    // The difference of the shared polynomial and the interpolant vanishes
    // at every evaluation point.
    let pts = Seq::new(sh.len(), |i: int| shamir_x(sh[i]));
    assert forall|j: int| 0 <= j < pts.len() implies #[trigger] poly_eval(diff, pts[j]) == 0 by {
        lemma_eval_psub(coeffs, lag, pts[j]);
        lemma_lag_eval(sh, m, pts[j]);
        lemma_lag_sum_at_point(sh, j, m);
        assert(pts[j] == shamir_x(sh[j]));
        assert(poly_eval(coeffs, pts[j]) == fe_val(sh[j].value));
        assert(fsub(fe_val(sh[j].value), fe_val(sh[j].value)) == 0) by {
            lemma_mod_noop_small(0);
        }
    }
    assert forall|a: int, b: int|
        0 <= a < pts.len() && 0 <= b < pts.len() && a != b implies fmul(
        fsub(pts[a], pts[b]),
        finv_p(#[trigger] fsub(pts[a], pts[b])),
    ) == 1 by {
        assert(pts[a] == shamir_x(sh[a]) && pts[b] == shamir_x(sh[b]));
        assert(fmul(
            fsub(shamir_x(sh[a]), shamir_x(sh[b])),
            finv_p(fsub(shamir_x(sh[a]), shamir_x(sh[b]))),
        ) == 1);
    }
    lemma_vanishing(diff, pts);
    // Vanishing at zero makes the values at zero agree.
    lemma_eval_psub(coeffs, lag, 0);
    lemma_lag_eval(sh, m, 0);
    lemma_lag_sum_at_zero(sh, m);
    let combine = crate::secret_sharing::shamir_combine_prefix(sh, m);
    assert(poly_eval(coeffs, 0) == coeffs[0]) by {
        lemma_eval_unfold(coeffs, 0);
        lemma_field_units(poly_eval(pdrop(coeffs), 0));
        lemma_field_units(coeffs[0]);
        lemma_mod_noop_small(coeffs[0]);
    }
    assert(combine == fadd(
        crate::secret_sharing::shamir_combine_prefix(sh, m - 1),
        crate::secret_sharing::shamir_term(sh, m - 1),
    ));
    lemma_field_range(
        crate::secret_sharing::shamir_combine_prefix(sh, m - 1),
        crate::secret_sharing::shamir_term(sh, m - 1),
    );
    lemma_fsub_zero_equal(coeffs[0], combine);
}

/// Each share's Lagrange denominator is invertible when the pairwise
/// differences are.
proof fn lemma_den_invertible(sh: Seq<ShamirShare>, i: int)
    requires
        0 <= i < sh.len(),
        diffs_invertible(sh),
    ensures
        fmul(shamir_den(sh, i), finv_p(shamir_den(sh, i))) == 1,
{
    let m = sh.len() as int;
    let x = shamir_x(sh[i]);
    assert forall|t: int|
        0 <= t < m - 1 implies fmul(
        fsub(x, xs_excl(sh, i)[t]),
        finv_p(#[trigger] fsub(x, xs_excl(sh, i)[t])),
    ) == 1 by {
        let o = if t < i {
            t
        } else {
            t + 1
        };
        assert(xs_excl(sh, i)[t] == shamir_x(sh[o]));
        assert(fmul(
            fsub(shamir_x(sh[i]), shamir_x(sh[o])),
            finv_p(fsub(shamir_x(sh[i]), shamir_x(sh[o]))),
        ) == 1);
    }
    lemma_fold_diff_invertible(xs_excl(sh, i), x, m - 1);
    lemma_fold_excl_den_num(sh, i);
}

} // verus!
