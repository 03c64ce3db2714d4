//! Algebraic laws of the sharing schemes, stated over their models.
//!
//! These are the library's guarantees about whole sharings rather than
//! single calls: round trips, the effect of omitting a share, and the
//! linearity of reconstruction under the share algebra of the gates. Each
//! law is stated over the spec models that the schemes' contracts use
//! (`shares_post`, `reconstruct_spec`), so it composes directly with the
//! contracts of `share_secret`, the gates, and `reconstruct_secret`.

use vstd::prelude::*;
use vstd::arithmetic::div_mod::lemma_fundamental_div_mod_converse;
use crate::interpolation::{diffs_invertible, shamir_interpolation};
use crate::field::{
    fadd, fmul, fp, fsub, fe_val, fe_wf, finv_p, lemma_fadd_fsub_swap, lemma_fadd_shuffle4,
    lemma_field_range, lemma_field_units, lemma_finv_one, lemma_fmul_comm, lemma_fmul_distrib,
    lemma_fmul_shuffle4, lemma_fp_bounds, lemma_fsub_fadd_cancel, lemma_mod_noop_small,
};
use crate::secret_sharing::{
    additive_reconstruct, additive_shares_post, additive_sum_prefix, lemma_additive_prefix_grow,
    poly_eval, shamir_combine_prefix, shamir_den, shamir_den_prefix, shamir_num,
    shamir_num_prefix, shamir_poly_fits, shamir_x, shamir_reconstruct, shamir_shares_post, shamir_term,
    AdditiveShare, SecretSharingError, ShamirShare,
};

verus! {

// ---------------------------------------------------------------------------
// Additive sharing.
// ---------------------------------------------------------------------------

/// Prefix sums of share values are reduced residues.
proof fn lemma_additive_prefix_range(sh: Seq<AdditiveShare>, k: int)
    ensures
        0 <= additive_sum_prefix(sh, k) < fp(),
    decreases k,
{
    lemma_fp_bounds();
    if k > 0 {
        lemma_additive_prefix_range(sh, k - 1);
        lemma_field_range(additive_sum_prefix(sh, k - 1), fe_val(sh[k - 1].value));
    }
}

/// Additive round trip: reconstructing from all shares of a fresh additive
/// sharing yields the secret, for every party count of at least one.
pub proof fn additive_round_trip(sh: Seq<AdditiveShare>, secret: int, num_parties: int)
    requires
        num_parties >= 1,
        additive_shares_post(secret, num_parties, sh),
    ensures
        additive_reconstruct(sh) == Ok::<int, SecretSharingError>(secret),
{
}

/// Removing share `k` leaves the `k`-prefix sums alone and subtracts its
/// value from the longer ones.
proof fn lemma_additive_sum_remove_prefix(sh: Seq<AdditiveShare>, k: int, m: int)
    requires
        0 <= k < sh.len(),
        k < m <= sh.len(),
    ensures
        additive_sum_prefix(sh.remove(k), m - 1) == fsub(
            additive_sum_prefix(sh, m),
            fe_val(sh[k].value),
        ),
    decreases m,
{
    let s = sh.remove(k);
    if m == k + 1 {
        lemma_additive_prefix_grow(s, sh, k);
        lemma_fsub_fadd_cancel(additive_sum_prefix(sh, k), fe_val(sh[k].value));
        lemma_additive_prefix_range(sh, k);
        lemma_mod_noop_small(additive_sum_prefix(sh, k));
    } else {
        lemma_additive_sum_remove_prefix(sh, k, m - 1);
        assert(s[m - 2] == sh[m - 1]);
        lemma_fadd_fsub_swap(
            additive_sum_prefix(sh, m - 1),
            fe_val(sh[m - 1].value),
            fe_val(sh[k].value),
        );
    }
}

/// Additive completeness: reconstructing with any one share omitted
/// succeeds and yields the secret minus the omitted value — silently a
/// wrong value whenever that share's value is nonzero.
pub proof fn additive_omission(sh: Seq<AdditiveShare>, secret: int, num_parties: int, k: int)
    requires
        num_parties >= 2,
        additive_shares_post(secret, num_parties, sh),
        forall|i: int| 0 <= i < sh.len() ==> fe_wf(#[trigger] sh[i].value),
        0 <= k < sh.len(),
    ensures
        additive_reconstruct(sh.remove(k)) == Ok::<int, SecretSharingError>(
            fsub(secret, fe_val(sh[k].value)),
        ),
        fe_val(sh[k].value) != 0 ==> fsub(secret, fe_val(sh[k].value)) != secret,
{
    lemma_additive_sum_remove_prefix(sh, k, sh.len() as int);
    lemma_additive_prefix_range(sh, sh.len() as int);
    let v = fe_val(sh[k].value);
    if v != 0 {
        if secret - v >= 0 {
            lemma_mod_noop_small(secret - v);
        } else {
            lemma_fp_bounds();
            lemma_fundamental_div_mod_converse(secret - v, fp(), -1, secret - v + fp());
        }
    }
}

/// Scaling every share value scales the prefix sums.
proof fn lemma_additive_sum_scaled_prefix(
    sh: Seq<AdditiveShare>,
    t: Seq<AdditiveShare>,
    c: int,
    m: int,
)
    requires
        t.len() == sh.len(),
        forall|i: int|
            0 <= i < t.len() ==> fe_val(#[trigger] t[i].value) == fmul(fe_val(sh[i].value), c),
        0 <= m <= sh.len(),
    ensures
        additive_sum_prefix(t, m) == fmul(additive_sum_prefix(sh, m), c),
    decreases m,
{
    if m <= 0 {
        lemma_field_units(c);
    } else {
        lemma_additive_sum_scaled_prefix(sh, t, c, m - 1);
        let s = additive_sum_prefix(sh, m - 1);
        let v = fe_val(sh[m - 1].value);
        lemma_fmul_comm(fadd(s, v), c);
        lemma_fmul_distrib(c, s, v);
        lemma_fmul_comm(s, c);
        lemma_fmul_comm(v, c);
    }
}

/// Scalar multiplication under additive sharing: scaling every share of a
/// fresh sharing of `secret` by `c` makes full reconstruction yield
/// `secret * c`.
pub proof fn additive_scalar_mul_reveal(
    sh: Seq<AdditiveShare>,
    t: Seq<AdditiveShare>,
    secret: int,
    num_parties: int,
    c: int,
)
    requires
        num_parties >= 1,
        additive_shares_post(secret, num_parties, sh),
        t.len() == sh.len(),
        forall|i: int|
            0 <= i < t.len() ==> fe_val(#[trigger] t[i].value) == fmul(fe_val(sh[i].value), c),
    ensures
        additive_reconstruct(t) == Ok::<int, SecretSharingError>(fmul(secret, c)),
{
    lemma_additive_sum_scaled_prefix(sh, t, c, sh.len() as int);
}

// ---------------------------------------------------------------------------
// Shamir sharing.
// ---------------------------------------------------------------------------

/// Lagrange numerators and denominators depend only on the evaluation
/// points, not on the share values.
proof fn lemma_shamir_weights_same(q: Seq<ShamirShare>, t: Seq<ShamirShare>, i: int, k: int)
    requires
        t.len() == q.len(),
        forall|j: int| 0 <= j < q.len() ==> (#[trigger] t[j]).index == q[j].index,
        0 <= i < q.len(),
        0 <= k <= q.len(),
    ensures
        shamir_num_prefix(t, i, k) == shamir_num_prefix(q, i, k),
        shamir_den_prefix(t, i, k) == shamir_den_prefix(q, i, k),
    decreases k,
{
    if k > 0 {
        lemma_shamir_weights_same(q, t, i, k - 1);
    }
}

/// Reconstruction from a single share yields that share's value: with one
/// point the Lagrange weight is one.
pub proof fn shamir_single_share_reveal(s: ShamirShare)
    requires
        fe_wf(s.value),
    ensures
        shamir_reconstruct(seq![s]) == Ok::<int, SecretSharingError>(fe_val(s.value)),
{
    let sh = seq![s];
    assert(sh.len() == 1);
    assert(shamir_den(sh, 0) == 1) by {
        assert(shamir_den_prefix(sh, 0, 1) == shamir_den_prefix(sh, 0, 0));
    }
    assert(shamir_num(sh, 0) == 1) by {
        assert(shamir_num_prefix(sh, 0, 1) == shamir_num_prefix(sh, 0, 0));
    }
    lemma_finv_one();
    let v = fe_val(s.value);
    lemma_field_units(v);
    lemma_mod_noop_small(v);
    assert(shamir_term(sh, 0) == fmul(fmul(v, 1), 1));
    assert(fmul(v, 1) == v);
    assert(shamir_combine_prefix(sh, 0) == 0);
    assert(shamir_combine_prefix(sh, 1) == fadd(0, v));
    assert(forall|i: int| 0 <= i < sh.len() ==> #[trigger] shamir_den(sh, i) != 0);
}

/// Shamir round trip, in general: any selection of at least `threshold`
/// distinct shares of a fresh sharing reconstructs the secret, whichever
/// shares are picked and in whatever order — the threshold sufficiency and
/// permutation invariance of Lagrange interpolation.
///
/// The `diffs_invertible` hypothesis names the field's multiplicative
/// inverses for the selected points' pairwise differences; executable
/// callers discharge it for concrete shares with `fe_inv` and
/// `lemma_finv_unique`.
pub proof fn shamir_round_trip(
    sh: Seq<ShamirShare>,
    secret: int,
    threshold: int,
    num_parties: int,
    picks: Seq<int>,
)
    requires
        1 <= threshold,
        shamir_shares_post(secret, threshold, num_parties, sh),
        threshold <= picks.len(),
        forall|t: int| 0 <= t < picks.len() ==> 0 <= #[trigger] picks[t] < sh.len(),
        diffs_invertible(Seq::new(picks.len(), |t: int| sh[picks[t]])),
    ensures
        shamir_reconstruct(Seq::new(picks.len(), |t: int| sh[picks[t]])) == Ok::<
            int,
            SecretSharingError,
        >(secret),
{
    let q = Seq::new(picks.len(), |t: int| sh[picks[t]]);
    let coeffs = choose|c: Seq<int>| shamir_poly_fits(c, secret, threshold, sh);
    assert(shamir_poly_fits(coeffs, secret, threshold, sh));
    assert(coeffs.len() == threshold);
    assert forall|t: int| 0 <= t < q.len() implies fe_wf((#[trigger] q[t]).value) && fe_val(
        q[t].value,
    ) == poly_eval(coeffs, crate::secret_sharing::shamir_x(q[t])) by {
        let i = picks[t];
        assert(fe_val(sh[i].value) == poly_eval(coeffs, i + 1));
        assert(sh[i].index == i + 1);
        crate::secret_sharing::lemma_poly_eval_range(coeffs, i + 1);
    }
    shamir_interpolation(q, coeffs);
}

/// Scalar multiplication over a Shamir sharing, end to end: scaling a
/// selection of at least `threshold` shares of a fresh sharing of `secret`
/// by `c` makes reconstruction yield `secret * c`.
pub proof fn shamir_scalar_mul_round_trip(
    sh: Seq<ShamirShare>,
    secret: int,
    threshold: int,
    num_parties: int,
    picks: Seq<int>,
    t: Seq<ShamirShare>,
    c: int,
)
    requires
        1 <= threshold,
        shamir_shares_post(secret, threshold, num_parties, sh),
        threshold <= picks.len(),
        forall|j: int| 0 <= j < picks.len() ==> 0 <= #[trigger] picks[j] < sh.len(),
        diffs_invertible(Seq::new(picks.len(), |j: int| sh[picks[j]])),
        t.len() == picks.len(),
        forall|j: int| 0 <= j < t.len() ==> (#[trigger] t[j]).index == sh[picks[j]].index,
        forall|j: int|
            0 <= j < t.len() ==> fe_val((#[trigger] t[j]).value) == fmul(
                fe_val(sh[picks[j]].value),
                c,
            ),
    ensures
        shamir_reconstruct(t) == Ok::<int, SecretSharingError>(fmul(secret, c)),
{
    let q = Seq::new(picks.len(), |j: int| sh[picks[j]]);
    shamir_round_trip(sh, secret, threshold, num_parties, picks);
    assert forall|j: int| 0 <= j < q.len() implies (#[trigger] t[j]).index == q[j].index
        && fe_val(t[j].value) == fmul(fe_val(q[j].value), c) by {
        assert(q[j] == sh[picks[j]]);
    }
    shamir_scalar_mul_reveal(q, t, c, secret);
}

/// Linear combinations over Shamir sharings, end to end: combining two
/// fresh sharings of `s1` and `s2` pointwise as `c1*q1 + c2*q2` over a
/// common selection of at least `threshold` shares makes reconstruction
/// yield `c1*s1 + c2*s2`.
pub proof fn shamir_linear_combination_round_trip(
    sh1: Seq<ShamirShare>,
    sh2: Seq<ShamirShare>,
    s1: int,
    s2: int,
    threshold: int,
    num_parties: int,
    picks: Seq<int>,
    t: Seq<ShamirShare>,
    c1: int,
    c2: int,
)
    requires
        1 <= threshold,
        shamir_shares_post(s1, threshold, num_parties, sh1),
        shamir_shares_post(s2, threshold, num_parties, sh2),
        threshold <= picks.len(),
        forall|j: int| 0 <= j < picks.len() ==> 0 <= #[trigger] picks[j] < sh1.len(),
        diffs_invertible(Seq::new(picks.len(), |j: int| sh1[picks[j]])),
        t.len() == picks.len(),
        forall|j: int| 0 <= j < t.len() ==> (#[trigger] t[j]).index == sh1[picks[j]].index,
        forall|j: int|
            0 <= j < t.len() ==> fe_val((#[trigger] t[j]).value) == fadd(
                fmul(fe_val(sh1[picks[j]].value), c1),
                fmul(fe_val(sh2[picks[j]].value), c2),
            ),
    ensures
        shamir_reconstruct(t) == Ok::<int, SecretSharingError>(
            fadd(fmul(s1, c1), fmul(s2, c2)),
        ),
{
    let q1 = Seq::new(picks.len(), |j: int| sh1[picks[j]]);
    let q2 = Seq::new(picks.len(), |j: int| sh2[picks[j]]);
    shamir_round_trip(sh1, s1, threshold, num_parties, picks);
    assert(sh1.len() == num_parties && sh2.len() == num_parties);
    assert forall|j: int| 0 <= j < q2.len() implies (#[trigger] q2[j]).index == q1[j].index by {
        let i = picks[j];
        assert(q1[j] == sh1[i] && q2[j] == sh2[i]);
        assert(sh1[i].index == i + 1 && sh2[i].index == i + 1);
    }
    assert forall|a: int, b: int|
        0 <= a < q2.len() && 0 <= b < q2.len() && a != b implies fmul(
        fsub(crate::secret_sharing::shamir_x(q2[a]), crate::secret_sharing::shamir_x(q2[b])),
        finv_p(
            #[trigger] fsub(
                crate::secret_sharing::shamir_x(q2[a]),
                crate::secret_sharing::shamir_x(q2[b]),
            ),
        ),
    ) == 1 by {
        assert(crate::secret_sharing::shamir_x(q2[a]) == crate::secret_sharing::shamir_x(q1[a]));
        assert(crate::secret_sharing::shamir_x(q2[b]) == crate::secret_sharing::shamir_x(q1[b]));
        assert(fmul(
            fsub(crate::secret_sharing::shamir_x(q1[a]), crate::secret_sharing::shamir_x(q1[b])),
            finv_p(
                fsub(
                    crate::secret_sharing::shamir_x(q1[a]),
                    crate::secret_sharing::shamir_x(q1[b]),
                ),
            ),
        ) == 1);
    }
    assert(diffs_invertible(q2));
    shamir_round_trip(sh2, s2, threshold, num_parties, picks);
    assert forall|j: int| 0 <= j < q1.len() implies (#[trigger] t[j]).index == q1[j].index
        && fe_val(t[j].value) == fadd(
        fmul(fe_val(q1[j].value), c1),
        fmul(fe_val(q2[j].value), c2),
    ) by {
        assert(q1[j] == sh1[picks[j]] && q2[j] == sh2[picks[j]]);
    }
    shamir_linear_combination_reveal(q1, q2, t, c1, c2, s1, s2);
}

/// Shamir round trip at threshold one: every share of a threshold-one
/// sharing carries the secret itself, so any single share reconstructs it
/// with no hypothesis on inverses.
pub proof fn shamir_round_trip_threshold_one(
    sh: Seq<ShamirShare>,
    secret: int,
    num_parties: int,
    k: int,
)
    requires
        shamir_shares_post(secret, 1, num_parties, sh),
        0 <= k < sh.len(),
    ensures
        shamir_reconstruct(seq![sh[k]]) == Ok::<int, SecretSharingError>(secret),
{
    let coeffs = choose|c: Seq<int>| shamir_poly_fits(c, secret, 1, sh);
    assert(coeffs.len() == 1);
    let x = k + 1;
    assert(poly_eval(coeffs.drop_first(), x) == 0);
    assert(poly_eval(coeffs, x) == fadd(secret, fmul(x, 0)));
    lemma_field_units(x);
    lemma_field_units(secret);
    assert(0 <= secret < fp());
    lemma_mod_noop_small(secret);
    assert(fe_val(sh[k].value) == secret);
    shamir_single_share_reveal(sh[k]);
}

/// A denominator fold with a vanishing factor vanishes.
proof fn lemma_den_prefix_zero(sh: Seq<ShamirShare>, t: int, z: int, k: int)
    requires
        0 <= z < k <= sh.len(),
        z != t,
        fsub(shamir_x(sh[t]), shamir_x(sh[z])) == 0,
    ensures
        shamir_den_prefix(sh, t, k) == 0,
    decreases k,
{
    if k - 1 == z {
        lemma_field_units(shamir_den_prefix(sh, t, k - 1));
    } else {
        lemma_den_prefix_zero(sh, t, z, k - 1);
        if k - 1 != t {
            lemma_field_units(fsub(shamir_x(sh[t]), shamir_x(sh[k - 1])));
        }
    }
}

/// Two shares with the same evaluation point degenerate a Lagrange
/// denominator, so reconstruction reports the shares as invalid.
pub proof fn shamir_duplicate_index_invalid(sh: Seq<ShamirShare>, i: int, j: int)
    requires
        0 <= i < j < sh.len(),
        sh[i].index == sh[j].index,
    ensures
        shamir_reconstruct(sh) == Err::<int, SecretSharingError>(
            SecretSharingError::InvalidShares,
        ),
{
    lemma_fp_bounds();
    lemma_mod_noop_small(0);
    assert(fsub(shamir_x(sh[j]), shamir_x(sh[i])) == 0);
    lemma_den_prefix_zero(sh, j, i, sh.len() as int);
    assert(shamir_den(sh, j) == 0);
}

/// Scaling every share value scales the combined prefix sums.
proof fn lemma_shamir_combine_scaled_prefix(
    q: Seq<ShamirShare>,
    t: Seq<ShamirShare>,
    c: int,
    m: int,
)
    requires
        t.len() == q.len(),
        forall|j: int| 0 <= j < q.len() ==> (#[trigger] t[j]).index == q[j].index,
        forall|j: int|
            0 <= j < q.len() ==> fe_val((#[trigger] t[j]).value) == fmul(fe_val(q[j].value), c),
        0 <= m <= q.len(),
    ensures
        shamir_combine_prefix(t, m) == fmul(shamir_combine_prefix(q, m), c),
    decreases m,
{
    if m <= 0 {
        lemma_field_units(c);
    } else {
        lemma_shamir_combine_scaled_prefix(q, t, c, m - 1);
        let i = m - 1;
        lemma_shamir_weights_same(q, t, i, q.len() as int);
        let v = fe_val(q[i].value);
        let num = shamir_num(q, i);
        let inv = finv_p(shamir_den(q, i));
        lemma_fmul_shuffle4(v, c, num, inv);
        let cp = shamir_combine_prefix(q, m - 1);
        let tq = shamir_term(q, i);
        lemma_fmul_comm(fadd(cp, tq), c);
        lemma_fmul_distrib(c, cp, tq);
        lemma_fmul_comm(cp, c);
        lemma_fmul_comm(tq, c);
    }
}

/// Scalar multiplication under Shamir sharing: scaling every supplied
/// share by `c` turns a reconstruction that yielded `x` into one that
/// yields `x * c`.
pub proof fn shamir_scalar_mul_reveal(q: Seq<ShamirShare>, t: Seq<ShamirShare>, c: int, x: int)
    requires
        t.len() == q.len(),
        forall|j: int| 0 <= j < q.len() ==> (#[trigger] t[j]).index == q[j].index,
        forall|j: int|
            0 <= j < q.len() ==> fe_val((#[trigger] t[j]).value) == fmul(fe_val(q[j].value), c),
        shamir_reconstruct(q) == Ok::<int, SecretSharingError>(x),
    ensures
        shamir_reconstruct(t) == Ok::<int, SecretSharingError>(fmul(x, c)),
{
    assert(q.len() >= 1);
    assert forall|i: int| 0 <= i < t.len() implies #[trigger] shamir_den(t, i) == shamir_den(
        q,
        i,
    ) by {
        lemma_shamir_weights_same(q, t, i, q.len() as int);
    }
    assert(!(exists|i: int| 0 <= i < q.len() && #[trigger] shamir_den(q, i) == 0));
    lemma_shamir_combine_scaled_prefix(q, t, c, q.len() as int);
}

/// A pointwise linear combination of two share vectors combines the
/// combined prefix sums with the same coefficients.
proof fn lemma_shamir_combine_lincomb_prefix(
    q1: Seq<ShamirShare>,
    q2: Seq<ShamirShare>,
    t: Seq<ShamirShare>,
    c1: int,
    c2: int,
    m: int,
)
    requires
        q2.len() == q1.len(),
        t.len() == q1.len(),
        forall|j: int| 0 <= j < q1.len() ==> (#[trigger] q2[j]).index == q1[j].index,
        forall|j: int| 0 <= j < q1.len() ==> (#[trigger] t[j]).index == q1[j].index,
        forall|j: int|
            0 <= j < q1.len() ==> fe_val((#[trigger] t[j]).value) == fadd(
                fmul(fe_val(q1[j].value), c1),
                fmul(fe_val(q2[j].value), c2),
            ),
        0 <= m <= q1.len(),
    ensures
        shamir_combine_prefix(t, m) == fadd(
            fmul(shamir_combine_prefix(q1, m), c1),
            fmul(shamir_combine_prefix(q2, m), c2),
        ),
    decreases m,
{
    lemma_fp_bounds();
    if m <= 0 {
        lemma_field_units(c1);
        lemma_field_units(c2);
        lemma_field_units(0);
        lemma_mod_noop_small(0);
    } else {
        lemma_shamir_combine_lincomb_prefix(q1, q2, t, c1, c2, m - 1);
        let i = m - 1;
        lemma_shamir_weights_same(q1, t, i, q1.len() as int);
        lemma_shamir_weights_same(q1, q2, i, q1.len() as int);
        let v1 = fe_val(q1[i].value);
        let v2 = fe_val(q2[i].value);
        let num = shamir_num(q1, i);
        let inv = finv_p(shamir_den(q1, i));
        let a = fmul(v1, c1);
        let b = fmul(v2, c2);
        // The new term splits into the two schemes' terms, scaled.
        lemma_fmul_comm(fadd(a, b), num);
        lemma_fmul_distrib(num, a, b);
        lemma_fmul_comm(a, num);
        lemma_fmul_comm(b, num);
        lemma_fmul_comm(fadd(fmul(a, num), fmul(b, num)), inv);
        lemma_fmul_distrib(inv, fmul(a, num), fmul(b, num));
        lemma_fmul_comm(fmul(a, num), inv);
        lemma_fmul_comm(fmul(b, num), inv);
        lemma_fmul_shuffle4(v1, c1, num, inv);
        lemma_fmul_shuffle4(v2, c2, num, inv);
        // And the sums regroup.
        let cp1 = shamir_combine_prefix(q1, m - 1);
        let cp2 = shamir_combine_prefix(q2, m - 1);
        let t1 = shamir_term(q1, i);
        let t2 = shamir_term(q2, i);
        lemma_fadd_shuffle4(fmul(cp1, c1), fmul(cp2, c2), fmul(t1, c1), fmul(t2, c2));
        lemma_fmul_comm(fadd(cp1, t1), c1);
        lemma_fmul_distrib(c1, cp1, t1);
        lemma_fmul_comm(cp1, c1);
        lemma_fmul_comm(t1, c1);
        lemma_fmul_comm(fadd(cp2, t2), c2);
        lemma_fmul_distrib(c2, cp2, t2);
        lemma_fmul_comm(cp2, c2);
        lemma_fmul_comm(t2, c2);
    }
}

/// Linear-combination correctness under Shamir sharing: combining two
/// share vectors pointwise as `c1*s1 + c2*s2` (what the linear-combination
/// gate computes at each index) turns reconstructions that yielded `x1`
/// and `x2` into one that yields `c1*x1 + c2*x2`.
pub proof fn shamir_linear_combination_reveal(
    q1: Seq<ShamirShare>,
    q2: Seq<ShamirShare>,
    t: Seq<ShamirShare>,
    c1: int,
    c2: int,
    x1: int,
    x2: int,
)
    requires
        q2.len() == q1.len(),
        t.len() == q1.len(),
        forall|j: int| 0 <= j < q1.len() ==> (#[trigger] q2[j]).index == q1[j].index,
        forall|j: int| 0 <= j < q1.len() ==> (#[trigger] t[j]).index == q1[j].index,
        forall|j: int|
            0 <= j < q1.len() ==> fe_val((#[trigger] t[j]).value) == fadd(
                fmul(fe_val(q1[j].value), c1),
                fmul(fe_val(q2[j].value), c2),
            ),
        shamir_reconstruct(q1) == Ok::<int, SecretSharingError>(x1),
        shamir_reconstruct(q2) == Ok::<int, SecretSharingError>(x2),
    ensures
        shamir_reconstruct(t) == Ok::<int, SecretSharingError>(
            fadd(fmul(x1, c1), fmul(x2, c2)),
        ),
{
    assert(q1.len() >= 1);
    assert forall|i: int| 0 <= i < t.len() implies #[trigger] shamir_den(t, i) == shamir_den(
        q1,
        i,
    ) by {
        lemma_shamir_weights_same(q1, t, i, q1.len() as int);
    }
    assert(!(exists|i: int| 0 <= i < q1.len() && #[trigger] shamir_den(q1, i) == 0));
    lemma_shamir_combine_lincomb_prefix(q1, q2, t, c1, c2, q1.len() as int);
}

} // verus!
