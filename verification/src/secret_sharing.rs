//! Secret-sharing schemes over the BLS12-381 scalar field.
//!
//! Two schemes implement the `SecretSharing` capability: Shamir's threshold
//! scheme, which evaluates a random polynomial with constant term equal to
//! the secret at the points `1..=num_parties` and reconstructs by Lagrange
//! interpolation at zero, and additive `n`-out-of-`n` sharing, where the
//! share values sum to the secret.
//!
//! Each scheme's operations carry exact contracts over the integer model of
//! the field: `shares_post` pins what a produced share vector denotes and
//! `reconstruct_spec` pins the value or error reconstruction returns.

use vstd::prelude::*;
use crate::field::{
    fadd, fe_add, fe_eq, fe_from_u64, fe_inv, fe_mul, fe_one, fe_rand, fe_sub, fe_val, fe_wf,
    fe_zero, finv_p, fmul, fp, fsub, lemma_fadd_assoc, lemma_fadd_fsub_cancel, lemma_field_range,
    lemma_field_units, lemma_finv_unique, lemma_fmul_assoc, lemma_fmul_comm, lemma_fmul_distrib,
    lemma_fp_bounds, lemma_mod_noop_small, FieldElement,
};
use crate::rng::MpcRng;

verus! {

/// Errors of the sharing layer.
#[derive(Clone, Copy, Debug, PartialEq, Eq, Structural)]
pub enum SecretSharingError {
    /// Reconstruction was attempted with no shares at all.
    InsufficientShares,
    /// The supplied shares are inconsistent, e.g. two of them carry the same
    /// evaluation point, or a pointwise operation mixes evaluation points.
    InvalidShares,
    /// The operation is structurally unsupported by the scheme.
    ReconstructionFailed,
    /// The sharing parameters themselves are rejected.
    InvalidInput,
}

impl SecretSharingError {
    /// A human-readable description of the error.
    pub fn message(&self) -> (r: &'static str) {
        match self {
            SecretSharingError::InsufficientShares => "Insufficient shares for reconstruction",
            SecretSharingError::InvalidShares => "Invalid shares provided",
            SecretSharingError::ReconstructionFailed => "Secret reconstruction failed",
            SecretSharingError::InvalidInput => "Invalid sharing parameters",
        }
    }
}

/// A secret sharing scheme capability.
///
/// The spec functions give each scheme's mathematical model: what a share
/// denotes, which parameters are accepted, what a freshly produced share
/// vector satisfies, and the exact outcome of reconstruction.
pub trait SecretSharing: Sized {
    type Share;

    type SecretKey;

    /// The evaluation point (Shamir) or party identifier (additive).
    spec fn share_index(s: Self::Share) -> int;

    /// The residue carried by the share.
    spec fn share_value(s: Self::Share) -> int;

    /// The share's value is a reduced residue.
    spec fn share_wf(s: Self::Share) -> bool;

    /// Which `(threshold, num_parties)` pairs `share_secret` accepts.
    spec fn params_ok(threshold: int, num_parties: int) -> bool;

    /// What a vector fresh from `share_secret` satisfies.
    spec fn shares_post(secret: int, threshold: int, num_parties: int, shares: Seq<Self::Share>) -> bool;

    /// Whether the scheme supports local share multiplication.
    spec fn mul_supported() -> bool;

    /// The exact outcome of `reconstruct_secret` on a share sequence.
    spec fn reconstruct_spec(shares: Seq<Self::Share>) -> Result<int, SecretSharingError>;

    /// Split `secret` into one share per party.
    fn share_secret(
        secret: &FieldElement,
        threshold: usize,
        num_parties: usize,
        rng: &mut MpcRng,
    ) -> (r: Result<Vec<Self::Share>, SecretSharingError>)
        requires
            fe_wf(*secret),
        ensures
            match r {
                Ok(shares) => Self::params_ok(threshold as int, num_parties as int)
                    && shares@.len() == num_parties && (forall|i: int|
                    0 <= i < shares@.len() ==> #[trigger] Self::share_wf(shares@[i]))
                    && Self::shares_post(
                    fe_val(*secret),
                    threshold as int,
                    num_parties as int,
                    shares@,
                ),
                Err(e) => !Self::params_ok(threshold as int, num_parties as int) && e
                    == SecretSharingError::InvalidInput,
            },
    ;

    /// Recover the secret from a quorum of shares.
    fn reconstruct_secret(shares: &[Self::Share]) -> (r: Result<
        FieldElement,
        SecretSharingError,
    >)
        requires
            forall|i: int| 0 <= i < shares@.len() ==> #[trigger] Self::share_wf(shares@[i]),
        ensures
            match r {
                Ok(v) => fe_wf(v) && Self::reconstruct_spec(shares@) == Ok::<
                    int,
                    SecretSharingError,
                >(fe_val(v)),
                Err(e) => Self::reconstruct_spec(shares@) == Err::<int, SecretSharingError>(e),
            },
    ;

    /// Whether a share is valid under the scheme's key material.
    fn verify_share(share: &Self::Share, secret_key: &Self::SecretKey) -> (r: bool)
        ensures
            r,
    ;

    /// Pointwise addition of two shares at the same index.
    fn add_shares(left: &Self::Share, right: &Self::Share) -> (r: Result<
        Self::Share,
        SecretSharingError,
    >)
        requires
            Self::share_wf(*left),
            Self::share_wf(*right),
        ensures
            match r {
                Ok(s) => Self::share_index(*left) == Self::share_index(*right)
                    && Self::share_wf(s) && Self::share_index(s) == Self::share_index(*left)
                    && Self::share_value(s) == fadd(
                    Self::share_value(*left),
                    Self::share_value(*right),
                ),
                Err(e) => Self::share_index(*left) != Self::share_index(*right) && e
                    == SecretSharingError::InvalidShares,
            },
    ;

    /// Pointwise multiplication of two shares, where the scheme supports it.
    fn mul_shares(left: &Self::Share, right: &Self::Share) -> (r: Result<
        Self::Share,
        SecretSharingError,
    >)
        requires
            Self::share_wf(*left),
            Self::share_wf(*right),
        ensures
            match r {
                Ok(s) => Self::mul_supported() && Self::share_wf(s) && Self::share_index(s)
                    == Self::share_index(*left) && Self::share_value(s) == fmul(
                    Self::share_value(*left),
                    Self::share_value(*right),
                ),
                Err(e) => !Self::mul_supported() && e == SecretSharingError::ReconstructionFailed,
            },
    ;

    /// Multiply a share's value by a public scalar.
    fn scalar_mul_share(share: &Self::Share, scalar: FieldElement) -> (r: Self::Share)
        requires
            Self::share_wf(*share),
            fe_wf(scalar),
        ensures
            Self::share_wf(r),
            Self::share_index(r) == Self::share_index(*share),
            Self::share_value(r) == fmul(Self::share_value(*share), fe_val(scalar)),
    ;
}

// ---------------------------------------------------------------------------
// Shamir's threshold scheme.
// ---------------------------------------------------------------------------

/// Shamir's polynomial threshold scheme.
#[derive(Clone, Copy)]
pub struct ShamirSecretSharing {}

impl ShamirSecretSharing {
    pub fn new() -> (r: Self) {
        ShamirSecretSharing {  }
    }
}

/// One Shamir share: the polynomial's value at evaluation point `index`.
#[derive(Clone, Copy, Debug, PartialEq, Eq, Structural)]
pub struct ShamirShare {
    pub index: usize,
    pub value: FieldElement,
}

/// Evaluation of the polynomial with coefficient residues `coeffs`
/// (constant term first) at `x`, by Horner's rule in the field.
pub open spec fn poly_eval(coeffs: Seq<int>, x: int) -> int
    decreases coeffs.len(),
{
    if coeffs.len() == 0 {
        0
    } else {
        fadd(coeffs[0], fmul(x, poly_eval(coeffs.drop_first(), x)))
    }
}

/// The number of coefficients `share_secret` draws for a given threshold:
/// the constant term plus `threshold - 1` random ones.
pub open spec fn shamir_coeff_count(threshold: int) -> int {
    if threshold < 1 {
        1
    } else {
        threshold
    }
}

/// `coeffs` is a coefficient vector that explains `sh` as evaluations of a
/// polynomial with constant term `secret`.
pub open spec fn shamir_poly_fits(
    coeffs: Seq<int>,
    secret: int,
    threshold: int,
    sh: Seq<ShamirShare>,
) -> bool {
    &&& coeffs.len() == shamir_coeff_count(threshold)
    &&& coeffs[0] == secret
    &&& forall|k: int| 0 <= k < coeffs.len() ==> 0 <= #[trigger] coeffs[k] < fp()
    &&& forall|i: int|
        0 <= i < sh.len() ==> fe_val(#[trigger] sh[i].value) == poly_eval(coeffs, i + 1)
}

/// What a fresh Shamir share vector satisfies: one share per party, indexed
/// `1..=num_parties`, all evaluations of one polynomial whose constant term
/// is the secret.
pub open spec fn shamir_shares_post(
    secret: int,
    threshold: int,
    num_parties: int,
    sh: Seq<ShamirShare>,
) -> bool {
    &&& sh.len() == num_parties
    &&& forall|i: int| 0 <= i < sh.len() ==> (#[trigger] sh[i].index) == i + 1
    &&& exists|coeffs: Seq<int>| shamir_poly_fits(coeffs, secret, threshold, sh)
}

/// The evaluation point of a share, as a residue.
pub open spec fn shamir_x(s: ShamirShare) -> int {
    s.index as int
}

/// Product over `j < k`, `j != i`, of `(0 - x_j)`: the Lagrange numerator
/// for share `i`, after the first `k` factors.
pub open spec fn shamir_num_prefix(sh: Seq<ShamirShare>, i: int, k: int) -> int
    decreases k,
{
    if k <= 0 {
        1
    } else if k - 1 == i {
        shamir_num_prefix(sh, i, k - 1)
    } else {
        fmul(shamir_num_prefix(sh, i, k - 1), fsub(0, shamir_x(sh[k - 1])))
    }
}

/// Product over `j < k`, `j != i`, of `(x_i - x_j)`: the Lagrange
/// denominator for share `i`, after the first `k` factors.
pub open spec fn shamir_den_prefix(sh: Seq<ShamirShare>, i: int, k: int) -> int
    decreases k,
{
    if k <= 0 {
        1
    } else if k - 1 == i {
        shamir_den_prefix(sh, i, k - 1)
    } else {
        fmul(shamir_den_prefix(sh, i, k - 1), fsub(shamir_x(sh[i]), shamir_x(sh[k - 1])))
    }
}

/// The full Lagrange numerator for share `i`.
pub open spec fn shamir_num(sh: Seq<ShamirShare>, i: int) -> int {
    shamir_num_prefix(sh, i, sh.len() as int)
}

/// The full Lagrange denominator for share `i`.
pub open spec fn shamir_den(sh: Seq<ShamirShare>, i: int) -> int {
    shamir_den_prefix(sh, i, sh.len() as int)
}

/// Share `i`'s contribution to the interpolation at zero.
pub open spec fn shamir_term(sh: Seq<ShamirShare>, i: int) -> int {
    fmul(fmul(fe_val(sh[i].value), shamir_num(sh, i)), finv_p(shamir_den(sh, i)))
}

/// Sum of the first `k` contributions.
pub open spec fn shamir_combine_prefix(sh: Seq<ShamirShare>, k: int) -> int
    decreases k,
{
    if k <= 0 {
        0
    } else {
        fadd(shamir_combine_prefix(sh, k - 1), shamir_term(sh, k - 1))
    }
}

/// The value Lagrange interpolation at zero assigns to the shares.
pub open spec fn shamir_combine(sh: Seq<ShamirShare>) -> int {
    shamir_combine_prefix(sh, sh.len() as int)
}

/// The exact outcome of Shamir reconstruction: no shares is an error, a
/// degenerate Lagrange denominator is an error, otherwise the interpolation
/// value at zero.
pub open spec fn shamir_reconstruct(sh: Seq<ShamirShare>) -> Result<int, SecretSharingError> {
    if sh.len() == 0 {
        Err(SecretSharingError::InsufficientShares)
    } else if exists|i: int| 0 <= i < sh.len() && #[trigger] shamir_den(sh, i) == 0 {
        Err(SecretSharingError::InvalidShares)
    } else {
        Ok(shamir_combine(sh))
    }
}

/// Every polynomial evaluation is a reduced residue.
pub proof fn lemma_poly_eval_range(coeffs: Seq<int>, x: int)
    ensures
        0 <= poly_eval(coeffs, x) < fp(),
    decreases coeffs.len(),
{
    lemma_fp_bounds();
    if coeffs.len() > 0 {
        lemma_field_range(coeffs[0], fmul(x, poly_eval(coeffs.drop_first(), x)));
    }
}

/// One step of Horner evaluation by ascending powers: absorbing the next
/// coefficient into the accumulator and advancing the power keeps the total.
proof fn lemma_horner_step(y: int, xp: int, c: int, x: int, rest: int)
    ensures
        fadd(y, fmul(xp, fadd(c, fmul(x, rest)))) == fadd(
            fadd(y, fmul(c, xp)),
            fmul(fmul(xp, x), rest),
        ),
{
    lemma_fmul_distrib(xp, c, fmul(x, rest));
    lemma_fmul_assoc(xp, x, rest);
    lemma_fmul_comm(c, xp);
    lemma_fadd_assoc(y, fmul(xp, c), fmul(fmul(xp, x), rest));
}

impl SecretSharing for ShamirSecretSharing {
    type Share = ShamirShare;

    type SecretKey = ();

    open spec fn share_index(s: ShamirShare) -> int {
        s.index as int
    }

    open spec fn share_value(s: ShamirShare) -> int {
        fe_val(s.value)
    }

    open spec fn share_wf(s: ShamirShare) -> bool {
        fe_wf(s.value)
    }

    open spec fn params_ok(threshold: int, num_parties: int) -> bool {
        threshold <= num_parties
    }

    open spec fn shares_post(
        secret: int,
        threshold: int,
        num_parties: int,
        shares: Seq<ShamirShare>,
    ) -> bool {
        shamir_shares_post(secret, threshold, num_parties, shares)
    }

    open spec fn mul_supported() -> bool {
        true
    }

    open spec fn reconstruct_spec(shares: Seq<ShamirShare>) -> Result<int, SecretSharingError> {
        shamir_reconstruct(shares)
    }

    fn share_secret(
        secret: &FieldElement,
        threshold: usize,
        num_parties: usize,
        rng: &mut MpcRng,
    ) -> (r: Result<Vec<ShamirShare>, SecretSharingError>) {
        if threshold > num_parties {
            return Err(SecretSharingError::InvalidInput);
        }
        let mut coeffs: Vec<FieldElement> = Vec::new();
        coeffs.push(*secret);
        let mut k: usize = 1;
        while k < threshold
            invariant
                1 <= k,
                k <= threshold || k == 1,
                coeffs@.len() == k,
                coeffs@[0] == *secret,
                forall|j: int| 0 <= j < coeffs@.len() ==> fe_wf(#[trigger] coeffs@[j]),
            decreases threshold - k,
        {
            let c = fe_rand(rng);
            coeffs.push(c);
            k = k + 1;
        }
        let ghost gcoeffs: Seq<int> = coeffs@.map(|j: int, c: FieldElement| fe_val(c));
        proof {
            assert(gcoeffs.len() == shamir_coeff_count(threshold as int));
            assert(gcoeffs[0] == fe_val(*secret));
            assert(forall|t: int| 0 <= t < gcoeffs.len() ==> 0 <= #[trigger] gcoeffs[t] < fp());
        }
        let n_coeffs = coeffs.len();
        let mut shares: Vec<ShamirShare> = Vec::new();
        let mut idx: usize = 0;
        while idx < num_parties
            invariant
                idx <= num_parties,
                shares@.len() == idx,
                n_coeffs == coeffs@.len(),
                1 <= coeffs@.len(),
                gcoeffs == coeffs@.map(|j: int, c: FieldElement| fe_val(c)),
                forall|j: int| 0 <= j < coeffs@.len() ==> fe_wf(#[trigger] coeffs@[j]),
                forall|i: int| 0 <= i < idx ==> (#[trigger] shares@[i].index) == i + 1,
                forall|i: int| 0 <= i < idx ==> fe_wf(#[trigger] shares@[i].value),
                forall|i: int|
                    0 <= i < idx ==> fe_val(#[trigger] shares@[i].value) == poly_eval(
                        gcoeffs,
                        i + 1,
                    ),
            decreases num_parties - idx,
        {
            let x = fe_from_u64((idx as u64) + 1);
            let mut y = fe_zero();
            let mut xp = fe_one();
            let mut j: usize = 0;
            proof {
                assert(gcoeffs.skip(0) =~= gcoeffs);
                lemma_poly_eval_range(gcoeffs, fe_val(x));
                lemma_field_units(poly_eval(gcoeffs, fe_val(x)));
                lemma_mod_noop_small(poly_eval(gcoeffs, fe_val(x)));
            }
            while j < n_coeffs
                invariant
                    j <= n_coeffs,
                    n_coeffs == coeffs@.len(),
                    1 <= coeffs@.len(),
                    gcoeffs == coeffs@.map(|jj: int, c: FieldElement| fe_val(c)),
                    forall|t: int| 0 <= t < coeffs@.len() ==> fe_wf(#[trigger] coeffs@[t]),
                    fe_wf(y),
                    fe_wf(xp),
                    fe_wf(x),
                    fadd(
                        fe_val(y),
                        fmul(fe_val(xp), poly_eval(gcoeffs.skip(j as int), fe_val(x))),
                    ) == poly_eval(gcoeffs, fe_val(x)),
                decreases n_coeffs - j,
            {
                let t = fe_mul(&coeffs[j], &xp);
                proof {
                    assert(gcoeffs.skip(j as int).drop_first() =~= gcoeffs.skip(j as int + 1));
                    assert(gcoeffs[j as int] == fe_val(coeffs@[j as int]));
                    lemma_horner_step(
                        fe_val(y),
                        fe_val(xp),
                        gcoeffs[j as int],
                        fe_val(x),
                        poly_eval(gcoeffs.skip(j as int + 1), fe_val(x)),
                    );
                }
                y = fe_add(&y, &t);
                xp = fe_mul(&xp, &x);
                j = j + 1;
            }
            proof {
                assert(gcoeffs.skip(n_coeffs as int) =~= Seq::<int>::empty());
                lemma_field_units(fe_val(xp));
                lemma_field_units(fe_val(y));
                lemma_mod_noop_small(fe_val(y));
            }
            shares.push(ShamirShare { index: idx + 1, value: y });
            idx = idx + 1;
        }
        proof {
            assert(shamir_poly_fits(gcoeffs, fe_val(*secret), threshold as int, shares@));
        }
        Ok(shares)
    }

    fn reconstruct_secret(shares: &[ShamirShare]) -> (r: Result<
        FieldElement,
        SecretSharingError,
    >) {
        let n = shares.len();
        proof {
            assert forall|t: int| 0 <= t < n implies fe_wf(#[trigger] shares@[t].value) by {
                assert(Self::share_wf(shares@[t]));
            }
        }
        if n == 0 {
            return Err(SecretSharingError::InsufficientShares);
        }
        let mut result = fe_zero();
        let mut i: usize = 0;
        while i < n
            invariant
                i <= n,
                1 <= n,
                n == shares@.len(),
                forall|t: int| 0 <= t < n ==> fe_wf(#[trigger] shares@[t].value),
                fe_wf(result),
                fe_val(result) == shamir_combine_prefix(shares@, i as int),
                forall|t: int| 0 <= t < i ==> #[trigger] shamir_den(shares@, t) != 0,
            decreases n - i,
        {
            let mut numerator = fe_one();
            let mut denominator = fe_one();
            let xi = fe_from_u64(shares[i].index as u64);
            let mut j: usize = 0;
            while j < n
                invariant
                    j <= n,
                    i < n,
                    n == shares@.len(),
                    forall|t: int| 0 <= t < n ==> fe_wf(#[trigger] shares@[t].value),
                    fe_wf(numerator),
                    fe_wf(denominator),
                    fe_wf(xi),
                    fe_val(xi) == shamir_x(shares@[i as int]),
                    fe_val(numerator) == shamir_num_prefix(shares@, i as int, j as int),
                    fe_val(denominator) == shamir_den_prefix(shares@, i as int, j as int),
                decreases n - j,
            {
                if i != j {
                    let xj = fe_from_u64(shares[j].index as u64);
                    let z = fe_zero();
                    numerator = fe_mul(&numerator, &fe_sub(&z, &xj));
                    denominator = fe_mul(&denominator, &fe_sub(&xi, &xj));
                }
                j = j + 1;
            }
            if fe_eq(&denominator, &fe_zero()) {
                proof {
                    assert(shamir_den(shares@, i as int) == 0);
                }
                return Err(SecretSharingError::InvalidShares);
            }
            let inv = fe_inv(&denominator);
            proof {
                lemma_finv_unique(fe_val(denominator), fe_val(inv));
            }
            let term = fe_mul(&fe_mul(&shares[i].value, &numerator), &inv);
            result = fe_add(&result, &term);
            i = i + 1;
        }
        proof {
            assert(!(exists|t: int|
                0 <= t < shares@.len() && #[trigger] shamir_den(shares@, t) == 0));
        }
        Ok(result)
    }

    fn verify_share(_share: &ShamirShare, _secret_key: &()) -> (r: bool) {
        true
    }

    fn add_shares(left: &ShamirShare, right: &ShamirShare) -> (r: Result<
        ShamirShare,
        SecretSharingError,
    >) {
        if left.index != right.index {
            return Err(SecretSharingError::InvalidShares);
        }
        Ok(ShamirShare { index: left.index, value: fe_add(&left.value, &right.value) })
    }

    fn mul_shares(left: &ShamirShare, right: &ShamirShare) -> (r: Result<
        ShamirShare,
        SecretSharingError,
    >) {
        Ok(ShamirShare { index: left.index, value: fe_mul(&left.value, &right.value) })
    }

    fn scalar_mul_share(share: &ShamirShare, scalar: FieldElement) -> (r: ShamirShare) {
        ShamirShare { index: share.index, value: fe_mul(&share.value, &scalar) }
    }
}

// ---------------------------------------------------------------------------
// Additive n-out-of-n sharing.
// ---------------------------------------------------------------------------

/// Additive `n`-out-of-`n` sharing: the share values sum to the secret.
#[derive(Clone, Copy)]
pub struct AdditiveSecretSharing {}

impl AdditiveSecretSharing {
    pub fn new() -> (r: Self) {
        AdditiveSecretSharing {  }
    }
}

/// One additive share: a party's contribution to the sum.
#[derive(Clone, Copy, Debug, PartialEq, Eq, Structural)]
pub struct AdditiveShare {
    pub party_id: usize,
    pub value: FieldElement,
}

/// Field sum of the first `k` share values.
pub open spec fn additive_sum_prefix(sh: Seq<AdditiveShare>, k: int) -> int
    decreases k,
{
    if k <= 0 {
        0
    } else {
        fadd(additive_sum_prefix(sh, k - 1), fe_val(sh[k - 1].value))
    }
}

/// Field sum of all share values.
pub open spec fn additive_sum(sh: Seq<AdditiveShare>) -> int {
    additive_sum_prefix(sh, sh.len() as int)
}

/// What a fresh additive share vector satisfies: one share per party,
/// identified `0..num_parties`, and the values sum to the secret.
pub open spec fn additive_shares_post(secret: int, num_parties: int, sh: Seq<AdditiveShare>) -> bool {
    &&& sh.len() == num_parties
    &&& forall|i: int| 0 <= i < sh.len() ==> (#[trigger] sh[i].party_id) == i
    &&& additive_sum(sh) == secret
}

/// The exact outcome of additive reconstruction: no shares is an error,
/// otherwise the field sum of whatever shares were supplied.
pub open spec fn additive_reconstruct(sh: Seq<AdditiveShare>) -> Result<int, SecretSharingError> {
    if sh.len() == 0 {
        Err(SecretSharingError::InsufficientShares)
    } else {
        Ok(additive_sum(sh))
    }
}

/// The sum of a prefix only reads the prefix: two sequences that agree on
/// the first `k` shares have the same `k`-prefix sum.
pub proof fn lemma_additive_prefix_grow(s: Seq<AdditiveShare>, t: Seq<AdditiveShare>, k: int)
    requires
        0 <= k <= s.len(),
        k <= t.len(),
        forall|j: int| 0 <= j < k ==> s[j] == t[j],
    ensures
        additive_sum_prefix(s, k) == additive_sum_prefix(t, k),
    decreases k,
{
    if k > 0 {
        lemma_additive_prefix_grow(s, t, k - 1);
    }
}

impl SecretSharing for AdditiveSecretSharing {
    type Share = AdditiveShare;

    type SecretKey = ();

    open spec fn share_index(s: AdditiveShare) -> int {
        s.party_id as int
    }

    open spec fn share_value(s: AdditiveShare) -> int {
        fe_val(s.value)
    }

    open spec fn share_wf(s: AdditiveShare) -> bool {
        fe_wf(s.value)
    }

    open spec fn params_ok(threshold: int, num_parties: int) -> bool {
        num_parties >= 1
    }

    open spec fn shares_post(
        secret: int,
        threshold: int,
        num_parties: int,
        shares: Seq<AdditiveShare>,
    ) -> bool {
        additive_shares_post(secret, num_parties, shares)
    }

    open spec fn mul_supported() -> bool {
        false
    }

    open spec fn reconstruct_spec(shares: Seq<AdditiveShare>) -> Result<int, SecretSharingError> {
        additive_reconstruct(shares)
    }

    fn share_secret(
        secret: &FieldElement,
        threshold: usize,
        num_parties: usize,
        rng: &mut MpcRng,
    ) -> (r: Result<Vec<AdditiveShare>, SecretSharingError>) {
        if num_parties == 0 {
            return Err(SecretSharingError::InvalidInput);
        }
        let last = num_parties - 1;
        let mut shares: Vec<AdditiveShare> = Vec::new();
        let mut sum = fe_zero();
        let mut i: usize = 0;
        while i < last
            invariant
                i <= last,
                last == num_parties - 1,
                1 <= num_parties,
                shares@.len() == i,
                forall|t: int| 0 <= t < i ==> (#[trigger] shares@[t].party_id) == t,
                forall|t: int| 0 <= t < i ==> fe_wf(#[trigger] shares@[t].value),
                fe_wf(sum),
                fe_val(sum) == additive_sum_prefix(shares@, i as int),
            decreases last - i,
        {
            let v = fe_rand(rng);
            proof {
                lemma_additive_prefix_grow(
                    shares@,
                    shares@.push(AdditiveShare { party_id: i, value: v }),
                    i as int,
                );
            }
            sum = fe_add(&sum, &v);
            shares.push(AdditiveShare { party_id: i, value: v });
            i = i + 1;
        }
        let value = fe_sub(secret, &sum);
        proof {
            lemma_additive_prefix_grow(
                shares@,
                shares@.push(AdditiveShare { party_id: last, value: value }),
                last as int,
            );
            lemma_fadd_fsub_cancel(fe_val(sum), fe_val(*secret));
            lemma_mod_noop_small(fe_val(*secret));
        }
        shares.push(AdditiveShare { party_id: last, value: value });
        Ok(shares)
    }

    fn reconstruct_secret(shares: &[AdditiveShare]) -> (r: Result<
        FieldElement,
        SecretSharingError,
    >) {
        let n = shares.len();
        proof {
            assert forall|t: int| 0 <= t < n implies fe_wf(#[trigger] shares@[t].value) by {
                assert(Self::share_wf(shares@[t]));
            }
        }
        if n == 0 {
            return Err(SecretSharingError::InsufficientShares);
        }
        let mut acc = fe_zero();
        let mut i: usize = 0;
        while i < n
            invariant
                i <= n,
                n == shares@.len(),
                forall|t: int| 0 <= t < n ==> fe_wf(#[trigger] shares@[t].value),
                fe_wf(acc),
                fe_val(acc) == additive_sum_prefix(shares@, i as int),
            decreases n - i,
        {
            acc = fe_add(&acc, &shares[i].value);
            i = i + 1;
        }
        Ok(acc)
    }

    fn verify_share(_share: &AdditiveShare, _secret_key: &()) -> (r: bool) {
        true
    }

    fn add_shares(left: &AdditiveShare, right: &AdditiveShare) -> (r: Result<
        AdditiveShare,
        SecretSharingError,
    >) {
        if left.party_id != right.party_id {
            return Err(SecretSharingError::InvalidShares);
        }
        Ok(AdditiveShare { party_id: left.party_id, value: fe_add(&left.value, &right.value) })
    }

    fn mul_shares(_left: &AdditiveShare, _right: &AdditiveShare) -> (r: Result<
        AdditiveShare,
        SecretSharingError,
    >) {
        Err(SecretSharingError::ReconstructionFailed)
    }

    fn scalar_mul_share(share: &AdditiveShare, scalar: FieldElement) -> (r: AdditiveShare) {
        AdditiveShare { party_id: share.party_id, value: fe_mul(&share.value, &scalar) }
    }
}

} // verus!
