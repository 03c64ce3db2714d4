//! Elements of the BLS12-381 scalar field.
//!
//! A `FieldElement` holds the canonical residue as four 64-bit limbs in
//! little-endian order; `fe_val` is the integer it denotes and `fe_wf` says
//! the residue is reduced. Arithmetic is carried out by the `ark-bls12-381`
//! backend behind trusted wrappers whose contracts state the result as
//! integer arithmetic modulo the scalar-field prime `fp()`.

use vstd::prelude::*;
use vstd::arithmetic::div_mod::{
    lemma_add_mod_noop, lemma_fundamental_div_mod_converse, lemma_mod_bound, lemma_mod_twice,
    lemma_mul_mod_noop_general, lemma_small_mod, lemma_sub_mod_noop,
};
use vstd::arithmetic::mul::{
    lemma_mul_is_associative, lemma_mul_is_commutative, lemma_mul_is_distributive_add,
};
use crate::rng::MpcRng;
use ark_bls12_381::Fr;
use ark_ff::{BigInt, Field, PrimeField, UniformRand};

verus! {

/// The BLS12-381 scalar-field prime
/// 52435875175126190479447740508185965837690552500527637822603658699938581184513,
/// written from its four 64-bit little-endian limbs.
pub open spec fn fp() -> int {
    0xFFFFFFFF00000001int + 0x10000000000000000int * (0x53BDA402FFFE5BFEint
        + 0x10000000000000000int * (0x3339D80809A1D805int + 0x10000000000000000int
        * 0x73EDA753299D7D48int))
}

/// One element of the scalar field, as the four 64-bit little-endian limbs
/// of its canonical (reduced) residue.
#[derive(Clone, Copy, Debug, PartialEq, Eq, Structural)]
pub struct FieldElement {
    pub l0: u64,
    pub l1: u64,
    pub l2: u64,
    pub l3: u64,
}

/// The integer a `FieldElement` denotes, from its little-endian limbs.
pub open spec fn fe_val(a: FieldElement) -> int {
    a.l0 + 0x10000000000000000int * (a.l1 + 0x10000000000000000int * (a.l2
        + 0x10000000000000000int * a.l3))
}

/// The prime is larger than any single limb and larger than one.
pub proof fn lemma_fp_bounds()
    ensures
        1 < fp(),
        0xFFFFFFFFFFFFFFFF < fp(),
{
}

/// A well-formed element denotes a reduced residue.
pub open spec fn fe_wf(a: FieldElement) -> bool {
    fe_val(a) < fp()
}

/// Field addition on residues.
pub open spec fn fadd(a: int, b: int) -> int {
    (a + b) % fp()
}

/// Field subtraction on residues.
pub open spec fn fsub(a: int, b: int) -> int {
    (a - b) % fp()
}

/// Field multiplication on residues.
pub open spec fn fmul(a: int, b: int) -> int {
    (a * b) % fp()
}

pub fn fe_zero() -> (r: FieldElement)
    ensures
        fe_val(r) == 0,
        fe_wf(r),
{
    proof {
        lemma_fp_bounds();
    }
    FieldElement { l0: 0, l1: 0, l2: 0, l3: 0 }
}

pub fn fe_one() -> (r: FieldElement)
    ensures
        fe_val(r) == 1,
        fe_wf(r),
{
    proof {
        lemma_fp_bounds();
    }
    FieldElement { l0: 1, l1: 0, l2: 0, l3: 0 }
}

pub fn fe_from_u64(x: u64) -> (r: FieldElement)
    ensures
        fe_val(r) == x,
        fe_wf(r),
{
    proof {
        lemma_fp_bounds();
    }
    FieldElement { l0: x, l1: 0, l2: 0, l3: 0 }
}

/// Relies on `ark_ff::PrimeField::{from_bigint, into_bigint}` and the `Add`
/// impl of `ark_bls12_381::Fr`: reduced residues add modulo `fp()`.
#[verifier::external_body]
pub(crate) fn fe_add(a: &FieldElement, b: &FieldElement) -> (r: FieldElement)
    requires
        fe_wf(*a),
        fe_wf(*b),
    ensures
        fe_wf(r),
        fe_val(r) == fadd(fe_val(*a), fe_val(*b)),
{
    let x = Fr::from_bigint(BigInt([a.l0, a.l1, a.l2, a.l3])).unwrap();
    let y = Fr::from_bigint(BigInt([b.l0, b.l1, b.l2, b.l3])).unwrap();
    let s = (x + y).into_bigint().0;
    FieldElement { l0: s[0], l1: s[1], l2: s[2], l3: s[3] }
}

/// Relies on `ark_ff::PrimeField::{from_bigint, into_bigint}` and the `Sub`
/// impl of `ark_bls12_381::Fr`: reduced residues subtract modulo `fp()`.
#[verifier::external_body]
pub(crate) fn fe_sub(a: &FieldElement, b: &FieldElement) -> (r: FieldElement)
    requires
        fe_wf(*a),
        fe_wf(*b),
    ensures
        fe_wf(r),
        fe_val(r) == fsub(fe_val(*a), fe_val(*b)),
{
    let x = Fr::from_bigint(BigInt([a.l0, a.l1, a.l2, a.l3])).unwrap();
    let y = Fr::from_bigint(BigInt([b.l0, b.l1, b.l2, b.l3])).unwrap();
    let s = (x - y).into_bigint().0;
    FieldElement { l0: s[0], l1: s[1], l2: s[2], l3: s[3] }
}

/// Relies on `ark_ff::PrimeField::{from_bigint, into_bigint}` and the `Mul`
/// impl of `ark_bls12_381::Fr`: reduced residues multiply modulo `fp()`.
#[verifier::external_body]
pub(crate) fn fe_mul(a: &FieldElement, b: &FieldElement) -> (r: FieldElement)
    requires
        fe_wf(*a),
        fe_wf(*b),
    ensures
        fe_wf(r),
        fe_val(r) == fmul(fe_val(*a), fe_val(*b)),
{
    let x = Fr::from_bigint(BigInt([a.l0, a.l1, a.l2, a.l3])).unwrap();
    let y = Fr::from_bigint(BigInt([b.l0, b.l1, b.l2, b.l3])).unwrap();
    let s = (x * y).into_bigint().0;
    FieldElement { l0: s[0], l1: s[1], l2: s[2], l3: s[3] }
}

/// Relies on `ark_ff::Field::inverse`: on a nonzero residue it returns the
/// multiplicative inverse modulo the prime `fp()` (and `None` only on zero).
#[verifier::external_body]
pub(crate) fn fe_inv(a: &FieldElement) -> (r: FieldElement)
    requires
        fe_wf(*a),
        fe_val(*a) != 0,
    ensures
        fe_wf(r),
        fmul(fe_val(*a), fe_val(r)) == 1,
{
    let x = Fr::from_bigint(BigInt([a.l0, a.l1, a.l2, a.l3])).unwrap();
    let s = x.inverse().unwrap().into_bigint().0;
    FieldElement { l0: s[0], l1: s[1], l2: s[2], l3: s[3] }
}

/// Relies on `ark_ff::UniformRand::rand` for `ark_bls12_381::Fr`: it returns
/// some reduced residue; nothing is assumed about which one.
#[verifier::external_body]
pub(crate) fn fe_rand(rng: &mut MpcRng) -> (r: FieldElement)
    ensures
        fe_wf(r),
{
    let s = Fr::rand(&mut rng.inner).into_bigint().0;
    FieldElement { l0: s[0], l1: s[1], l2: s[2], l3: s[3] }
}

/// Two limb vectors denote the same integer only if they are identical.
pub proof fn lemma_fe_val_injective(a: FieldElement, b: FieldElement)
    ensures
        (fe_val(a) == fe_val(b)) ==> a == b,
{
    if fe_val(a) == fe_val(b) {
        let base: int = 0x10000000000000000;
        let qa2 = a.l2 + base * a.l3;
        let qb2 = b.l2 + base * b.l3;
        let qa1 = a.l1 + base * qa2;
        let qb1 = b.l1 + base * qb2;
        lemma_fundamental_div_mod_converse(fe_val(a), base, qa1, a.l0 as int);
        lemma_fundamental_div_mod_converse(fe_val(b), base, qb1, b.l0 as int);
        assert(a.l0 == b.l0 && qa1 == qb1);
        lemma_fundamental_div_mod_converse(qa1, base, qa2, a.l1 as int);
        lemma_fundamental_div_mod_converse(qb1, base, qb2, b.l1 as int);
        assert(a.l1 == b.l1 && qa2 == qb2);
        lemma_fundamental_div_mod_converse(qa2, base, a.l3 as int, a.l2 as int);
        lemma_fundamental_div_mod_converse(qb2, base, b.l3 as int, b.l2 as int);
        assert(a.l2 == b.l2 && a.l3 == b.l3);
    }
}

/// Equality of field elements; exact since well-formed residues are stored
/// canonically.
pub fn fe_eq(a: &FieldElement, b: &FieldElement) -> (r: bool)
    ensures
        r == (fe_val(*a) == fe_val(*b)),
{
    proof {
        lemma_fe_val_injective(*a, *b);
    }
    a.l0 == b.l0 && a.l1 == b.l1 && a.l2 == b.l2 && a.l3 == b.l3
}

// ---------------------------------------------------------------------------
// Algebra of residues modulo fp(), used by the secret-sharing proofs.
// ---------------------------------------------------------------------------

/// A reduced residue is its own remainder.
pub proof fn lemma_mod_noop_small(a: int)
    requires
        0 <= a < fp(),
    ensures
        a % fp() == a,
{
    lemma_fp_bounds();
    lemma_small_mod(a as nat, fp() as nat);
}

/// Field operations land in the reduced range.
pub proof fn lemma_field_range(a: int, b: int)
    ensures
        0 <= fadd(a, b) < fp(),
        0 <= fsub(a, b) < fp(),
        0 <= fmul(a, b) < fp(),
{
    lemma_fp_bounds();
    lemma_mod_bound(a + b, fp());
    lemma_mod_bound(a - b, fp());
    lemma_mod_bound(a * b, fp());
}

/// Reducing an argument first does not change a field addition.
pub proof fn lemma_fadd_absorb(a: int, b: int)
    ensures
        fadd(a % fp(), b) == fadd(a, b),
        fadd(a, b % fp()) == fadd(a, b),
{
    lemma_fp_bounds();
    lemma_add_mod_noop(a, b, fp());
    lemma_add_mod_noop(a % fp(), b, fp());
    lemma_add_mod_noop(a, b % fp(), fp());
    lemma_mod_twice(a, fp());
    lemma_mod_twice(b, fp());
}

/// Reducing an argument first does not change a field multiplication.
pub proof fn lemma_fmul_absorb(a: int, b: int)
    ensures
        fmul(a % fp(), b) == fmul(a, b),
        fmul(a, b % fp()) == fmul(a, b),
{
    lemma_fp_bounds();
    lemma_mul_mod_noop_general(a, b, fp());
    lemma_mod_twice(a, fp());
    lemma_mod_twice(b, fp());
    lemma_mul_mod_noop_general(a % fp(), b, fp());
    lemma_mul_mod_noop_general(a, b % fp(), fp());
}

/// Field multiplication is commutative.
pub proof fn lemma_fmul_comm(a: int, b: int)
    ensures
        fmul(a, b) == fmul(b, a),
{
    lemma_mul_is_commutative(a, b);
}

/// Field multiplication is associative.
pub proof fn lemma_fmul_assoc(a: int, b: int, c: int)
    ensures
        fmul(a, fmul(b, c)) == fmul(fmul(a, b), c),
{
    lemma_fp_bounds();
    lemma_mul_mod_noop_general(a, b * c, fp());
    lemma_mul_mod_noop_general(a * b, c, fp());
    lemma_mod_twice(a, fp());
    lemma_mod_twice(c, fp());
    lemma_mul_is_associative(a, b, c);
}

/// Field multiplication distributes over field addition.
pub proof fn lemma_fmul_distrib(a: int, b: int, c: int)
    ensures
        fmul(a, fadd(b, c)) == fadd(fmul(a, b), fmul(a, c)),
{
    lemma_fp_bounds();
    lemma_mul_mod_noop_general(a, b + c, fp());
    lemma_mod_twice(a, fp());
    lemma_mul_is_distributive_add(a, b, c);
    lemma_add_mod_noop(a * b, a * c, fp());
}

/// Field addition is commutative.
pub proof fn lemma_fadd_comm(a: int, b: int)
    ensures
        fadd(a, b) == fadd(b, a),
{
}

/// Field addition is associative.
pub proof fn lemma_fadd_assoc(a: int, b: int, c: int)
    ensures
        fadd(a, fadd(b, c)) == fadd(fadd(a, b), c),
{
    lemma_fp_bounds();
    lemma_add_mod_noop(a, b + c, fp());
    lemma_add_mod_noop(a + b, c, fp());
    lemma_mod_twice(a, fp());
    lemma_mod_twice(c, fp());
    assert((a % fp() + (b + c) % fp()) % fp() == fadd(a, fadd(b, c))) by {
        lemma_add_mod_noop(a, (b + c) % fp(), fp());
        lemma_mod_twice(a, fp());
        lemma_mod_twice(b + c, fp());
    }
    assert(((a + b) % fp() + c % fp()) % fp() == fadd(fadd(a, b), c)) by {
        lemma_add_mod_noop((a + b) % fp(), c, fp());
        lemma_mod_twice(a + b, fp());
        lemma_mod_twice(c, fp());
    }
}

/// Neutral elements of the field operations.
pub proof fn lemma_field_units(a: int)
    ensures
        fadd(a, 0) == a % fp(),
        fadd(0, a) == a % fp(),
        fmul(a, 1) == a % fp(),
        fmul(1, a) == a % fp(),
        fmul(a, 0) == 0,
        fmul(0, a) == 0,
{
    lemma_fp_bounds();
    lemma_small_mod(0nat, fp() as nat);
}

/// Adding back a field difference restores the minuend's residue.
pub proof fn lemma_fadd_fsub_cancel(a: int, b: int)
    ensures
        fadd(a, fsub(b, a)) == b % fp(),
{
    lemma_fp_bounds();
    lemma_add_mod_noop(a, b - a, fp());
    lemma_add_mod_noop(a, (b - a) % fp(), fp());
    lemma_mod_twice(a, fp());
    lemma_mod_twice(b - a, fp());
}

/// Reducing an argument first does not change a field subtraction.
pub proof fn lemma_fsub_absorb(a: int, b: int)
    ensures
        fsub(a % fp(), b) == fsub(a, b),
        fsub(a, b % fp()) == fsub(a, b),
{
    lemma_fp_bounds();
    lemma_sub_mod_noop(a, b, fp());
    lemma_sub_mod_noop(a % fp(), b, fp());
    lemma_sub_mod_noop(a, b % fp(), fp());
    lemma_mod_twice(a, fp());
    lemma_mod_twice(b, fp());
}

/// Subtracting a summand undoes a field addition.
pub proof fn lemma_fsub_fadd_cancel(a: int, b: int)
    ensures
        fsub(fadd(a, b), b) == a % fp(),
{
    lemma_fp_bounds();
    lemma_fsub_absorb(a + b, b);
}

/// Adding a summand commutes with subtracting another.
pub proof fn lemma_fadd_fsub_swap(a: int, b: int, c: int)
    ensures
        fadd(fsub(a, c), b) == fsub(fadd(a, b), c),
{
    lemma_fadd_absorb(a - c, b);
    lemma_fsub_absorb(a + b, c);
}

/// Rebracketing a sum of two field sums.
pub proof fn lemma_fadd_shuffle4(a: int, b: int, c: int, d: int)
    ensures
        fadd(fadd(a, b), fadd(c, d)) == fadd(fadd(a, c), fadd(b, d)),
{
    lemma_fadd_assoc(fadd(a, b), c, d);
    lemma_fadd_assoc(a, b, c);
    lemma_fadd_comm(b, c);
    lemma_fadd_assoc(a, c, b);
    lemma_fadd_assoc(fadd(a, c), b, d);
}

/// Moving a factor out to the right across two other factors.
pub proof fn lemma_fmul_shuffle4(v: int, c: int, num: int, inv: int)
    ensures
        fmul(fmul(fmul(v, c), num), inv) == fmul(fmul(fmul(v, num), inv), c),
{
    lemma_fmul_assoc(v, c, num);
    lemma_fmul_comm(c, num);
    lemma_fmul_assoc(v, num, c);
    lemma_fmul_assoc(fmul(v, num), c, inv);
    lemma_fmul_comm(c, inv);
    lemma_fmul_assoc(fmul(v, num), inv, c);
}

/// The multiplicative inverse of a residue, where one exists.
pub open spec fn finv_p(a: int) -> int {
    choose|b: int| 0 <= b < fp() && fmul(a, b) == 1
}

/// Any witness to the inverse property is the inverse: inverses are unique.
pub proof fn lemma_finv_unique(a: int, b: int)
    requires
        0 <= b < fp(),
        fmul(a, b) == 1,
    ensures
        finv_p(a) == b,
{
    assert(exists|x: int| 0 <= x < fp() && fmul(a, x) == 1) by {
        assert(0 <= b < fp() && fmul(a, b) == 1);
    }
    let c = finv_p(a);
    assert(0 <= c < fp() && fmul(a, c) == 1);
    assert(fmul(b, fmul(a, c)) == fmul(fmul(b, a), c)) by {
        lemma_fmul_assoc(b, a, c);
    }
    assert(fmul(b, 1) == b) by {
        lemma_field_units(b);
        lemma_mod_noop_small(b);
    }
    assert(fmul(fmul(b, a), c) == fmul(1, c)) by {
        lemma_fmul_comm(b, a);
    }
    assert(fmul(1, c) == c) by {
        lemma_field_units(c);
        lemma_mod_noop_small(c);
    }
}

/// The inverse of one is one.
pub proof fn lemma_finv_one()
    ensures
        finv_p(1) == 1,
{
    lemma_fp_bounds();
    lemma_small_mod(1nat, fp() as nat);
    lemma_finv_unique(1, 1);
}

} // verus!
