//! The proving field: elements of the Pallas base field and the arithmetic on
//! them, stated over the integer in `[0, p)` that each element stands for.

use vstd::prelude::*;
use pasta_curves::Fp;
use pasta_curves::group::ff::PrimeField;

verus! {

/// `pasta_curves::Fp`: an element of the Pallas base field, opaque here.
#[verifier::external_type_specification]
#[verifier::external_body]
pub struct ExFp(Fp);

/// The integer in `[0, p)` that a field element stands for.
pub uninterp spec fn fp_value(x: Fp) -> nat;

/// The characteristic `p` of the field.
pub open spec fn modulus() -> nat {
    0x40000000000000000000000000000000224698fc094cf91b992d30ed00000001nat
}

/// Sum of two residues.
pub open spec fn add_mod(a: nat, b: nat) -> nat {
    (a + b) % modulus()
}

/// Product of two residues.
pub open spec fn mul_mod(a: nat, b: nat) -> nat {
    (a * b) % modulus()
}

/// Additive inverse of a residue.
pub open spec fn neg_mod(a: nat) -> nat {
    ((modulus() - a % modulus()) % (modulus() as int)) as nat
}

/// The integer that four 64-bit words stand for, least significant word first.
pub open spec fn words_value(w: (u64, u64, u64, u64)) -> nat {
    (w.0 as nat) + (w.1 as nat) * 0x1_0000_0000_0000_0000nat + (w.2 as nat)
        * 0x1_0000_0000_0000_0000_0000_0000_0000_0000nat + (w.3 as nat)
        * 0x1_0000_0000_0000_0000_0000_0000_0000_0000_0000_0000_0000_0000nat
}

/// `Fp::from(u64)`: the element that stands for `x`.
#[verifier::external_body]
pub(crate) fn fp_from_u64(x: u64) -> (r: Fp)
    ensures
        fp_value(r) == x,
{
    Fp::from(x)
}

/// `Fp + Fp`: addition modulo `p`.
#[verifier::external_body]
pub(crate) fn fp_add(a: Fp, b: Fp) -> (r: Fp)
    ensures
        fp_value(r) == add_mod(fp_value(a), fp_value(b)),
{
    a + b
}

/// `Fp * Fp`: multiplication modulo `p`.
#[verifier::external_body]
pub(crate) fn fp_mul(a: Fp, b: Fp) -> (r: Fp)
    ensures
        fp_value(r) == mul_mod(fp_value(a), fp_value(b)),
{
    a * b
}

/// `-Fp`: the additive inverse modulo `p`.
#[verifier::external_body]
pub(crate) fn fp_neg(a: Fp) -> (r: Fp)
    ensures
        fp_value(r) == neg_mod(fp_value(a)),
{
    -a
}

/// `PrimeField::to_repr`: the canonical little-endian representation, read as
/// four 64-bit words. The integer it stands for is below `p`.
#[verifier::external_body]
pub(crate) fn fp_words(a: Fp) -> (r: (u64, u64, u64, u64))
    ensures
        words_value(r) == fp_value(a),
        words_value(r) < modulus(),
{
    let b = a.to_repr();
    (
        u64::from_le_bytes(b[0..8].try_into().unwrap()),
        u64::from_le_bytes(b[8..16].try_into().unwrap()),
        u64::from_le_bytes(b[16..24].try_into().unwrap()),
        u64::from_le_bytes(b[24..32].try_into().unwrap()),
    )
}

/// A witness value: a field element, or nothing while it is not yet known.
pub open spec fn value_view(v: Option<Fp>) -> Option<nat> {
    match v {
        Some(x) => Some(fp_value(x)),
        None => None,
    }
}

/// The view of each of a vector of witness values.
pub open spec fn values_view(v: Seq<Option<Fp>>) -> Seq<Option<nat>> {
    Seq::new(v.len(), |i: int| value_view(v[i]))
}

/// The view of each of a grid of witness values.
pub open spec fn grid_view(g: Seq<Vec<Option<Fp>>>) -> Seq<Seq<Option<nat>>> {
    Seq::new(g.len(), |i: int| values_view(g[i]@))
}

/// Whether `a` is unknown or the value `b`: what a cell may carry of a value
/// that was written to it.
pub open spec fn refines(a: Option<nat>, b: Option<nat>) -> bool {
    a is None || a == b
}

/// Sum of two witness values; unknown as soon as one of them is.
pub open spec fn add_opt(a: Option<nat>, b: Option<nat>) -> Option<nat> {
    match (a, b) {
        (Some(x), Some(y)) => Some(add_mod(x, y)),
        _ => None,
    }
}

/// Product of two witness values; unknown as soon as one of them is.
pub open spec fn mul_opt(a: Option<nat>, b: Option<nat>) -> Option<nat> {
    match (a, b) {
        (Some(x), Some(y)) => Some(mul_mod(x, y)),
        _ => None,
    }
}

/// Adds two witness values.
pub fn value_add(a: Option<Fp>, b: Option<Fp>) -> (r: Option<Fp>)
    ensures
        value_view(r) == add_opt(value_view(a), value_view(b)),
{
    match (a, b) {
        (Some(x), Some(y)) => Some(fp_add(x, y)),
        _ => None,
    }
}

/// Multiplies two witness values.
pub fn value_mul(a: Option<Fp>, b: Option<Fp>) -> (r: Option<Fp>)
    ensures
        value_view(r) == mul_opt(value_view(a), value_view(b)),
{
    match (a, b) {
        (Some(x), Some(y)) => Some(fp_mul(x, y)),
        _ => None,
    }
}

/// The known witness value zero.
pub fn value_zero() -> (r: Option<Fp>)
    ensures
        value_view(r) == Some(0nat),
{
    Some(fp_from_u64(0))
}

} // verus!
