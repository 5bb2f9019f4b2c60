//! Trusted wrappers around the `halo2curves` implementation of the field.
//!
//! Values cross this boundary as canonical little-endian 32-byte
//! representations (`PrimeField::to_repr`), which is how the library stores
//! field elements. Each wrapper turns its arguments back into `Fr` with
//! `from_repr` (which succeeds on canonical input), makes one call and
//! returns the canonical representation of the result.

use ff::{Field, PrimeField};
use halo2curves::bls12381::Fr;
use halo2curves::serde::SerdeObject;
use vstd::prelude::*;

use crate::arith::{fadd, fmul, fsub, le_nat, limbs_nat, modulus, montgomery_radix};

verus! {

/// Calls `Fr::ZERO`: the additive identity.
#[verifier::external_body]
pub(crate) fn fr_zero() -> (res: [u8; 32])
    ensures
        le_nat(res@) == 0,
{
    Fr::ZERO.to_repr().into()
}

/// Calls `Fr::ONE`: the multiplicative identity.
#[verifier::external_body]
pub(crate) fn fr_one() -> (res: [u8; 32])
    ensures
        le_nat(res@) == 1,
{
    Fr::ONE.to_repr().into()
}

/// Calls `Fr::from(u64)`: the element whose value is `n` (every `u64` is below `r`).
#[verifier::external_body]
pub(crate) fn fr_from_u64(n: u64) -> (res: [u8; 32])
    ensures
        le_nat(res@) == n,
{
    Fr::from(n).to_repr().into()
}

/// Calls `Fr::from_raw`: the element congruent to the little-endian limbs modulo `r`.
#[verifier::external_body]
pub(crate) fn fr_from_raw(limbs: [u64; 4]) -> (res: [u8; 32])
    ensures
        le_nat(res@) == limbs_nat(limbs@) % modulus(),
{
    Fr::from_raw(limbs).to_repr().into()
}

/// Calls `Fr::from_repr`: succeeds exactly on canonical encodings (value below `r`),
/// and then encodes back to the same bytes.
#[verifier::external_body]
pub(crate) fn fr_from_repr(bytes: [u8; 32]) -> (res: Option<[u8; 32]>)
    ensures
        res is Some <==> le_nat(bytes@) < modulus(),
        res matches Some(r) ==> r@ == bytes@,
{
    let v: Option<Fr> = Fr::from_repr(bytes.into()).into();
    match v {
        Some(x) => Some(x.to_repr().into()),
        None => None,
    }
}

/// Calls `Fr + Fr`: the sum of two canonical field elements, reduced modulo `r`.
#[verifier::external_body]
pub(crate) fn fr_add(a: [u8; 32], b: [u8; 32]) -> (res: [u8; 32])
    requires
        le_nat(a@) < modulus(),
        le_nat(b@) < modulus(),
    ensures
        le_nat(res@) == fadd(le_nat(a@), le_nat(b@)),
{
    let x = Fr::from_repr(a.into()).unwrap();
    let y = Fr::from_repr(b.into()).unwrap();
    (x + y).to_repr().into()
}

/// Calls `Fr - Fr`: the difference modulo `r`.
#[verifier::external_body]
pub(crate) fn fr_sub(a: [u8; 32], b: [u8; 32]) -> (res: [u8; 32])
    requires
        le_nat(a@) < modulus(),
        le_nat(b@) < modulus(),
    ensures
        le_nat(res@) == fsub(le_nat(a@), le_nat(b@)),
{
    let x = Fr::from_repr(a.into()).unwrap();
    let y = Fr::from_repr(b.into()).unwrap();
    (x - y).to_repr().into()
}

/// Calls `Fr * Fr`: the product modulo `r`.
#[verifier::external_body]
pub(crate) fn fr_mul(a: [u8; 32], b: [u8; 32]) -> (res: [u8; 32])
    requires
        le_nat(a@) < modulus(),
        le_nat(b@) < modulus(),
    ensures
        le_nat(res@) == fmul(le_nat(a@), le_nat(b@)),
{
    let x = Fr::from_repr(a.into()).unwrap();
    let y = Fr::from_repr(b.into()).unwrap();
    (x * y).to_repr().into()
}

/// Calls `Field::square`: the square modulo `r`.
#[verifier::external_body]
pub(crate) fn fr_square(a: [u8; 32]) -> (res: [u8; 32])
    requires
        le_nat(a@) < modulus(),
    ensures
        le_nat(res@) == fmul(le_nat(a@), le_nat(a@)),
{
    Fr::from_repr(a.into()).unwrap().square().to_repr().into()
}

/// Calls `Field::invert`: fails exactly on zero; otherwise returns the
/// canonical element whose product with the argument is one.
#[verifier::external_body]
pub(crate) fn fr_invert(a: [u8; 32]) -> (res: Option<[u8; 32]>)
    requires
        le_nat(a@) < modulus(),
    ensures
        res is Some <==> le_nat(a@) != 0,
        res matches Some(w) ==> le_nat(w@) < modulus() && fmul(le_nat(a@), le_nat(w@)) == 1,
{
    let inv: Option<Fr> = Fr::from_repr(a.into()).unwrap().invert().into();
    match inv {
        Some(y) => Some(y.to_repr().into()),
        None => None,
    }
}

/// Calls `Field::is_zero`.
#[verifier::external_body]
pub(crate) fn fr_is_zero(a: [u8; 32]) -> (res: bool)
    requires
        le_nat(a@) < modulus(),
    ensures
        res == (le_nat(a@) == 0),
{
    bool::from(Fr::from_repr(a.into()).unwrap().is_zero())
}

/// Calls `SerdeObject::to_raw_bytes`: the 32 little-endian bytes of the
/// Montgomery form `a * 2^256 mod r`.
#[verifier::external_body]
pub(crate) fn fr_to_raw_bytes(a: [u8; 32]) -> (res: Vec<u8>)
    requires
        le_nat(a@) < modulus(),
    ensures
        res@.len() == 32,
        le_nat(res@) == (le_nat(a@) * montgomery_radix()) % modulus(),
{
    Fr::from_repr(a.into()).unwrap().to_raw_bytes()
}

/// Calls `SerdeObject::from_raw_bytes`: accepts exactly 32 bytes whose
/// little-endian value is below `r`, read as a Montgomery form; the element
/// returned is the one whose Montgomery form they are.
#[verifier::external_body]
pub(crate) fn fr_from_raw_bytes(bytes: &[u8]) -> (res: Option<[u8; 32]>)
    ensures
        res is Some <==> (bytes@.len() == 32 && le_nat(bytes@) < modulus()),
        res matches Some(r) ==> le_nat(r@) < modulus() && (le_nat(r@) * montgomery_radix())
            % modulus() == le_nat(bytes@),
{
    match Fr::from_raw_bytes(bytes) {
        Some(x) => Some(x.to_repr().into()),
        None => None,
    }
}

/// Calls `Ord::cmp` on `Fr`, which compares the canonical values.
#[verifier::external_body]
pub(crate) fn fr_compare(a: [u8; 32], b: [u8; 32]) -> (res: core::cmp::Ordering)
    requires
        le_nat(a@) < modulus(),
        le_nat(b@) < modulus(),
    ensures
        (res == core::cmp::Ordering::Less) <==> le_nat(a@) < le_nat(b@),
        (res == core::cmp::Ordering::Equal) <==> le_nat(a@) == le_nat(b@),
        (res == core::cmp::Ordering::Greater) <==> le_nat(a@) > le_nat(b@),
{
    let x = Fr::from_repr(a.into()).unwrap();
    let y = Fr::from_repr(b.into()).unwrap();
    x.cmp(&y)
}

/// Reads `PrimeField::ROOT_OF_UNITY`: `7^((r - 1) / 2^32) mod r`, a primitive
/// `2^32`-th root of unity (computed so by the field's derive macro from the
/// multiplicative generator 7).
#[verifier::external_body]
pub(crate) fn fr_root_of_unity() -> (res: [u8; 32])
    ensures
        le_nat(res@) == 10238227357739495823651030575849232062558860180284477541189508159991286009131nat,
{
    Fr::ROOT_OF_UNITY.to_repr().into()
}

/// Reads `PrimeField::S`: the 2-adicity of `r - 1`, which is 32.
#[verifier::external_body]
pub(crate) fn fr_two_adicity() -> (res: u32)
    ensures
        res == 32,
{
    Fr::S
}

} // verus!
