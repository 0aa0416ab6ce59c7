//! The scalar field of BLS12-381, carried as canonical 32-byte
//! little-endian encodings. A value is well formed when its bytes denote an
//! integer below the group order; every arithmetic contract is stated
//! exactly over that integer, modulo the order.

use vstd::prelude::*;
use crate::bytes::le_nat;

verus! {

/// The order of the BLS12-381 scalar field (and of the groups G1, G2 and
/// the pairing target group): a 255-bit prime.
pub open spec fn fr_order() -> nat {
    0x73eda753299d7d483339d80809a1d80553bda402fffe5bfeffffffff00000001nat
}

/// Well-formed scalar bytes: 32 bytes whose little-endian value lies below
/// the field order, the unique canonical encoding of that field element.
pub open spec fn fr_ok(s: Seq<u8>) -> bool {
    s.len() == 32 && le_nat(s) < fr_order()
}

/// Relies on `bls12_381::Scalar`: `from_bytes` accepts exactly the
/// canonical little-endian encodings of values below the order, and the
/// `Add` impl is addition modulo the order, returned via `to_bytes` in
/// canonical form.
#[verifier::external_body]
pub fn scalar_add(a: &Vec<u8>, b: &Vec<u8>) -> (r: Vec<u8>)
    requires
        fr_ok(a@),
        fr_ok(b@),
    ensures
        r@.len() == 32,
        le_nat(r@) == (le_nat(a@) + le_nat(b@)) % fr_order(),
{
    let x = bls12_381::Scalar::from_bytes(a.as_slice().try_into().unwrap()).unwrap();
    let y = bls12_381::Scalar::from_bytes(b.as_slice().try_into().unwrap()).unwrap();
    (x + y).to_bytes().to_vec()
}

/// Relies on `bls12_381::Scalar`: the `Sub` impl is subtraction modulo the
/// order.
#[verifier::external_body]
pub fn scalar_sub(a: &Vec<u8>, b: &Vec<u8>) -> (r: Vec<u8>)
    requires
        fr_ok(a@),
        fr_ok(b@),
    ensures
        r@.len() == 32,
        le_nat(r@) == (le_nat(a@) + fr_order() - le_nat(b@)) % (fr_order() as int),
{
    let x = bls12_381::Scalar::from_bytes(a.as_slice().try_into().unwrap()).unwrap();
    let y = bls12_381::Scalar::from_bytes(b.as_slice().try_into().unwrap()).unwrap();
    (x - y).to_bytes().to_vec()
}

/// Relies on `bls12_381::Scalar`: the `Mul` impl is multiplication modulo
/// the order.
#[verifier::external_body]
pub fn scalar_mul(a: &Vec<u8>, b: &Vec<u8>) -> (r: Vec<u8>)
    requires
        fr_ok(a@),
        fr_ok(b@),
    ensures
        r@.len() == 32,
        le_nat(r@) == (le_nat(a@) * le_nat(b@)) % fr_order(),
{
    let x = bls12_381::Scalar::from_bytes(a.as_slice().try_into().unwrap()).unwrap();
    let y = bls12_381::Scalar::from_bytes(b.as_slice().try_into().unwrap()).unwrap();
    (x * y).to_bytes().to_vec()
}

/// Relies on `bls12_381::Scalar::invert`: for a nonzero element it returns
/// the multiplicative inverse modulo the order (the order is prime, so the
/// inverse exists and `invert` only fails on zero).
#[verifier::external_body]
pub fn scalar_invert(a: &Vec<u8>) -> (r: Vec<u8>)
    requires
        fr_ok(a@),
        le_nat(a@) != 0,
    ensures
        r@.len() == 32,
        le_nat(r@) < fr_order(),
        (le_nat(a@) * le_nat(r@)) % fr_order() == 1,
{
    let x = bls12_381::Scalar::from_bytes(a.as_slice().try_into().unwrap()).unwrap();
    x.invert().unwrap().to_bytes().to_vec()
}

/// Relies on `bls12_381::Scalar::from` for `u64`: the embedding of a small
/// integer, which lies far below the 255-bit order and so is unchanged.
#[verifier::external_body]
pub fn scalar_from_u64(x: u64) -> (r: Vec<u8>)
    ensures
        r@.len() == 32,
        le_nat(r@) == x as nat,
        le_nat(r@) < fr_order(),
{
    bls12_381::Scalar::from(x).to_bytes().to_vec()
}

/// Relies on `bls12_381::Scalar::from_bytes_wide`: reduces a 512-bit
/// little-endian integer modulo the order.
#[verifier::external_body]
pub fn scalar_from_wide(b: &Vec<u8>) -> (r: Vec<u8>)
    requires
        b@.len() == 64,
    ensures
        r@.len() == 32,
        le_nat(r@) == le_nat(b@) % fr_order(),
{
    let arr: [u8; 64] = b.as_slice().try_into().unwrap();
    bls12_381::Scalar::from_bytes_wide(&arr).to_bytes().to_vec()
}

/// Relies on `rand::rngs::ThreadRng` via `RngCore::fill_bytes`: a
/// cryptographically secure source; nothing is promised of the drawn bytes.
#[verifier::external_body]
pub fn random_bytes_64() -> (r: Vec<u8>)
    ensures
        r@.len() == 64,
{
    let mut buf = [0u8; 64];
    rand::RngCore::fill_bytes(&mut rand::thread_rng(), &mut buf);
    buf.to_vec()
}

} // verus!
