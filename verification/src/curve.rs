//! The two elliptic-curve groups of BLS12-381, their pairing, and the
//! Keccak-256 digest, behind trusted wrappers. Points travel as compressed
//! byte strings; results that no short formula states (a base-point
//! multiple, a pairing value, a digest) are given uninterpreted names, each
//! a function of its byte arguments alone.

use vstd::prelude::*;
use crate::bytes::le_nat;
use crate::fr::fr_ok;

verus! {

/// The compressed bytes of `k · G1`, for the fixed G1 base point.
pub uninterp spec fn g1_of(k: nat) -> Seq<u8>;

/// The compressed bytes of `k · G2`, for the fixed G2 base point.
pub uninterp spec fn g2_of(k: nat) -> Seq<u8>;

/// Whether 48 bytes decompress to a valid G1 point.
pub uninterp spec fn g1_ok(p: Seq<u8>) -> bool;

/// Whether 96 bytes decompress to a valid G2 point.
pub uninterp spec fn g2_ok(p: Seq<u8>) -> bool;

/// The textual serialization of the pairing of two compressed points.
pub uninterp spec fn pairing_of(p: Seq<u8>, g: Seq<u8>) -> Seq<u8>;

/// The Keccak-256 digest of a byte string.
pub uninterp spec fn keccak_of(data: Seq<u8>) -> Seq<u8>;

/// Relies on `bls12_381::G1Projective`: multiplication of the generator by
/// a scalar, compressed to 48 bytes; the compressed form of a valid point
/// decompresses again.
#[verifier::external_body]
pub fn g1_mul_base(k: &Vec<u8>) -> (r: Vec<u8>)
    requires
        fr_ok(k@),
    ensures
        r@ == g1_of(le_nat(k@)),
        r@.len() == 48,
        g1_ok(r@),
{
    let s = bls12_381::Scalar::from_bytes(k.as_slice().try_into().unwrap()).unwrap();
    let p = bls12_381::G1Projective::generator() * s;
    bls12_381::G1Affine::from(&p).to_compressed().to_vec()
}

/// Relies on `bls12_381::G2Projective`: multiplication of the generator by
/// a scalar, compressed to 96 bytes; the compressed form of a valid point
/// decompresses again.
#[verifier::external_body]
pub fn g2_mul_base(k: &Vec<u8>) -> (r: Vec<u8>)
    requires
        fr_ok(k@),
    ensures
        r@ == g2_of(le_nat(k@)),
        r@.len() == 96,
        g2_ok(r@),
{
    let s = bls12_381::Scalar::from_bytes(k.as_slice().try_into().unwrap()).unwrap();
    let p = bls12_381::G2Projective::generator() * s;
    bls12_381::G2Affine::from(&p).to_compressed().to_vec()
}

/// Relies on `bls12_381::G1Affine::from_compressed`: succeeds exactly on
/// the compressed encodings of points on the curve (in the right subgroup).
#[verifier::external_body]
pub fn g1_check(p: &Vec<u8>) -> (r: bool)
    requires
        p@.len() == 48,
    ensures
        r == g1_ok(p@),
{
    let arr: [u8; 48] = p.as_slice().try_into().unwrap();
    bool::from(bls12_381::G1Affine::from_compressed(&arr).is_some())
}

/// Relies on `bls12_381::pairing`: the bilinear map G1 x G2 into the target
/// group; its value, rendered through the target group's debug form,
/// depends on the two points alone.
#[verifier::external_body]
pub fn pairing_compressed(p: &Vec<u8>, g: &Vec<u8>) -> (r: Vec<u8>)
    requires
        p@.len() == 48,
        g1_ok(p@),
        g@.len() == 96,
        g2_ok(g@),
    ensures
        r@ == pairing_of(p@, g@),
{
    let a = bls12_381::G1Affine::from_compressed(p.as_slice().try_into().unwrap()).unwrap();
    let b = bls12_381::G2Affine::from_compressed(g.as_slice().try_into().unwrap()).unwrap();
    format!("{:?}", bls12_381::pairing(&a, &b)).into_bytes()
}

/// Relies on `tiny_keccak::Keccak::v256`: the Keccak-256 digest, 32 bytes,
/// a function of the input bytes alone.
#[verifier::external_body]
pub fn keccak256(data: &Vec<u8>) -> (r: Vec<u8>)
    ensures
        r@ == keccak_of(data@),
        r@.len() == 32,
{
    let mut h = tiny_keccak::Keccak::v256();
    tiny_keccak::Hasher::update(&mut h, data.as_slice());
    let mut out = [0u8; 32];
    tiny_keccak::Hasher::finalize(h, &mut out);
    out.to_vec()
}

} // verus!
