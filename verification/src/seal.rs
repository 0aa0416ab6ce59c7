//! Authenticated sealing of the message under the derived symmetric key:
//! a Keccak-based keystream cipher with a Keccak tag over the ciphertext.
//! Opening verifies the tag and fails closed on any mismatch. A given
//! `(key, nonce)` pair must key at most one seal across all tasks; the
//! nonce is derived per task from the G1 commitment, never a constant.

use vstd::prelude::*;
use crate::bytes::{be_bytes, be_bytes_exec, bytes_eq, concat_bytes};
use crate::curve::{keccak_of, keccak256};

verus! {

/// The keystream block index `b` is keyed by `key`, `nonce` and the
/// big-endian 8-byte counter.
pub open spec fn block_input(key: Seq<u8>, nonce: Seq<u8>, b: nat) -> Seq<u8> {
    key + nonce + be_bytes(b, 8)
}

/// Byte `i` of the keystream: byte `i % 32` of the digest of block
/// `i / 32`.
pub open spec fn keystream_byte(key: Seq<u8>, nonce: Seq<u8>, i: nat) -> u8 {
    keccak_of(block_input(key, nonce, i / 32))[(i % 32) as int]
}

/// The ciphertext body: the message XORed with the keystream.
pub open spec fn cipher_spec(m: Seq<u8>, key: Seq<u8>, nonce: Seq<u8>) -> Seq<u8> {
    Seq::new(m.len(), |i: int| m[i] ^ keystream_byte(key, nonce, i as nat))
}

/// The tag over a ciphertext body: the digest of key, nonce and body.
pub open spec fn tag_spec(body: Seq<u8>, key: Seq<u8>, nonce: Seq<u8>) -> Seq<u8> {
    keccak_of(key + nonce + body)
}

/// The sealed form: ciphertext body followed by its tag.
pub open spec fn seal_spec(m: Seq<u8>, key: Seq<u8>, nonce: Seq<u8>) -> Seq<u8> {
    cipher_spec(m, key, nonce) + tag_spec(cipher_spec(m, key, nonce), key, nonce)
}

/// The result of opening: the unmasked body when the trailing 32 bytes are
/// the body's tag, nothing otherwise.
pub open spec fn open_spec(c: Seq<u8>, key: Seq<u8>, nonce: Seq<u8>) -> Option<Seq<u8>> {
    if c.len() < 32 {
        None
    } else {
        let body = c.subrange(0, c.len() - 32);
        let tag = c.subrange(c.len() - 32, c.len() as int);
        if tag == tag_spec(body, key, nonce) {
            Some(cipher_spec(body, key, nonce))
        } else {
            None
        }
    }
}

/// XORs `m` with the keystream drawn from `key` and `nonce`.
fn apply_keystream(m: &Vec<u8>, key: &Vec<u8>, nonce: &Vec<u8>) -> (r: Vec<u8>)
    ensures
        r@ =~= cipher_spec(m@, key@, nonce@),
{
    let mut r: Vec<u8> = Vec::new();
    let mut i: usize = 0;
    while i < m.len()
        invariant
            i <= m@.len(),
            r@.len() == i,
            forall|j: int| 0 <= j < i ==> r@[j] == (m@[j] ^ keystream_byte(key@, nonce@, j as nat)),
        decreases m@.len() - i,
    {
        let b: u64 = (i / 32) as u64;
        let counter = be_bytes_exec(b, 8);
        let input = concat_bytes(&concat_bytes(key, nonce), &counter);
        let block = keccak256(&input);
        proof {
            assert(input@ =~= block_input(key@, nonce@, b as nat));
            assert(b as nat == i as nat / 32);
        }
        r.push(m[i] ^ block[i % 32]);
        i += 1;
    }
    r
}

/// Seals `m` under `key` and `nonce`: the ciphertext body followed by a
/// 32-byte tag. Opening the result with the same key and nonce gives the
/// message back, for every message, key and nonce.
pub fn seal(m: &Vec<u8>, key: &Vec<u8>, nonce: &Vec<u8>) -> (c: Vec<u8>)
    ensures
        c@ == seal_spec(m@, key@, nonce@),
        c@.len() == m@.len() + 32,
        open_spec(c@, key@, nonce@) == Some(m@),
{
    let body = apply_keystream(m, key, nonce);
    let tag_input = concat_bytes(&concat_bytes(key, nonce), &body);
    let tag = keccak256(&tag_input);
    let c = concat_bytes(&body, &tag);
    proof {
        assert(tag_input@ =~= key@ + nonce@ + body@);
        assert(c@ =~= seal_spec(m@, key@, nonce@));
        let cl = c@.len() as int;
        assert(c@.subrange(0, cl - 32) =~= body@);
        assert(c@.subrange(cl - 32, cl) =~= tag@);
        let unmasked = cipher_spec(body@, key@, nonce@);
        assert forall|j: int| 0 <= j < m@.len() implies unmasked[j] == m@[j] by {
            let x = m@[j];
            let y = keystream_byte(key@, nonce@, j as nat);
            assert((x ^ y) ^ y == x) by (bit_vector);
        }
        assert(unmasked =~= m@);
    }
    c
}

/// Opens a sealed byte string: verifies the tag over key, nonce and body
/// and unmasks the body; returns nothing on any mismatch.
pub fn open(c: &Vec<u8>, key: &Vec<u8>, nonce: &Vec<u8>) -> (r: Option<Vec<u8>>)
    ensures
        match r {
            Some(m) => open_spec(c@, key@, nonce@) == Some(m@),
            None => open_spec(c@, key@, nonce@) is None,
        },
{
    if c.len() < 32 {
        return None;
    }
    let split: usize = c.len() - 32;
    let mut body: Vec<u8> = Vec::new();
    let mut i: usize = 0;
    while i < split
        invariant
            i <= split,
            split + 32 == c@.len(),
            body@ =~= c@.subrange(0, i as int),
        decreases split - i,
    {
        body.push(c[i]);
        i += 1;
    }
    let mut tag: Vec<u8> = Vec::new();
    let mut j: usize = split;
    while j < c.len()
        invariant
            split <= j <= c@.len(),
            split + 32 == c@.len(),
            tag@ =~= c@.subrange(split as int, j as int),
        decreases c@.len() - j,
    {
        tag.push(c[j]);
        j += 1;
    }
    let tag_input = concat_bytes(&concat_bytes(key, nonce), &body);
    let expected = keccak256(&tag_input);
    proof {
        assert(body@ =~= c@.subrange(0, c@.len() - 32));
        assert(tag@ =~= c@.subrange(c@.len() - 32, c@.len() as int));
        assert(tag_input@ =~= key@ + nonce@ + body@);
    }
    if bytes_eq(&tag, &expected) {
        Some(apply_keystream(&body, key, nonce))
    } else {
        None
    }
}

} // verus!
