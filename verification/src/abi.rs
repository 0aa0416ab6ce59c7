//! The contract's call encoding for submitting a time-lock task: a
//! 4-byte method selector followed by the ABI encoding of one 256-bit
//! unsigned integer, two compressed-point byte strings of fixed width, and
//! a list of 32-byte share strings. The byte layout is stated exactly,
//! word by word; the decoder accepts exactly the canonical encodings and
//! returns the fields they carry, both directions proved.

use vstd::prelude::*;
use crate::bytes::{be_bytes, be_bytes_exec, be_val, bytes_eq, concat_bytes, zero_bytes, zero_bytes_spec, lemma_be_bytes_len, lemma_be_bytes_high_zeros, lemma_be_bytes_val, lemma_be_val_push, lemma_be_val_bound};
use crate::curve::{keccak_of, keccak256};
use crate::shamir::views_of;
use crate::CoreError;

verus! {

/// The ASCII bytes of the contract method's signature,
/// `sendTimeLockTransaction(uint256,bytes,bytes,bytes[])`.
pub open spec fn sig_bytes() -> Seq<u8> {
    seq![
        115u8, 101, 110, 100, 84, 105, 109, 101, 76, 111, 99, 107, 84, 114, 97, 110,
        115, 97, 99, 116, 105, 111, 110, 40, 117, 105, 110, 116, 50, 53, 54, 44,
        98, 121, 116, 101, 115, 44, 98, 121, 116, 101, 115, 44, 98, 121, 116, 101,
        115, 91, 93, 41,
    ]
}

/// The offset words of the share list: element `i` starts `32·n + 64·i`
/// bytes into the list's data area.
pub open spec fn share_heads(n: nat, i: nat) -> Seq<u8>
    decreases n - i,
{
    if i >= n {
        Seq::empty()
    } else {
        be_bytes(32 * n + 64 * i, 32) + share_heads(n, i + 1)
    }
}

/// The data words of the share list: each element is its 32-byte length
/// word followed by the 32 share bytes.
pub open spec fn share_tails(shares: Seq<Seq<u8>>, i: nat) -> Seq<u8>
    decreases shares.len() - i,
{
    if i >= shares.len() {
        Seq::empty()
    } else {
        be_bytes(32, 32) + shares[i as int] + share_tails(shares, i + 1)
    }
}

/// The ABI encoding of the call's arguments: the head words (the integer
/// and three offsets), then the G1 commitment (48 bytes, padded to a word
/// boundary), the G2 commitment (96 bytes), and the share list.
pub open spec fn encode_args_spec(time: nat, g1: Seq<u8>, g2: Seq<u8>, shares: Seq<Seq<u8>>) -> Seq<u8> {
    be_bytes(time, 32) + be_bytes(128, 32) + be_bytes(224, 32) + be_bytes(352, 32)
        + be_bytes(48, 32) + g1 + zero_bytes_spec(16)
        + be_bytes(96, 32) + g2
        + be_bytes(shares.len(), 32) + share_heads(shares.len(), 0) + share_tails(shares, 0)
}

/// The full call payload: the first four bytes of the signature's digest,
/// then the encoded arguments.
pub open spec fn encode_call_spec(time: nat, g1: Seq<u8>, g2: Seq<u8>, shares: Seq<Seq<u8>>) -> Seq<u8> {
    keccak_of(sig_bytes()).take(4) + encode_args_spec(time, g1, g2, shares)
}

/// The share heads occupy one word per share.
pub proof fn lemma_share_heads_len(n: nat, i: nat)
    requires
        i <= n,
    ensures
        share_heads(n, i).len() == 32 * (n - i),
    decreases n - i,
{
    broadcast use lemma_be_bytes_len;

    if i < n {
        lemma_share_heads_len(n, i + 1);
    }
}

/// The share tails occupy two words per share.
pub proof fn lemma_share_tails_len(shares: Seq<Seq<u8>>, i: nat)
    requires
        i <= shares.len(),
        forall|j: int| i <= j < shares.len() ==> (#[trigger] shares[j]).len() == 32,
    ensures
        share_tails(shares, i).len() == 64 * (shares.len() - i),
    decreases shares.len() - i,
{
    broadcast use lemma_be_bytes_len;

    if i < shares.len() {
        lemma_share_tails_len(shares, i + 1);
    }
}

/// The payload of `n` shares is `388 + 96·n` bytes long.
pub proof fn lemma_encode_call_len(time: nat, g1: Seq<u8>, g2: Seq<u8>, shares: Seq<Seq<u8>>)
    requires
        g1.len() == 48,
        g2.len() == 96,
        forall|j: int| 0 <= j < shares.len() ==> (#[trigger] shares[j]).len() == 32,
        keccak_of(sig_bytes()).len() == 32,
    ensures
        encode_call_spec(time, g1, g2, shares).len() == 388 + 96 * shares.len(),
{
    broadcast use lemma_be_bytes_len;

    lemma_share_heads_len(shares.len(), 0);
    lemma_share_tails_len(shares, 0);
}

/// Builds the method signature's ASCII bytes.
fn method_signature() -> (r: Vec<u8>)
    ensures
        r@ =~= sig_bytes(),
{
    let r: Vec<u8> = vec![
        115u8, 101, 110, 100, 84, 105, 109, 101, 76, 111, 99, 107, 84, 114, 97, 110,
        115, 97, 99, 116, 105, 111, 110, 40, 117, 105, 110, 116, 50, 53, 54, 44,
        98, 121, 116, 101, 115, 44, 98, 121, 116, 101, 115, 44, 98, 121, 116, 101,
        115, 91, 93, 41,
    ];
    r
}

/// Builds the offset words of the share list from element `i` on.
fn heads_exec(n: u64, i: u64) -> (r: Vec<u8>)
    requires
        i <= n,
        n <= 0x100000,
    ensures
        r@ == share_heads(n as nat, i as nat),
    decreases n - i,
{
    if i == n {
        Vec::new()
    } else {
        let w = be_bytes_exec(32 * n + 64 * i, 32);
        let rest = heads_exec(n, i + 1);
        let r = concat_bytes(&w, &rest);
        proof {
            assert(r@ =~= share_heads(n as nat, i as nat));
        }
        r
    }
}

/// Builds the data words of the share list from element `i` on.
fn tails_exec(shares: &Vec<Vec<u8>>, i: usize) -> (r: Vec<u8>)
    requires
        i <= shares@.len(),
    ensures
        r@ == share_tails(views_of(shares@), i as int as nat),
    decreases shares@.len() - i,
{
    if i == shares.len() {
        Vec::new()
    } else {
        let w = be_bytes_exec(32, 32);
        let body = concat_bytes(&w, &shares[i]);
        let rest = tails_exec(shares, i + 1);
        let r = concat_bytes(&body, &rest);
        proof {
            assert(views_of(shares@)[i as int] == shares@[i as int]@);
            assert(r@ =~= share_tails(views_of(shares@), i as nat));
        }
        r
    }
}

/// Encodes the public transcript into the contract's call payload.
pub fn encode_call(time: u64, g1r: &Vec<u8>, g2r: &Vec<u8>, shares: &Vec<Vec<u8>>) -> (r: Vec<u8>)
    requires
        g1r@.len() == 48,
        g2r@.len() == 96,
        forall|j: int| 0 <= j < shares@.len() ==> (#[trigger] shares@[j]@).len() == 32,
        shares@.len() <= 0x100000,
    ensures
        r@ == encode_call_spec(time as nat, g1r@, g2r@, views_of(shares@)),
        r@.len() == 388 + 96 * shares@.len(),
{
    let sig = method_signature();
    let digest = keccak256(&sig);
    let mut out: Vec<u8> = Vec::new();
    out.push(digest[0]);
    out.push(digest[1]);
    out.push(digest[2]);
    out.push(digest[3]);
    let n: u64 = shares.len() as u64;
    let mut parts = concat_bytes(&out, &be_bytes_exec(time, 32));
    parts = concat_bytes(&parts, &be_bytes_exec(128, 32));
    parts = concat_bytes(&parts, &be_bytes_exec(224, 32));
    parts = concat_bytes(&parts, &be_bytes_exec(352, 32));
    parts = concat_bytes(&parts, &be_bytes_exec(48, 32));
    parts = concat_bytes(&parts, g1r);
    parts = concat_bytes(&parts, &zero_bytes(16));
    parts = concat_bytes(&parts, &be_bytes_exec(96, 32));
    parts = concat_bytes(&parts, g2r);
    parts = concat_bytes(&parts, &be_bytes_exec(n, 32));
    parts = concat_bytes(&parts, &heads_exec(n, 0));
    parts = concat_bytes(&parts, &tails_exec(shares, 0));
    proof {
        assert(out@ =~= keccak_of(sig_bytes()).take(4));
        assert(views_of(shares@).len() == shares@.len());
        assert(parts@ =~= encode_call_spec(time as nat, g1r@, g2r@, views_of(shares@)));
        assert forall|j: int| 0 <= j < views_of(shares@).len()
            implies (#[trigger] views_of(shares@)[j]).len() == 32 by {
            assert(views_of(shares@)[j] == shares@[j]@);
        }
        lemma_encode_call_len(time as nat, g1r@, g2r@, views_of(shares@));
    }
    parts
}

/// Extracts the bytes at `[a, b)`.
fn subvec(c: &Vec<u8>, a: usize, b: usize) -> (r: Vec<u8>)
    requires
        a <= b,
        b <= c@.len(),
    ensures
        r@ =~= c@.subrange(a as int, b as int),
{
    let mut r: Vec<u8> = Vec::new();
    let mut i: usize = a;
    while i < b
        invariant
            a <= i <= b,
            b <= c@.len(),
            r@ =~= c@.subrange(a as int, i as int),
        decreases b - i,
    {
        r.push(c[i]);
        i += 1;
    }
    r
}

/// Reads the eight bytes at `at` as a big-endian integer.
fn read_u64_at(c: &Vec<u8>, at: usize) -> (r: u64)
    requires
        at + 8 <= c@.len(),
    ensures
        r == be_val(c@.subrange(at as int, at + 8)),
{
    let clen: usize = c.len();
    let mut v: u64 = 0;
    let mut j: usize = 0;
    proof {
        assert(c@.subrange(at as int, at as int) =~= Seq::<u8>::empty());
        vstd::arithmetic::power::lemma_pow0(256);
    }
    while j < 8
        invariant
            j <= 8,
            at + 8 <= clen,
            clen == c@.len(),
            v == be_val(c@.subrange(at as int, at + j)),
            v < vstd::arithmetic::power::pow(256, j as nat),
        decreases 8 - j,
    {
        proof {
            let pre = c@.subrange(at as int, at + j);
            let post = c@.subrange(at as int, at + j + 1);
            assert(post =~= pre.push(c@[at + j]));
            lemma_be_val_push(pre, c@[at + j]);
            lemma_be_val_bound(post);
            assert(vstd::arithmetic::power::pow(256, (j + 1) as nat)
                <= vstd::arithmetic::power::pow(256, 8)) by {
                vstd::arithmetic::power::lemma_pow_increases(256, (j + 1) as nat, 8);
            }
            assert(vstd::arithmetic::power::pow(256, 8) == 0x10000000000000000) by {
                reveal_with_fuel(vstd::arithmetic::power::pow, 9);
            }
        }
        v = v * 256 + (c[at + j] as u64);
        j += 1;
    }
    v
}

/// Inside a payload whose share region is canonical, each share is the
/// byte range its element slot assigns it.
proof fn lemma_tails_slices(c: Seq<u8>, n: int, shares: Seq<Seq<u8>>, i: int)
    requires
        0 <= i <= n,
        shares.len() == n,
        c.len() == 388 + 96 * n,
        forall|k: int| i <= k < n ==> (#[trigger] shares[k]).len() == 32,
        c.subrange(388 + 32 * n + 64 * i, 388 + 96 * n) == share_tails(shares, i as nat),
    ensures
        forall|k: int| i <= k < n ==> #[trigger] shares[k]
            == c.subrange(388 + 32 * n + 64 * k + 32, 388 + 32 * n + 64 * k + 64),
    decreases n - i,
{
    broadcast use lemma_be_bytes_len;

    if i < n {
        lemma_share_tails_len(shares, (i + 1) as nat);
        let base = 388 + 32 * n;
        let region = c.subrange(base + 64 * i, 388 + 96 * n);
        let rest = share_tails(shares, (i + 1) as nat);
        assert(region == be_bytes(32, 32) + shares[i] + rest);
        assert(shares[i].len() == 32);
        assert(region.len() == 64 + rest.len());
        assert forall|j: int| 0 <= j < 32
            implies c.subrange(base + 64 * i + 32, base + 64 * i + 64)[j] == shares[i][j] by {
            assert(c.subrange(base + 64 * i + 32, base + 64 * i + 64)[j]
                == c[base + 64 * i + 32 + j]);
            assert(region[32 + j] == c[base + 64 * i + 32 + j]);
            assert((be_bytes(32, 32) + shares[i] + rest)[32 + j] == shares[i][j]);
        }
        assert(c.subrange(base + 64 * i + 32, base + 64 * i + 64) =~= shares[i]);
        assert forall|j: int| 0 <= j < rest.len()
            implies c.subrange(base + 64 * (i + 1), 388 + 96 * n)[j] == rest[j] by {
            assert(c.subrange(base + 64 * (i + 1), 388 + 96 * n)[j]
                == c[base + 64 * (i + 1) + j]);
            assert(region[64 + j] == c[base + 64 * i + 64 + j]);
            assert((be_bytes(32, 32) + shares[i] + rest)[64 + j] == rest[j]);
        }
        assert(c.subrange(base + 64 * (i + 1), 388 + 96 * n) =~= rest);
        lemma_tails_slices(c, n, shares, i + 1);
    }
}

/// A canonical payload parses back to exactly the transcript it encodes:
/// the count and time words carry the values, and each field sits in the
/// byte range the layout assigns it.
proof fn lemma_canonical_parses(c: Seq<u8>, t: nat, g1: Seq<u8>, g2: Seq<u8>, shares: Seq<Seq<u8>>)
    requires
        t < 0x10000000000000000,
        g1.len() == 48,
        g2.len() == 96,
        shares.len() <= 0x100000,
        forall|k: int| 0 <= k < shares.len() ==> (#[trigger] shares[k]).len() == 32,
        c == encode_call_spec(t, g1, g2, shares),
        keccak_of(sig_bytes()).len() == 32,
    ensures
        c.len() == 388 + 96 * shares.len(),
        be_val(c.subrange(380, 388)) == shares.len(),
        be_val(c.subrange(28, 36)) == t,
        c.subrange(164, 212) == g1,
        c.subrange(260, 356) == g2,
        forall|k: int| 0 <= k < shares.len() ==> #[trigger] shares[k]
            == c.subrange(388 + 32 * (shares.len() as int) + 64 * k + 32,
                388 + 32 * (shares.len() as int) + 64 * k + 64),
{
    broadcast use lemma_be_bytes_len;

    let n = shares.len() as int;
    lemma_encode_call_len(t, g1, g2, shares);
    lemma_share_heads_len(shares.len(), 0);
    lemma_share_tails_len(shares, 0);
    assert(c.subrange(164, 212) =~= g1);
    assert(c.subrange(260, 356) =~= g2);
    assert(c.subrange(4, 36) =~= be_bytes(t, 32));
    assert(c.subrange(356, 388) =~= be_bytes(shares.len(), 32));
    assert(c.subrange(388 + 32 * n, 388 + 96 * n) =~= share_tails(shares, 0));
    assert(vstd::arithmetic::power::pow(256, 8) == 0x10000000000000000) by {
        reveal_with_fuel(vstd::arithmetic::power::pow, 9);
    }
    lemma_be_bytes_high_zeros(shares.len(), 8, 32);
    assert(c.subrange(380, 388) =~= be_bytes(shares.len(), 8));
    lemma_be_bytes_val(shares.len(), 8);
    lemma_be_bytes_high_zeros(t, 8, 32);
    assert(c.subrange(28, 36) =~= be_bytes(t, 8));
    lemma_be_bytes_val(t, 8);
    lemma_tails_slices(c, n, shares, 0);
}

/// Decodes a call payload back into the transcript it carries, accepting
/// exactly the canonical encodings: the fields are read from their byte
/// ranges, re-encoded, and the payload must match byte for byte. A
/// payload built by `encode_call` therefore decodes, and anything else is
/// malformed.
pub fn decode_call(c: &Vec<u8>) -> (r: Result<(u64, Vec<u8>, Vec<u8>, Vec<Vec<u8>>), CoreError>)
    ensures
        r matches Ok(out) ==> {
            &&& c@ == encode_call_spec(out.0 as nat, out.1@, out.2@, views_of(out.3@))
            &&& out.1@ == c@.subrange(164, 212)
            &&& out.2@ == c@.subrange(260, 356)
            &&& out.3@.len() <= 0x100000
            &&& c@.len() == 388 + 96 * out.3@.len()
            &&& (forall|i: int| 0 <= i < out.3@.len() ==> (#[trigger] out.3@[i])@
                == c@.subrange(388 + 32 * (out.3@.len() as int) + 64 * i + 32,
                    388 + 32 * (out.3@.len() as int) + 64 * i + 64))
        },
        r is Err ==> r == Result::<(u64, Vec<u8>, Vec<u8>, Vec<Vec<u8>>), CoreError>::Err(
            CoreError::MalformedPayload),
        forall|t: nat, g1: Seq<u8>, g2: Seq<u8>, shares: Seq<Seq<u8>>|
            t < 0x10000000000000000 && g1.len() == 48 && g2.len() == 96
                && shares.len() <= 0x100000
                && (forall|k: int| 0 <= k < shares.len() ==> (#[trigger] shares[k]).len() == 32)
                && c@ == #[trigger] encode_call_spec(t, g1, g2, shares)
            ==> r is Ok,
{
    let sig = method_signature();
    let digest = keccak256(&sig);
    if c.len() < 388 {
        proof {
            assert forall|t: nat, g1: Seq<u8>, g2: Seq<u8>, shares: Seq<Seq<u8>>|
                t < 0x10000000000000000 && g1.len() == 48 && g2.len() == 96
                    && shares.len() <= 0x100000
                    && (forall|k: int| 0 <= k < shares.len() ==> (#[trigger] shares[k]).len() == 32)
                    && c@ == #[trigger] encode_call_spec(t, g1, g2, shares)
                implies false by {
                lemma_canonical_parses(c@, t, g1, g2, shares);
            }
        }
        return Err(CoreError::MalformedPayload);
    }
    let n64 = read_u64_at(c, 380);
    let count_bad = n64 > 0x100000;
    let len_bad = !count_bad && c.len() != 388 + 96 * (n64 as usize);
    if count_bad || len_bad {
        proof {
            assert forall|t: nat, g1: Seq<u8>, g2: Seq<u8>, shares: Seq<Seq<u8>>|
                t < 0x10000000000000000 && g1.len() == 48 && g2.len() == 96
                    && shares.len() <= 0x100000
                    && (forall|k: int| 0 <= k < shares.len() ==> (#[trigger] shares[k]).len() == 32)
                    && c@ == #[trigger] encode_call_spec(t, g1, g2, shares)
                implies false by {
                lemma_canonical_parses(c@, t, g1, g2, shares);
            }
        }
        return Err(CoreError::MalformedPayload);
    }
    let n: usize = n64 as usize;
    let time = read_u64_at(c, 28);
    let g1 = subvec(c, 164, 212);
    let g2 = subvec(c, 260, 356);
    let mut shares: Vec<Vec<u8>> = Vec::new();
    let mut i: usize = 0;
    while i < n
        invariant
            i <= n,
            n <= 0x100000,
            n64 == n as u64,
            c@.len() == 388 + 96 * n,
            shares@.len() == i,
            forall|k: int| 0 <= k < i ==> (#[trigger] shares@[k])@
                == c@.subrange(388 + 32 * (n as int) + 64 * k + 32,
                    388 + 32 * (n as int) + 64 * k + 64),
        decreases n - i,
    {
        let base: usize = 388 + 32 * n + 64 * i;
        let sh = subvec(c, base + 32, base + 64);
        shares.push(sh);
        i += 1;
    }
    proof {
        assert forall|k: int| 0 <= k < shares@.len()
            implies (#[trigger] shares@[k]@).len() == 32 by {
        }
    }
    let reencoded = encode_call(time, &g1, &g2, &shares);
    if bytes_eq(&reencoded, c) {
        proof {
            assert(c@ == encode_call_spec(time as nat, g1@, g2@, views_of(shares@)));
        }
        Ok((time, g1, g2, shares))
    } else {
        proof {
            assert forall|t: nat, ga: Seq<u8>, gb: Seq<u8>, shs: Seq<Seq<u8>>|
                t < 0x10000000000000000 && ga.len() == 48 && gb.len() == 96
                    && shs.len() <= 0x100000
                    && (forall|k: int| 0 <= k < shs.len() ==> (#[trigger] shs[k]).len() == 32)
                    && c@ == #[trigger] encode_call_spec(t, ga, gb, shs)
                implies false by {
                lemma_canonical_parses(c@, t, ga, gb, shs);
                assert(n as int == shs.len());
                assert(time as nat == t);
                assert(g1@ =~= ga);
                assert(g2@ =~= gb);
                assert forall|k: int| 0 <= k < shs.len()
                    implies #[trigger] views_of(shares@)[k] == shs[k] by {
                    assert(views_of(shares@)[k] == shares@[k]@);
                }
                assert(views_of(shares@) =~= shs);
                assert(reencoded@ == c@);
            }
        }
        Err(CoreError::MalformedPayload)
    }
}

} // verus!
