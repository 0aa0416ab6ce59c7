//! Byte-sequence arithmetic: little-endian and big-endian integer views of
//! byte strings, zero tests, and bytewise exclusive-or. These are the plain
//! values over which the curve and field contracts are stated.

use vstd::prelude::*;

verus! {

/// The natural number a byte sequence denotes in little-endian base 256.
pub open spec fn le_nat(s: Seq<u8>) -> nat
    decreases s.len(),
{
    if s.len() == 0 {
        0
    } else {
        s[0] as nat + 256 * le_nat(s.subrange(1, s.len() as int))
    }
}

/// The big-endian base-256 encoding of `n` into exactly `len` bytes
/// (truncating high bytes if `n` does not fit).
pub open spec fn be_bytes(n: nat, len: nat) -> Seq<u8>
    decreases len,
{
    if len == 0 {
        Seq::empty()
    } else {
        be_bytes(n / 256, (len - 1) as nat).push((n % 256) as u8)
    }
}

/// The natural number a byte sequence denotes in big-endian base 256.
pub open spec fn be_val(s: Seq<u8>) -> nat
    decreases s.len(),
{
    if s.len() == 0 {
        0
    } else {
        be_val(s.drop_last()) * 256 + s.last() as nat
    }
}

/// Reading one more big-endian byte multiplies the value by 256 and adds
/// the byte.
pub proof fn lemma_be_val_push(s: Seq<u8>, b: u8)
    ensures
        be_val(s.push(b)) == be_val(s) * 256 + b,
{
    assert(s.push(b).drop_last() =~= s);
    assert(s.push(b).last() == b);
}

/// A big-endian string of `len` bytes denotes less than `256^len`.
pub proof fn lemma_be_val_bound(s: Seq<u8>)
    ensures
        be_val(s) < vstd::arithmetic::power::pow(256, s.len()),
    decreases s.len(),
{
    vstd::arithmetic::power::lemma_pow_positive(256, s.len());
    if s.len() > 0 {
        lemma_be_val_bound(s.drop_last());
        assert(vstd::arithmetic::power::pow(256, s.len())
            == 256 * vstd::arithmetic::power::pow(256, (s.len() - 1) as nat)) by {
            vstd::arithmetic::power::lemma_pow1(256);
            vstd::arithmetic::power::lemma_pow_adds(256, 1, (s.len() - 1) as nat);
        }
    }
}

/// Zero encodes to all-zero bytes at every width.
pub proof fn lemma_be_bytes_zero(len: nat)
    ensures
        be_bytes(0, len) =~= zero_bytes_spec(len),
    decreases len,
{
    if len > 0 {
        lemma_be_bytes_zero((len - 1) as nat);
        assert(be_bytes(0, len) =~= zero_bytes_spec((len - 1) as nat).push(0u8));
    }
}

/// A value below `256^k` fills only the low `k` bytes of a wider
/// big-endian encoding; the rest are zero.
pub proof fn lemma_be_bytes_high_zeros(n: nat, k: nat, len: nat)
    requires
        k <= len,
        n < vstd::arithmetic::power::pow(256, k),
    ensures
        be_bytes(n, len) =~= zero_bytes_spec((len - k) as nat) + be_bytes(n, k),
    decreases k,
{
    broadcast use lemma_be_bytes_len;

    if k == 0 {
        vstd::arithmetic::power::lemma_pow0(256);
        lemma_be_bytes_zero(len);
        assert(be_bytes(n, len) =~= zero_bytes_spec((len - k) as nat) + be_bytes(n, k));
    } else {
        assert(((n / 256) as int) < vstd::arithmetic::power::pow(256, (k - 1) as nat)) by {
            assert(vstd::arithmetic::power::pow(256, k)
                == 256 * vstd::arithmetic::power::pow(256, (k - 1) as nat)) by {
                vstd::arithmetic::power::lemma_pow1(256);
                vstd::arithmetic::power::lemma_pow_adds(256, 1, (k - 1) as nat);
            }
            vstd::arithmetic::div_mod::lemma_multiply_divide_lt(
                n as int, 256, vstd::arithmetic::power::pow(256, (k - 1) as nat));
        }
        lemma_be_bytes_high_zeros(n / 256, (k - 1) as nat, (len - 1) as nat);
        assert(be_bytes(n, len)
            =~= (zero_bytes_spec((len - k) as nat) + be_bytes(n / 256, (k - 1) as nat))
                .push((n % 256) as u8));
        assert((zero_bytes_spec((len - k) as nat) + be_bytes(n / 256, (k - 1) as nat))
            .push((n % 256) as u8)
            =~= zero_bytes_spec((len - k) as nat)
                + be_bytes(n / 256, (k - 1) as nat).push((n % 256) as u8));
    }
}

/// Reading a big-endian encoding back gives the encoded value, whenever
/// the value fits the width.
pub proof fn lemma_be_bytes_val(n: nat, len: nat)
    requires
        n < vstd::arithmetic::power::pow(256, len),
    ensures
        be_val(be_bytes(n, len)) == n,
    decreases len,
{
    if len == 0 {
        vstd::arithmetic::power::lemma_pow0(256);
    } else {
        assert(((n / 256) as int) < vstd::arithmetic::power::pow(256, (len - 1) as nat)) by {
            assert(vstd::arithmetic::power::pow(256, len)
                == 256 * vstd::arithmetic::power::pow(256, (len - 1) as nat)) by {
                vstd::arithmetic::power::lemma_pow1(256);
                vstd::arithmetic::power::lemma_pow_adds(256, 1, (len - 1) as nat);
            }
            vstd::arithmetic::div_mod::lemma_multiply_divide_lt(
                n as int, 256, vstd::arithmetic::power::pow(256, (len - 1) as nat));
        }
        lemma_be_bytes_val(n / 256, (len - 1) as nat);
        lemma_be_val_push(be_bytes(n / 256, (len - 1) as nat), (n % 256) as u8);
        vstd::arithmetic::div_mod::lemma_fundamental_div_mod(n as int, 256);
    }
}

/// A big-endian encoding into `len` bytes is `len` bytes long.
pub broadcast proof fn lemma_be_bytes_len(n: nat, len: nat)
    ensures
        (#[trigger] be_bytes(n, len)).len() == len,
    decreases len,
{
    if len > 0 {
        lemma_be_bytes_len(n / 256, (len - 1) as nat);
    }
}

/// A sequence of `n` zero bytes.
pub open spec fn zero_bytes_spec(n: nat) -> Seq<u8> {
    Seq::new(n, |i: int| 0u8)
}

/// A byte string denotes zero exactly when every byte is zero.
pub proof fn lemma_le_nat_zero(s: Seq<u8>)
    ensures
        le_nat(s) == 0 <==> (forall|i: int| 0 <= i < s.len() ==> s[i] == 0),
    decreases s.len(),
{
    if s.len() > 0 {
        lemma_le_nat_zero(s.subrange(1, s.len() as int));
        if le_nat(s) == 0 {
            assert forall|i: int| 0 <= i < s.len() implies s[i] == 0 by {
                if i > 0 {
                    assert(s.subrange(1, s.len() as int)[i - 1] == s[i]);
                }
            }
        } else {
            if forall|i: int| 0 <= i < s.len() ==> s[i] == 0 {
                assert forall|j: int| 0 <= j < s.len() - 1 implies s.subrange(1, s.len() as int)[j] == 0 by {
                    assert(s.subrange(1, s.len() as int)[j] == s[j + 1]);
                }
                assert(le_nat(s) == 0);
            }
        }
    }
}

/// Appending zero bytes on the high (little-endian: trailing) side does not
/// change the denoted value.
pub proof fn lemma_le_nat_append_zeros(s: Seq<u8>, n: nat)
    ensures
        le_nat(s + zero_bytes_spec(n)) == le_nat(s),
    decreases s.len(),
{
    if s.len() == 0 {
        assert(s + zero_bytes_spec(n) =~= zero_bytes_spec(n));
        lemma_le_nat_zero(zero_bytes_spec(n));
    } else {
        let t = s + zero_bytes_spec(n);
        assert(t[0] == s[0]);
        assert(t.subrange(1, t.len() as int) =~= s.subrange(1, s.len() as int) + zero_bytes_spec(n));
        lemma_le_nat_append_zeros(s.subrange(1, s.len() as int), n);
    }
}

/// Builds a vector of `n` zero bytes.
pub fn zero_bytes(n: usize) -> (r: Vec<u8>)
    ensures
        r@ =~= zero_bytes_spec(n as nat),
{
    let mut r: Vec<u8> = Vec::new();
    let mut i: usize = 0;
    while i < n
        invariant
            i <= n,
            r@.len() == i,
            forall|j: int| 0 <= j < i ==> r@[j] == 0,
        decreases n - i,
    {
        r.push(0u8);
        i += 1;
    }
    r
}

/// Tests whether every byte is zero, that is, whether the string denotes
/// the integer zero.
pub fn all_zero(s: &Vec<u8>) -> (r: bool)
    ensures
        r <==> le_nat(s@) == 0,
{
    let mut i: usize = 0;
    let mut r: bool = true;
    while i < s.len()
        invariant
            i <= s@.len(),
            r <==> (forall|j: int| 0 <= j < i ==> s@[j] == 0),
        decreases s@.len() - i,
    {
        if s[i] != 0 {
            r = false;
        }
        i += 1;
    }
    proof {
        lemma_le_nat_zero(s@);
    }
    r
}

/// Encodes `n` into exactly `len` big-endian bytes.
pub fn be_bytes_exec(n: u64, len: usize) -> (r: Vec<u8>)
    ensures
        r@ == be_bytes(n as nat, len as nat),
        r@.len() == len,
    decreases len,
{
    if len == 0 {
        Vec::new()
    } else {
        let mut r = be_bytes_exec(n / 256, len - 1);
        r.push((n % 256) as u8);
        r
    }
}

/// Concatenates two byte vectors.
pub fn concat_bytes(a: &Vec<u8>, b: &Vec<u8>) -> (r: Vec<u8>)
    ensures
        r@ =~= a@ + b@,
{
    let mut r: Vec<u8> = Vec::new();
    let mut i: usize = 0;
    while i < a.len()
        invariant
            i <= a@.len(),
            r@ =~= a@.subrange(0, i as int),
        decreases a@.len() - i,
    {
        r.push(a[i]);
        i += 1;
    }
    let mut j: usize = 0;
    while j < b.len()
        invariant
            j <= b@.len(),
            r@ =~= a@ + b@.subrange(0, j as int),
        decreases b@.len() - j,
    {
        r.push(b[j]);
        j += 1;
    }
    r
}

/// Compares two byte vectors for equality of contents.
pub fn bytes_eq(a: &Vec<u8>, b: &Vec<u8>) -> (r: bool)
    ensures
        r <==> a@ == b@,
{
    if a.len() != b.len() {
        proof {
            assert(a@ != b@);
        }
        return false;
    }
    let mut i: usize = 0;
    while i < a.len()
        invariant
            i <= a@.len(),
            a@.len() == b@.len(),
            forall|j: int| 0 <= j < i ==> a@[j] == b@[j],
        decreases a@.len() - i,
    {
        if a[i] != b[i] {
            proof {
                assert(a@ != b@);
            }
            return false;
        }
        i += 1;
    }
    proof {
        assert(a@ =~= b@);
    }
    true
}

} // verus!
