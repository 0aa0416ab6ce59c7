//! The threshold encapsulation: ephemeral randomness, the two public
//! commitments, and the per-agent blinded shares together with the derived
//! symmetric key. The sharing polynomial's value at an agent's evaluation
//! point is blinded by a mask derived from the pairing of the agent's
//! public key with the G2 commitment; by bilinearity only the holder of
//! the matching private key can recompute that pairing value from the
//! commitments.

use vstd::prelude::*;
use crate::bytes::{le_nat, zero_bytes, concat_bytes, all_zero, lemma_le_nat_append_zeros};
use crate::fr::{fr_ok, fr_order, scalar_add, scalar_from_u64, scalar_from_wide, random_bytes_64};
use crate::curve::{g1_of, g2_of, g1_ok, g2_ok, pairing_of, keccak_of, g1_mul_base, g2_mul_base, pairing_compressed, keccak256};
use crate::shamir::{fr_vals, views_of, all_fr_ok, poly_eval, eval_poly};
use crate::committee::{Agent, agents_wf};
use crate::CoreError;

verus! {

/// The blinding mask tied to an agent's public key and the task's G2
/// commitment: the pairing of the two, hashed and reduced into the scalar
/// field.
pub open spec fn mask_of(pk: Seq<u8>, g2r: Seq<u8>) -> nat {
    le_nat(keccak_of(pairing_of(pk, g2r))) % fr_order()
}

/// The blinded share of an agent: the polynomial's value at the agent's
/// evaluation point `id + 1` plus the agent's mask, in the scalar field.
/// The shift keeps every evaluation point positive: at zero the
/// polynomial's value is the secret itself, so no agent's point may be
/// zero, and slot ids start at zero.
pub open spec fn blinded_share(cs: Seq<nat>, id: nat, pk: Seq<u8>, g2r: Seq<u8>) -> nat {
    (poly_eval(cs, id + 1) + mask_of(pk, g2r)) % fr_order()
}

/// The symmetric key derived from the shared secret: its 32-byte digest.
pub open spec fn key_of(secret: Seq<u8>) -> Seq<u8> {
    keccak_of(secret)
}

/// Turns 64 drawn bytes into a nonzero scalar: the 512-bit value reduced
/// modulo the order, an error exactly when the reduction is zero, never a
/// substituted default.
pub fn scalar_from_draw(b: &Vec<u8>) -> (r: Result<Vec<u8>, CoreError>)
    requires
        b@.len() == 64,
    ensures
        r is Err <==> le_nat(b@) % fr_order() == 0,
        r is Err ==> r == Result::<Vec<u8>, CoreError>::Err(CoreError::ZeroScalar),
        r matches Ok(v) ==> fr_ok(v@)
            && le_nat(v@) == le_nat(b@) % fr_order()
            && le_nat(v@) != 0,
{
    let s = scalar_from_wide(b);
    if all_zero(&s) {
        Err(CoreError::ZeroScalar)
    } else {
        Ok(s)
    }
}

/// Draws a fresh uniformly random scalar; a zero draw is an error, never
/// silently replaced.
pub fn gen_ephemeral_scalar() -> (r: Result<Vec<u8>, CoreError>)
    ensures
        r matches Ok(v) ==> fr_ok(v@) && le_nat(v@) != 0,
        r is Err ==> r == Result::<Vec<u8>, CoreError>::Err(CoreError::ZeroScalar),
{
    let wide = random_bytes_64();
    scalar_from_draw(&wide)
}

/// Draws the sharing polynomial's `t` coefficients: a fresh nonzero secret
/// as the constant term, then `t - 1` uniformly random coefficients.
pub fn gen_coefficients(t: u64) -> (r: Result<Vec<Vec<u8>>, CoreError>)
    requires
        t >= 1,
    ensures
        r matches Ok(cs) ==> cs@.len() == t
            && all_fr_ok(views_of(cs@))
            && le_nat(cs@[0]@) != 0,
        r is Err ==> r == Result::<Vec<Vec<u8>>, CoreError>::Err(CoreError::ZeroScalar),
{
    let secret = gen_ephemeral_scalar()?;
    let mut cs: Vec<Vec<u8>> = Vec::new();
    cs.push(secret);
    while (cs.len() as u64) < t
        invariant
            1 <= cs@.len() <= t,
            all_fr_ok(views_of(cs@)),
            le_nat(cs@[0]@) != 0,
        decreases t - cs@.len(),
    {
        let wide = random_bytes_64();
        let c = scalar_from_wide(&wide);
        let ghost prev = cs@;
        cs.push(c);
        proof {
            assert forall|i: int| 0 <= i < cs@.len() implies fr_ok(#[trigger] views_of(cs@)[i]) by {
                if i < prev.len() {
                    assert(views_of(prev)[i] == prev[i]@);
                    assert(cs@[i] == prev[i]);
                } else {
                    assert(cs@[i] == c);
                }
                assert(views_of(cs@)[i] == cs@[i]@);
            }
        }
    }
    Ok(cs)
}

/// The two public commitments of a task: `r · G1` and `r · G2`, compressed.
pub fn commitments(r: &Vec<u8>) -> (c: (Vec<u8>, Vec<u8>))
    requires
        fr_ok(r@),
    ensures
        c.0@ == g1_of(le_nat(r@)),
        c.0@.len() == 48,
        g1_ok(c.0@),
        c.1@ == g2_of(le_nat(r@)),
        c.1@.len() == 96,
        g2_ok(c.1@),
{
    (g1_mul_base(r), g2_mul_base(r))
}

/// Computes an agent's blinding mask from its public key and the G2
/// commitment.
fn compute_mask(pk: &Vec<u8>, g2r: &Vec<u8>) -> (r: Vec<u8>)
    requires
        pk@.len() == 48,
        g1_ok(pk@),
        g2r@.len() == 96,
        g2_ok(g2r@),
    ensures
        fr_ok(r@),
        le_nat(r@) == mask_of(pk@, g2r@),
{
    let paired = pairing_compressed(pk, g2r);
    let digest = keccak256(&paired);
    let pad = zero_bytes(32);
    let wide = concat_bytes(&digest, &pad);
    proof {
        lemma_le_nat_append_zeros(digest@, 32);
    }
    scalar_from_wide(&wide)
}

/// Builds the symmetric key and the blinded shares from given polynomial
/// coefficients: the key is the digest of the secret `P(0)`, and each
/// agent's share is `P(id + 1)` plus that agent's mask.
pub fn encapsulate_with(cs: &Vec<Vec<u8>>, g2r: &Vec<u8>, agents: &Vec<Agent>) -> (out: (Vec<u8>, Vec<Vec<u8>>))
    requires
        cs@.len() >= 1,
        all_fr_ok(views_of(cs@)),
        g2r@.len() == 96,
        g2_ok(g2r@),
        agents_wf(agents@),
    ensures
        out.0@ == key_of(cs@[0]@),
        out.0@.len() == 32,
        out.1@.len() == agents@.len(),
        forall|i: int| 0 <= i < agents@.len() ==> fr_ok(#[trigger] out.1@[i]@)
            && le_nat(out.1@[i]@) == blinded_share(
                fr_vals(views_of(cs@)), agents@[i].id as nat, agents@[i].pk@, g2r@),
{
    let key = keccak256(&cs[0]);
    proof {
        assert(views_of(cs@)[0] == cs@[0]@);
    }
    let mut alphas: Vec<Vec<u8>> = Vec::new();
    let mut i: usize = 0;
    while i < agents.len()
        invariant
            i <= agents@.len(),
            alphas@.len() == i,
            cs@.len() >= 1,
            all_fr_ok(views_of(cs@)),
            g2r@.len() == 96,
            g2_ok(g2r@),
            agents_wf(agents@),
            forall|j: int| 0 <= j < i ==> fr_ok(#[trigger] alphas@[j]@)
                && le_nat(alphas@[j]@) == blinded_share(
                    fr_vals(views_of(cs@)), agents@[j].id as nat, agents@[j].pk@, g2r@),
        decreases agents@.len() - i,
    {
        proof {
            assert(agents@[i as int].wf());
        }
        let x = scalar_from_u64(agents[i].id + 1);
        let y = eval_poly(cs, &x);
        let mask = compute_mask(&agents[i].pk, g2r);
        let alpha = scalar_add(&y, &mask);
        alphas.push(alpha);
        i += 1;
    }
    (key, alphas)
}

} // verus!
