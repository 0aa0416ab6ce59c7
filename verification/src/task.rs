//! One encryption job from resolved committee to submittable transcript.
//! Building a task performs the whole client-side construction: the two
//! commitments, the blinded shares and derived key, the sealed message,
//! and the encoded contract call. A task is unsubmitted or fully
//! submitted; nothing in between.

use vstd::prelude::*;
use crate::bytes::le_nat;
use crate::fr::fr_ok;
use crate::curve::{g1_of, g2_of, keccak_of, keccak256};
use crate::shamir::{fr_vals, views_of, all_fr_ok};
use crate::encapsulate::{key_of, blinded_share, commitments, encapsulate_with};
use crate::seal::{seal, seal_spec, open_spec};
use crate::abi::{encode_call, encode_call_spec};
use crate::committee::{Agent, agents_wf};
use crate::{CoreError, get_threshold, threshold_spec};

verus! {

/// The per-task nonce for sealing: derived from the G1 commitment, so it
/// is fresh whenever the ephemeral scalar is, and never a constant.
pub open spec fn nonce_of(g1r: Seq<u8>) -> Seq<u8> {
    keccak_of(g1r).take(12)
}

/// Derives the sealing nonce from the G1 commitment.
pub fn derive_nonce(g1r: &Vec<u8>) -> (r: Vec<u8>)
    ensures
        r@ == nonce_of(g1r@),
        r@.len() == 12,
{
    let d = keccak256(g1r);
    let mut r: Vec<u8> = Vec::new();
    let mut i: usize = 0;
    while i < 12
        invariant
            i <= 12,
            d@.len() == 32,
            r@ =~= d@.subrange(0, i as int),
        decreases 12 - i,
    {
        r.push(d[i]);
        i += 1;
    }
    proof {
        assert(r@ =~= keccak_of(g1r@).take(12));
    }
    r
}

/// An encryption job: the message, its decryption time, the committee's
/// evaluation points, the public commitments, the blinded shares, the
/// derived key and sealed message, and the encoded contract call.
pub struct Task {
    /// The sender's identifier for this job.
    pub id: u64,
    /// The plaintext message.
    pub message: Vec<u8>,
    /// The unix time from which decryption is to be allowed.
    pub decryption_time: u64,
    /// The ids of the committee agents holding shares, ascending.
    pub share_ids: Vec<u64>,
    /// The compressed G1 commitment `r · G1`.
    pub g1r: Vec<u8>,
    /// The compressed G2 commitment `r · G2`.
    pub g2r: Vec<u8>,
    /// The blinded shares, one per agent, in committee order.
    pub alphas: Vec<Vec<u8>>,
    /// The derived symmetric key: the digest of the shared secret.
    pub key: Vec<u8>,
    /// The sealing nonce derived from the G1 commitment.
    pub nonce: Vec<u8>,
    /// The message sealed under the key and nonce.
    pub ciphertext: Vec<u8>,
    /// The contract call payload carrying the public transcript.
    pub payload: Vec<u8>,
    /// Whether the task's transaction has been accepted for submission.
    pub submitted: bool,
}

impl Task {
    /// Marks the task submitted, once its transaction is sent; everything
    /// else is immutable.
    pub fn mark_submitted(&mut self)
        ensures
            final(self).submitted,
            final(self).id == old(self).id,
            final(self).message == old(self).message,
            final(self).decryption_time == old(self).decryption_time,
            final(self).share_ids == old(self).share_ids,
            final(self).g1r == old(self).g1r,
            final(self).g2r == old(self).g2r,
            final(self).alphas == old(self).alphas,
            final(self).key == old(self).key,
            final(self).nonce == old(self).nonce,
            final(self).ciphertext == old(self).ciphertext,
            final(self).payload == old(self).payload,
    {
        self.submitted = true;
    }
}

/// Builds a task from the resolved committee, the ephemeral scalar `r`
/// and the sharing polynomial's coefficients `cs`. The polynomial must
/// have exactly one coefficient per quorum member (degree `t - 1`);
/// anything else is a degree mismatch and builds nothing. The decryption
/// time must lie strictly after the creation time.
pub fn build_task(
    id: u64,
    message: Vec<u8>,
    decryption_time: u64,
    creation_time: u64,
    agents: &Vec<Agent>,
    r: &Vec<u8>,
    cs: &Vec<Vec<u8>>,
) -> (out: Result<Task, CoreError>)
    requires
        agents_wf(agents@),
        1 <= agents@.len() <= 0x100000,
        fr_ok(r@),
        le_nat(r@) != 0,
        all_fr_ok(views_of(cs@)),
        creation_time < decryption_time,
    ensures
        out is Err ==> out == Result::<Task, CoreError>::Err(CoreError::DegreeMismatch)
            && cs@.len() != threshold_spec(agents@.len() as nat),
        out matches Ok(task) ==> cs@.len() == threshold_spec(agents@.len() as nat) && {
            &&& task.id == id
            &&& task.message@ == message@
            &&& task.decryption_time == decryption_time
            &&& task.share_ids@.len() == agents@.len()
            &&& (forall|i: int| 0 <= i < agents@.len()
                ==> #[trigger] task.share_ids@[i] == agents@[i].id)
            &&& task.g1r@ == g1_of(le_nat(r@))
            &&& task.g2r@ == g2_of(le_nat(r@))
            &&& task.alphas@.len() == agents@.len()
            &&& (forall|i: int| 0 <= i < agents@.len() ==> fr_ok((#[trigger] task.alphas@[i])@)
                && le_nat(task.alphas@[i]@) == blinded_share(
                    fr_vals(views_of(cs@)), agents@[i].id as nat, agents@[i].pk@, g2_of(le_nat(r@))))
            &&& task.key@ == key_of(cs@[0]@)
            &&& task.nonce@ == nonce_of(g1_of(le_nat(r@)))
            &&& task.ciphertext@ == seal_spec(message@, task.key@, task.nonce@)
            &&& task.ciphertext@.len() == message@.len() + 32
            &&& open_spec(task.ciphertext@, task.key@, task.nonce@) == Some(message@)
            &&& task.payload@ == encode_call_spec(
                decryption_time as nat, task.g1r@, task.g2r@, views_of(task.alphas@))
            &&& !task.submitted
        },
{
    let t = get_threshold(agents.len() as u64);
    if cs.len() as u64 != t {
        return Err(CoreError::DegreeMismatch);
    }
    let (g1r, g2r) = commitments(r);
    let (key, alphas) = encapsulate_with(cs, &g2r, agents);
    let nonce = derive_nonce(&g1r);
    let ciphertext = seal(&message, &key, &nonce);
    let mut share_ids: Vec<u64> = Vec::new();
    let mut i: usize = 0;
    while i < agents.len()
        invariant
            i <= agents@.len(),
            share_ids@.len() == i,
            forall|j: int| 0 <= j < i ==> #[trigger] share_ids@[j] == agents@[j].id,
        decreases agents@.len() - i,
    {
        share_ids.push(agents[i].id);
        i += 1;
    }
    proof {
        assert forall|j: int| 0 <= j < alphas@.len()
            implies (#[trigger] alphas@[j]@).len() == 32 by {
            assert(fr_ok(alphas@[j]@));
        }
    }
    let payload = encode_call(decryption_time, &g1r, &g2r, &alphas);
    Ok(Task {
        id,
        message,
        decryption_time,
        share_ids,
        g1r,
        g2r,
        alphas,
        key,
        nonce,
        ciphertext,
        payload,
        submitted: false,
    })
}

/// The transaction fee rate for a submission: the network's current gas
/// price with a one-and-a-half markup, rounded down.
pub fn gas_price_with_markup(p: u64) -> (r: u128)
    ensures
        r == p * 15 / 10,
{
    (p as u128) * 15 / 10
}

/// The fixed stake attached to every submission: `3 * 10^16` wei.
pub fn submission_stake() -> (r: u128)
    ensures
        r == 30000000000000000u128,
{
    30000000000000000u128
}

/// The fixed upper bound on gas for a submission transaction.
pub fn submission_gas_limit() -> (r: u64)
    ensures
        r == 8000000u64,
{
    8000000u64
}

} // verus!
