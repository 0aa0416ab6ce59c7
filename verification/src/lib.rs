//! Client-side core of a threshold time-lock encryption scheme.
//!
//! A sender resolves a committee of agents from chain state, builds a
//! majority-threshold secret-sharing encapsulation of a one-time symmetric
//! key over the BLS12-381 pairing-friendly curve, seals the message under
//! that key, and assembles the public transcript that is submitted to the
//! time-lock contract.

use vstd::prelude::*;

pub mod abi;
pub mod bytes;
pub mod committee;
pub mod curve;
pub mod encapsulate;
pub mod fr;
pub mod seal;
pub mod shamir;
pub mod task;

verus! {

/// Errors of the cryptographic core. Every failure aborts the task: a task
/// is either unsubmitted or fully submitted, never half-built.
#[derive(Clone, Copy, Debug, PartialEq, Eq, Structural)]
pub enum CoreError {
    /// A scalar that must be nonzero (an ephemeral scalar, a shared secret)
    /// turned out zero.
    ZeroScalar,
    /// Bytes that must encode a point on the curve do not.
    InvalidPoint,
    /// The secret-sharing polynomial does not have exactly `threshold`
    /// coefficients.
    DegreeMismatch,
    /// A byte payload does not follow the contract's call encoding.
    MalformedPayload,
}

/// The quorum size for a committee of `n` agents: the smallest integer
/// greater than or equal to `0.51 * n`, a strict majority rounded up.
pub open spec fn threshold_spec(n: nat) -> nat {
    (51 * n + 99) / 100
}

/// Computes the quorum size for a committee of `n` agents.
///
/// The result is the smallest `t` with `100 * t >= 51 * n`.
pub fn get_threshold(n: u64) -> (t: u64)
    ensures
        t == threshold_spec(n as nat),
        100 * t >= 51 * n,
        n >= 1 ==> t >= 1 && 100 * (t - 1) < 51 * n,
        t <= n,
{
    let wide: u128 = (n as u128) * 51 + 99;
    let t128: u128 = wide / 100;
    proof {
        assert(t128 == threshold_spec(n as nat)) by (nonlinear_arith)
            requires wide == (n as u128) * 51 + 99 && t128 == wide / 100;
        assert(100 * threshold_spec(n as nat) >= 51 * n) by (nonlinear_arith);
        assert(threshold_spec(n as nat) <= n) by (nonlinear_arith);
        assert(n >= 1 ==> threshold_spec(n as nat) >= 1) by (nonlinear_arith);
        assert(n >= 1 ==> 100 * (threshold_spec(n as nat) - 1) < 51 * n) by (nonlinear_arith);
    }
    t128 as u64
}

/// Relies on `std::time::SystemTime`: the seconds elapsed since the unix
/// epoch, or zero should the clock stand before it.
#[verifier::external_body]
fn now_unix_seconds() -> (r: u64)
{
    std::time::SystemTime::now()
        .duration_since(std::time::UNIX_EPOCH)
        .map(|d| d.as_secs())
        .unwrap_or(0)
}

/// The current unix timestamp in seconds, a task's creation time.
pub fn get_time() -> (r: u64) {
    now_unix_seconds()
}

} // verus!
