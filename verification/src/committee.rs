//! Committee resolution. The chain is scanned slot by slot from index 0:
//! a zero address is an unassigned slot and is skipped; a nonzero address
//! contributes one agent whose id is the slot index and whose registered
//! public key must decode to a point on the curve. Scanning stops once the
//! announced committee size is reached. The network reads happen outside;
//! this module holds every decision and every invariant of the scan.

use vstd::prelude::*;
use crate::bytes::le_nat;
use crate::curve::{g1_ok, g1_check};
use crate::CoreError;

verus! {

/// One resolved committee member, immutable once resolved.
pub struct Agent {
    /// The contract's index slot for this member. The member's
    /// secret-sharing evaluation point is `id + 1`, never zero.
    pub id: u64,
    /// The 20-byte chain account identifier, nonzero.
    pub address: Vec<u8>,
    /// The registered public key: the compressed bytes of a G1 point.
    pub pk: Vec<u8>,
}

impl Agent {
    /// A well-formed agent: nonzero 20-byte address, 48-byte public key
    /// that decompresses to a point on the curve.
    pub open spec fn wf(self) -> bool {
        self.id < u64::MAX
            && self.address@.len() == 20
            && le_nat(self.address@) != 0
            && self.pk@.len() == 48
            && g1_ok(self.pk@)
    }
}

/// Every agent is well formed and their ids are strictly ascending, so
/// each id occurs once and the agents stand in slot order.
pub open spec fn agents_wf(agents: Seq<Agent>) -> bool {
    (forall|i: int| 0 <= i < agents.len() ==> (#[trigger] agents[i]).wf())
        && (forall|i: int, j: int| 0 <= i < j < agents.len()
            ==> agents[i].id < agents[j].id)
}

/// The scan state of a committee resolution: how many members are sought,
/// the next slot to inspect, and the members found so far.
pub struct CommitteeBuilder {
    /// How many members the scan is after.
    pub target: u64,
    /// The next slot index to inspect.
    pub next_index: u64,
    /// The members found so far, in ascending slot order.
    pub agents: Vec<Agent>,
}

impl CommitteeBuilder {
    /// The builder invariant: sound agents in ascending slot order, all
    /// from slots already scanned, never more than sought.
    pub open spec fn wf(self) -> bool {
        self.agents@.len() <= self.target
            && agents_wf(self.agents@)
            && (forall|i: int| 0 <= i < self.agents@.len()
                ==> (#[trigger] self.agents@[i]).id < self.next_index)
    }

    /// The announced committee size this scan is after.
    pub open spec fn spec_target(self) -> u64 {
        self.target
    }

    /// The next slot index to inspect.
    pub open spec fn spec_next_index(self) -> u64 {
        self.next_index
    }

    /// The members found so far.
    pub open spec fn spec_agents(self) -> Seq<Agent> {
        self.agents@
    }

    /// The scan is complete when exactly `target` members are found.
    pub open spec fn complete(self) -> bool {
        self.agents@.len() == self.target
    }

    /// Starts a scan for a committee of `target` members at slot 0.
    pub fn new(target: u64) -> (r: CommitteeBuilder)
        requires
            target >= 1,
        ensures
            r.wf(),
            r.spec_target() == target,
            r.spec_next_index() == 0,
            r.spec_agents() =~= Seq::<Agent>::empty(),
    {
        CommitteeBuilder { target, next_index: 0, agents: Vec::new() }
    }

    /// The slot the scan will inspect next.
    pub fn next_slot(&self) -> (r: u64)
        ensures
            r == self.spec_next_index(),
    {
        self.next_index
    }

    /// Whether the sought number of members has been found.
    pub fn is_complete(&self) -> (r: bool)
        ensures
            r == self.complete(),
    {
        self.agents.len() as u64 == self.target
    }

    /// Records that the next slot is unassigned (zero address): the slot
    /// is skipped without counting toward the total.
    pub fn skip_slot(&mut self)
        requires
            old(self).wf(),
            old(self).spec_next_index() < u64::MAX,
        ensures
            final(self).wf(),
            final(self).spec_target() == old(self).spec_target(),
            final(self).spec_agents() == old(self).spec_agents(),
            final(self).spec_next_index() == old(self).spec_next_index() + 1,
    {
        self.next_index = self.next_index + 1;
    }

    /// Records that the next slot holds a member with the given nonzero
    /// address and registered public key bytes. The key must decompress to
    /// a point on the curve; anything else is fatal, since committee data
    /// anchors the protocol's security.
    pub fn offer_agent(&mut self, address: Vec<u8>, pk: Vec<u8>) -> (r: Result<(), CoreError>)
        requires
            old(self).wf(),
            !old(self).complete(),
            old(self).spec_next_index() < u64::MAX,
            address@.len() == 20,
            le_nat(address@) != 0,
            pk@.len() == 48,
        ensures
            final(self).spec_target() == old(self).spec_target(),
            r is Ok ==> g1_ok(pk@)
                && final(self).wf()
                && final(self).spec_agents() =~= old(self).spec_agents().push(
                    Agent { id: old(self).spec_next_index(), address: address, pk: pk })
                && final(self).spec_next_index() == old(self).spec_next_index() + 1,
            r is Err ==> !g1_ok(pk@) && r == Result::<(), CoreError>::Err(CoreError::InvalidPoint)
                && *final(self) == *old(self),
    {
        if !g1_check(&pk) {
            return Err(CoreError::InvalidPoint);
        }
        let agent = Agent { id: self.next_index, address, pk };
        self.agents.push(agent);
        self.next_index = self.next_index + 1;
        Ok(())
    }

    /// The members found so far, in ascending slot order.
    pub fn agents(&self) -> (r: &Vec<Agent>)
        ensures
            r@ == self.spec_agents(),
    {
        &self.agents
    }

    /// Hands the resolved committee out, consuming the scan.
    pub fn into_agents(self) -> (r: Vec<Agent>)
        requires
            self.wf(),
            self.complete(),
        ensures
            r@ == self.spec_agents(),
            agents_wf(r@),
            r@.len() == self.spec_target(),
    {
        let CommitteeBuilder { target: _, next_index: _, agents } = self;
        agents
    }
}

} // verus!
