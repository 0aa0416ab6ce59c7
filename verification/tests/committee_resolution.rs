use bls12_381::{G1Affine, G1Projective, Scalar};
use timelock_core::committee::CommitteeBuilder;
use timelock_core::CoreError;

fn pk_bytes(sk: u64) -> Vec<u8> {
    G1Affine::from(G1Projective::generator() * Scalar::from(sk))
        .to_compressed()
        .to_vec()
}

fn addr(tail: u8) -> Vec<u8> {
    let mut v = vec![0u8; 20];
    v[19] = tail;
    v
}

#[test]
fn resolution_skips_unassigned_slots() {
    // Slots: [addr, zero, addr, zero, addr] with committee size 3.
    let mut cb = CommitteeBuilder::new(3);
    cb.offer_agent(addr(1), pk_bytes(11)).unwrap();
    cb.skip_slot();
    cb.offer_agent(addr(2), pk_bytes(12)).unwrap();
    cb.skip_slot();
    assert!(!cb.is_complete());
    cb.offer_agent(addr(3), pk_bytes(13)).unwrap();
    assert!(cb.is_complete());
    let agents = cb.into_agents();
    assert_eq!(agents.len(), 3);
    let ids: Vec<u64> = agents.iter().map(|a| a.id).collect();
    assert_eq!(ids, vec![0, 2, 4]);
    assert_eq!(agents[0].address, addr(1));
    assert_eq!(agents[1].address, addr(2));
    assert_eq!(agents[2].address, addr(3));
}

#[test]
fn invalid_public_key_is_fatal() {
    let mut cb = CommitteeBuilder::new(1);
    let junk = vec![7u8; 48];
    assert_eq!(cb.offer_agent(addr(1), junk), Err(CoreError::InvalidPoint));
    assert!(!cb.is_complete());
    assert_eq!(cb.next_slot(), 0);
}

#[test]
fn slot_indices_advance_past_skips() {
    let mut cb = CommitteeBuilder::new(2);
    cb.skip_slot();
    cb.skip_slot();
    cb.offer_agent(addr(9), pk_bytes(9)).unwrap();
    assert_eq!(cb.next_slot(), 3);
    cb.offer_agent(addr(8), pk_bytes(8)).unwrap();
    let agents = cb.into_agents();
    let ids: Vec<u64> = agents.iter().map(|a| a.id).collect();
    assert_eq!(ids, vec![2, 3]);
}
