use bls12_381::{pairing, G1Affine, G1Projective, G2Affine, G2Projective, Scalar};
use rand::RngCore;

fn random_scalar() -> Scalar {
    let mut wide = [0u8; 64];
    rand::thread_rng().fill_bytes(&mut wide);
    Scalar::from_bytes_wide(&wide)
}

#[test]
fn pairing_bilinearity() {
    for _trial in 0..10 {
        let r = random_scalar();
        let sk = random_scalar();
        let lhs = pairing(
            &G1Affine::from(G1Projective::generator() * r),
            &G2Affine::from(G2Projective::generator() * sk),
        );
        let rhs = pairing(
            &G1Affine::from(G1Projective::generator() * sk),
            &G2Affine::from(G2Projective::generator() * r),
        );
        assert_eq!(lhs, rhs);
    }
}

#[test]
fn pairing_scalar_moves_between_sides() {
    let r = random_scalar();
    let sk = random_scalar();
    let pk1 = G1Affine::from(G1Projective::generator() * sk);
    let r2 = G2Affine::from(G2Projective::generator() * r);
    let sender_side = pairing(&pk1, &r2);
    let r1 = G1Affine::from(G1Projective::generator() * r);
    let sk2 = G2Affine::from(G2Projective::generator() * sk);
    let agent_side = pairing(&r1, &sk2);
    assert_eq!(sender_side, agent_side);
}
