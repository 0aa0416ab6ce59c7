use bls12_381::{pairing, G1Affine, G2Affine, G2Projective, G1Projective, Scalar};
use ethabi::{Function, Param, ParamType, StateMutability, Token, Uint};
use timelock_core::abi::decode_call;
use timelock_core::bytes::{concat_bytes, zero_bytes};
use timelock_core::committee::{Agent, CommitteeBuilder};
use timelock_core::curve::keccak256;
use timelock_core::encapsulate::{gen_coefficients, gen_ephemeral_scalar};
use timelock_core::fr::{scalar_from_u64, scalar_from_wide, scalar_sub};
use timelock_core::seal::open;
use timelock_core::shamir::interpolate_at_zero;
use timelock_core::task::{build_task, Task};
use timelock_core::{get_threshold, get_time, CoreError};

fn committee_of_three(sks: &[u64; 3]) -> Vec<Agent> {
    let mut cb = CommitteeBuilder::new(3);
    for &sk in sks {
        let pk = G1Affine::from(G1Projective::generator() * Scalar::from(sk))
            .to_compressed()
            .to_vec();
        let mut address = vec![0u8; 20];
        address[19] = sk as u8;
        cb.offer_agent(address, pk).unwrap();
    }
    cb.into_agents()
}

fn build_one(message: &[u8], decryption_time: u64, now: u64, agents: &Vec<Agent>) -> Task {
    let r = gen_ephemeral_scalar().unwrap();
    let t = get_threshold(agents.len() as u64);
    let cs = gen_coefficients(t).unwrap();
    build_task(1, message.to_vec(), decryption_time, now, agents, &r, &cs).unwrap()
}

#[test]
fn end_to_end_transcript() {
    let sks = [21u64, 22, 23];
    let agents = committee_of_three(&sks);
    let message = b"Test one hour message 10";
    let now = get_time();
    let decryption_time = now + 3600;
    let task = build_one(message, decryption_time, now, &agents);

    assert_eq!(task.alphas.len(), 3);
    assert_eq!(task.key.len(), 32);
    assert_eq!(task.ciphertext.len(), message.len() + 32);
    assert_eq!(task.share_ids, vec![0, 1, 2]);
    assert!(!task.submitted);

    // The submitted payload decodes back to exactly the transcript.
    let (t, g1, g2, shares) = decode_call(&task.payload).unwrap();
    assert_eq!(t, decryption_time);
    assert_eq!(g1, task.g1r);
    assert_eq!(g2, task.g2r);
    assert_eq!(shares, task.alphas);
}

#[test]
fn payload_matches_reference_abi_encoder() {
    let agents = committee_of_three(&[31, 32, 33]);
    let message = b"Test one hour message 10";
    let now = get_time();
    let task = build_one(message, now + 3600, now, &agents);

    let params = vec![
        Param { name: "decryptionTime".to_string(), kind: ParamType::Uint(256), internal_type: None },
        Param { name: "g1r".to_string(), kind: ParamType::Bytes, internal_type: None },
        Param { name: "g2r".to_string(), kind: ParamType::Bytes, internal_type: None },
        Param { name: "alphas".to_string(), kind: ParamType::Array(Box::new(ParamType::Bytes)), internal_type: None },
    ];
    #[allow(deprecated)]
    let func = Function {
        name: "sendTimeLockTransaction".to_string(),
        inputs: params,
        outputs: vec![],
        constant: None,
        state_mutability: StateMutability::NonPayable,
    };
    let alpha_tokens: Vec<Token> = task.alphas.iter().map(|a| Token::Bytes(a.clone())).collect();
    let reference = func
        .encode_input(&[
            Token::Uint(Uint::from(task.decryption_time)),
            Token::Bytes(task.g1r.clone()),
            Token::Bytes(task.g2r.clone()),
            Token::Array(alpha_tokens),
        ])
        .unwrap();
    assert_eq!(task.payload, reference);
}

#[test]
fn quorum_of_agents_can_unblind_and_decrypt() {
    let sks = [41u64, 42, 43];
    let agents = committee_of_three(&sks);
    let message = b"Test one hour message 10";
    let now = get_time();
    let task = build_one(message, now + 3600, now, &agents);

    // Two agents (a quorum for n = 3) remove their blinds using their
    // private keys and the public commitments alone.
    let r1 = G1Affine::from_compressed(task.g1r.as_slice().try_into().unwrap()).unwrap();
    let mut xs: Vec<Vec<u8>> = Vec::new();
    let mut ys: Vec<Vec<u8>> = Vec::new();
    for i in [0usize, 2] {
        let sk2 = G2Affine::from(G2Projective::generator() * Scalar::from(sks[i]));
        let shared = pairing(&r1, &sk2);
        let shared_bytes = format!("{:?}", shared).into_bytes();
        let digest = keccak256(&shared_bytes);
        let mask = scalar_from_wide(&concat_bytes(&digest, &zero_bytes(32)));
        let y = scalar_sub(&task.alphas[i], &mask);
        xs.push(scalar_from_u64(task.share_ids[i] + 1));
        ys.push(y);
    }
    let secret = interpolate_at_zero(&xs, &ys);
    let key = keccak256(&secret);
    assert_eq!(key, task.key);
    assert_eq!(open(&task.ciphertext, &key, &task.nonce), Some(message.to_vec()));
}

#[test]
fn below_quorum_key_differs() {
    let sks = [51u64, 52, 53];
    let agents = committee_of_three(&sks);
    let message = b"Test one hour message 10";
    let now = get_time();
    let task = build_one(message, now + 3600, now, &agents);

    // A single unblinded share interpolated alone does not give the key.
    let r1 = G1Affine::from_compressed(task.g1r.as_slice().try_into().unwrap()).unwrap();
    let sk2 = G2Affine::from(G2Projective::generator() * Scalar::from(sks[1]));
    let shared_bytes = format!("{:?}", pairing(&r1, &sk2)).into_bytes();
    let mask = scalar_from_wide(&concat_bytes(&keccak256(&shared_bytes), &zero_bytes(32)));
    let y = scalar_sub(&task.alphas[1], &mask);
    let xs = vec![scalar_from_u64(task.share_ids[1] + 1)];
    let ys = vec![y];
    let guess = keccak256(&interpolate_at_zero(&xs, &ys));
    assert_ne!(guess, task.key);
}

#[test]
fn two_encapsulations_differ() {
    let agents = committee_of_three(&[61, 62, 63]);
    let message = b"Test one hour message 10";
    let now = get_time();
    let a = build_one(message, now + 3600, now, &agents);
    let b = build_one(message, now + 3600, now, &agents);
    assert_ne!(a.g1r, b.g1r);
    assert_ne!(a.g2r, b.g2r);
    assert_ne!(a.key, b.key);
    assert_ne!(a.alphas, b.alphas);
    assert_ne!(a.ciphertext, b.ciphertext);
}

#[test]
fn degree_mismatch_is_rejected() {
    let agents = committee_of_three(&[71, 72, 73]);
    let now = get_time();
    let r = gen_ephemeral_scalar().unwrap();
    let cs = gen_coefficients(3).unwrap();
    let out = build_task(1, b"m".to_vec(), now + 10, now, &agents, &r, &cs);
    assert!(matches!(out, Err(CoreError::DegreeMismatch)));
}

#[test]
fn malformed_payload_is_rejected() {
    assert_eq!(decode_call(&vec![0u8; 10]), Err(CoreError::MalformedPayload));
    let agents = committee_of_three(&[91, 92, 93]);
    let now = get_time();
    let task = build_one(b"m", now + 10, now, &agents);
    let mut tampered = task.payload.clone();
    // Damage the first offset word.
    tampered[60] ^= 1;
    assert_eq!(decode_call(&tampered), Err(CoreError::MalformedPayload));
}

#[test]
fn mark_submitted_is_terminal() {
    let agents = committee_of_three(&[81, 82, 83]);
    let now = get_time();
    let mut task = build_one(b"m", now + 10, now, &agents);
    let payload = task.payload.clone();
    task.mark_submitted();
    assert!(task.submitted);
    assert_eq!(task.payload, payload);
}
