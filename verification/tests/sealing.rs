use rand::RngCore;
use timelock_core::seal::{open, seal};

fn random_bytes(n: usize) -> Vec<u8> {
    let mut v = vec![0u8; n];
    rand::thread_rng().fill_bytes(&mut v);
    v
}

#[test]
fn seal_open_round_trip() {
    for &len in &[0usize, 1, 31, 32, 33, 100, 257] {
        let m = random_bytes(len);
        let key = random_bytes(32);
        let nonce = random_bytes(12);
        let c = seal(&m, &key, &nonce);
        assert_eq!(c.len(), m.len() + 32);
        assert_eq!(open(&c, &key, &nonce), Some(m));
    }
}

#[test]
fn bit_flip_in_body_fails() {
    let m = b"a message worth sealing".to_vec();
    let key = random_bytes(32);
    let nonce = random_bytes(12);
    let c = seal(&m, &key, &nonce);
    for pos in 0..c.len() - 32 {
        for bit in [0u8, 3, 7] {
            let mut bad = c.clone();
            bad[pos] ^= 1 << bit;
            assert_eq!(open(&bad, &key, &nonce), None);
        }
    }
}

#[test]
fn bit_flip_in_tag_fails() {
    let m = b"a message worth sealing".to_vec();
    let key = random_bytes(32);
    let nonce = random_bytes(12);
    let c = seal(&m, &key, &nonce);
    let body_len = c.len() - 32;
    for pos in body_len..c.len() {
        let mut bad = c.clone();
        bad[pos] ^= 1;
        assert_eq!(open(&bad, &key, &nonce), None);
    }
}

#[test]
fn wrong_key_or_nonce_fails() {
    let m = b"keyed once".to_vec();
    let key = random_bytes(32);
    let nonce = random_bytes(12);
    let c = seal(&m, &key, &nonce);
    let mut other_key = key.clone();
    other_key[0] ^= 1;
    assert_eq!(open(&c, &other_key, &nonce), None);
    let mut other_nonce = nonce.clone();
    other_nonce[5] ^= 0x80;
    assert_eq!(open(&c, &key, &other_nonce), None);
}

#[test]
fn truncated_ciphertext_fails() {
    let key = random_bytes(32);
    let nonce = random_bytes(12);
    let c = seal(&b"x".to_vec(), &key, &nonce);
    let short = c[..31].to_vec();
    assert_eq!(open(&short, &key, &nonce), None);
}
