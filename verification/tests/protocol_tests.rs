use attested_channel::protocol::{agree, build_request, generate_nonce, handle_request, initial_state, open, seal};

fn key32(seed: u8) -> Vec<u8> {
    (0..32u8).map(|i| i.wrapping_mul(7).wrapping_add(seed)).collect()
}

#[test]
fn agreement_is_symmetric() {
    // Two key pairs derived from the curve's base point: both sides derive
    // the same shared secret.
    let a_priv = key32(3);
    let b_priv = key32(91);
    let base = x25519_dalek::X25519_BASEPOINT_BYTES.to_vec();
    let a_pub = agree(&a_priv, &base);
    let b_pub = agree(&b_priv, &base);
    let ab = agree(&a_priv, &b_pub);
    let ba = agree(&b_priv, &a_pub);
    assert_eq!(ab, ba);
    assert_eq!(ab.len(), 32);
}

#[test]
fn seal_open_round_trip() {
    let key = key32(5);
    let nonce = generate_nonce();
    let msg = vec![1u8, 2, 3, 4, 5, 250];
    let aad = vec![0u8];
    let ct = seal(&key, &nonce, &msg, &aad);
    assert_eq!(ct.len(), msg.len() + 16);
    let back = open(&key, &nonce, &ct, &aad).expect("authentic ciphertext must open");
    assert_eq!(back, msg);
}

#[test]
fn tampering_any_bit_fails_authentication() {
    let key = key32(9);
    let nonce: Vec<u8> = (0..12u8).collect();
    let msg = vec![12u8, 43];
    let aad = vec![0u8];
    let ct = seal(&key, &nonce, &msg, &aad);
    for byte in 0..ct.len() {
        for bit in 0..8 {
            let mut bad = ct.clone();
            bad[byte] ^= 1 << bit;
            assert!(open(&key, &nonce, &bad, &aad).is_err());
        }
    }
}

#[test]
fn wrong_aad_fails_authentication() {
    let key = key32(11);
    let nonce: Vec<u8> = (0..12u8).collect();
    let ct = seal(&key, &nonce, &[7u8, 8], &[0u8]);
    assert!(open(&key, &nonce, &ct, &[1u8]).is_err());
    assert!(open(&key, &nonce, &ct, &[]).is_err());
}

#[test]
fn truncated_ciphertext_fails_authentication() {
    let key = key32(13);
    let nonce: Vec<u8> = (0..12u8).collect();
    let ct = seal(&key, &nonce, &[7u8, 8], &[0u8]);
    assert!(open(&key, &nonce, &ct[..ct.len() - 1], &[0u8]).is_err());
}

#[test]
fn deliver_then_compute() {
    // A delivery of [12, 43] is stored and acknowledged; the following
    // computation request reports their sum.
    let key = key32(21);
    let nonce = generate_nonce();
    let request = build_request(&key, &nonce, &[12u8, 43]);
    let mut state = initial_state();
    let resp = handle_request(&key, &mut state, &request).expect("delivery must succeed");
    assert_eq!(resp, b"Data write suceeded!".to_vec());
    assert_eq!(state, vec![12u8, 43]);
    let resp2 = handle_request(&key, &mut state, &[1u8]).expect("compute never fails");
    assert_eq!(resp2, b"Result: 55".to_vec());
    assert_eq!(state, vec![12u8, 43]);
}

#[test]
fn compute_wraps_around() {
    let key = key32(23);
    let mut state = vec![200u8, 100];
    let resp = handle_request(&key, &mut state, &[1u8]).unwrap();
    assert_eq!(resp, b"Result: 44".to_vec());
}

#[test]
fn compute_on_fresh_state_is_zero() {
    let key = key32(25);
    let mut state = initial_state();
    let resp = handle_request(&key, &mut state, &[1u8]).unwrap();
    assert_eq!(resp, b"Result: 0".to_vec());
}

#[test]
fn unknown_tag_leaves_state_alone() {
    let key = key32(27);
    let mut state = vec![12u8, 43];
    let resp = handle_request(&key, &mut state, &[7u8]).unwrap();
    assert_eq!(resp, b"Unknown msg".to_vec());
    assert_eq!(state, vec![12u8, 43]);
    let resp2 = handle_request(&key, &mut state, &[1u8]).unwrap();
    assert_eq!(resp2, b"Result: 55".to_vec());
}

#[test]
fn tampered_delivery_is_rejected_and_state_kept() {
    let key = key32(31);
    let nonce = generate_nonce();
    let mut request = build_request(&key, &nonce, &[12u8, 43]);
    let last = request.len() - 1;
    request[last] ^= 0x80;
    let mut state = initial_state();
    assert!(handle_request(&key, &mut state, &request).is_err());
    assert_eq!(state, vec![0u8, 0]);
}

#[test]
fn short_delivery_is_rejected() {
    let key = key32(33);
    let mut state = initial_state();
    assert!(handle_request(&key, &mut state, &[0u8, 1, 2]).is_err());
    assert_eq!(state, vec![0u8, 0]);
}

#[test]
fn empty_request_is_unknown() {
    let key = key32(35);
    let mut state = initial_state();
    let resp = handle_request(&key, &mut state, &[]).unwrap();
    assert_eq!(resp, b"Unknown msg".to_vec());
}

#[test]
fn wrong_key_cannot_open_delivery() {
    let key = key32(41);
    let other = key32(42);
    let nonce = generate_nonce();
    let request = build_request(&key, &nonce, &[9u8, 9]);
    let mut state = initial_state();
    assert!(handle_request(&other, &mut state, &request).is_err());
}
