use attested_channel::image_id::compute_image_id;
use sha2::Digest;

fn pcr(fill: u8) -> Vec<u8> {
    vec![fill; 48]
}

#[test]
fn matches_direct_digest_computation() {
    let p0 = pcr(0x11);
    let p1 = pcr(0x22);
    let p2 = pcr(0x33);
    let p16 = pcr(0x00);
    let got = compute_image_id(&p0, &p1, &p2, &p16);
    let mut hasher = sha2::Sha256::new();
    hasher.update(0x10007u32.to_be_bytes());
    hasher.update(&p0);
    hasher.update(&p1);
    hasher.update(&p2);
    hasher.update(&p16);
    let expected = hex::encode(hasher.finalize()).into_bytes();
    assert_eq!(got, expected);
}

#[test]
fn deterministic_across_calls() {
    let p0 = pcr(0xa1);
    let p1 = pcr(0xb2);
    let p2 = pcr(0xc3);
    let p16 = pcr(0xd4);
    let first = compute_image_id(&p0, &p1, &p2, &p16);
    let second = compute_image_id(&p0, &p1, &p2, &p16);
    assert_eq!(first, second);
    assert_eq!(first.len(), 64);
}

#[test]
fn single_byte_edits_change_the_digest() {
    let p0 = pcr(0x11);
    let p1 = pcr(0x22);
    let p2 = pcr(0x33);
    let p16 = pcr(0x44);
    let baseline = compute_image_id(&p0, &p1, &p2, &p16);
    for pos in 0..48 {
        let mut edited = p1.clone();
        edited[pos] ^= 0x01;
        let changed = compute_image_id(&p0, &edited, &p2, &p16);
        assert_ne!(baseline, changed);
    }
    let mut e0 = p0.clone();
    e0[0] ^= 0x80;
    assert_ne!(baseline, compute_image_id(&e0, &p1, &p2, &p16));
    let mut e2 = p2.clone();
    e2[47] = e2[47].wrapping_add(1);
    assert_ne!(baseline, compute_image_id(&p0, &p1, &e2, &p16));
    let mut e16 = p16.clone();
    e16[20] ^= 0x10;
    assert_ne!(baseline, compute_image_id(&p0, &p1, &p2, &e16));
}

#[test]
fn digest_is_lowercase_hex() {
    let id = compute_image_id(&pcr(1), &pcr(2), &pcr(3), &pcr(4));
    assert!(id.iter().all(|b| (b'0'..=b'9').contains(b) || (b'a'..=b'f').contains(b)));
}
