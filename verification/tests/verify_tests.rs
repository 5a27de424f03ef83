use attested_channel::attestation::VerifyError;
use attested_channel::verify::verify;
use aws_nitro_enclaves_cose::header_map::HeaderMap;
use aws_nitro_enclaves_cose::crypto::Openssl;
use aws_nitro_enclaves_cose::CoseSign1;
use openssl::asn1::Asn1Time;
use openssl::ec::{EcGroup, EcKey};
use openssl::hash::MessageDigest;
use openssl::nid::Nid;
use openssl::pkey::{PKey, Private};
use openssl::x509::{X509Builder, X509NameBuilder, X509};
use serde_cbor::value::Value;
use sha2::Digest;
use std::collections::BTreeMap;

fn p384_key() -> PKey<Private> {
    let group = EcGroup::from_curve_name(Nid::SECP384R1).unwrap();
    PKey::from_ec_key(EcKey::generate(&group).unwrap()).unwrap()
}

fn make_cert(
    subject: &str,
    issuer: &str,
    key: &PKey<Private>,
    signer: &PKey<Private>,
    not_before_unix: i64,
    not_after_unix: i64,
) -> X509 {
    let mut subj = X509NameBuilder::new().unwrap();
    subj.append_entry_by_text("CN", subject).unwrap();
    let subj = subj.build();
    let mut iss = X509NameBuilder::new().unwrap();
    iss.append_entry_by_text("CN", issuer).unwrap();
    let iss = iss.build();
    let mut b = X509Builder::new().unwrap();
    b.set_version(2).unwrap();
    b.set_subject_name(&subj).unwrap();
    b.set_issuer_name(&iss).unwrap();
    b.set_pubkey(key).unwrap();
    b.set_not_before(&Asn1Time::from_unix(not_before_unix).unwrap()).unwrap();
    b.set_not_after(&Asn1Time::from_unix(not_after_unix).unwrap()).unwrap();
    b.sign(signer, MessageDigest::sha384()).unwrap();
    b.build()
}

struct Fixture {
    document: Vec<u8>,
    root_pem: Vec<u8>,
    image_id: Vec<u8>,
    public_key: Vec<u8>,
}

const TS_MS: i64 = 1_700_000_000_000;

fn image_id_hex(p0: &[u8], p1: &[u8], p2: &[u8], p16: &[u8]) -> Vec<u8> {
    let mut h = sha2::Sha256::new();
    h.update(0x10007u32.to_be_bytes());
    h.update(p0);
    h.update(p1);
    h.update(p2);
    h.update(p16);
    hex::encode(h.finalize()).into_bytes()
}

fn build_fixture(flip_pcr1: bool, leaf_not_before: i64) -> Fixture {
    let ts_secs = TS_MS / 1000;
    let root_key = p384_key();
    let leaf_key = p384_key();
    let root = make_cert("test root", "test root", &root_key, &root_key,
        ts_secs - 864000, ts_secs + 864000);
    let leaf = make_cert("test leaf", "test root", &leaf_key, &root_key,
        leaf_not_before, ts_secs + 432000);

    let mut pcr1 = vec![0x22u8; 48];
    let expected = image_id_hex(&[0x11; 48], &pcr1, &[0x33; 48], &[0x00; 48]);
    if flip_pcr1 {
        pcr1[5] ^= 0xff;
    }

    let mut pcrs: BTreeMap<Value, Value> = BTreeMap::new();
    pcrs.insert(Value::Integer(0), Value::Bytes(vec![0x11; 48]));
    pcrs.insert(Value::Integer(1), Value::Bytes(pcr1));
    pcrs.insert(Value::Integer(2), Value::Bytes(vec![0x33; 48]));
    // register 16 is left absent: the verifier defaults it to 48 zero bytes.

    let public_key = vec![0xabu8; 32];
    let mut doc: BTreeMap<Value, Value> = BTreeMap::new();
    doc.insert(Value::Text("pcrs".to_string()), Value::Map(pcrs));
    doc.insert(Value::Text("certificate".to_string()), Value::Bytes(leaf.to_der().unwrap()));
    doc.insert(
        Value::Text("cabundle".to_string()),
        Value::Array(vec![Value::Bytes(root.to_der().unwrap())]),
    );
    doc.insert(Value::Text("timestamp".to_string()), Value::Integer(TS_MS as i128));
    doc.insert(Value::Text("public_key".to_string()), Value::Bytes(public_key.clone()));
    let payload = serde_cbor::to_vec(&Value::Map(doc)).unwrap();

    let envelope = CoseSign1::new::<Openssl>(&payload, &HeaderMap::new(), &leaf_key).unwrap();
    Fixture {
        document: envelope.as_bytes(false).unwrap(),
        root_pem: root.to_pem().unwrap(),
        image_id: expected,
        public_key,
    }
}

#[test]
fn valid_document_releases_the_attested_key() {
    let f = build_fixture(false, TS_MS / 1000 - 432000);
    let got = verify(&f.document, &f.root_pem, &f.image_id).expect("valid document must verify");
    assert_eq!(got, f.public_key);
}

#[test]
fn flipped_pcr_byte_reports_both_digests() {
    let f = build_fixture(true, TS_MS / 1000 - 432000);
    match verify(&f.document, &f.root_pem, &f.image_id) {
        Err(VerifyError::ImageIdMismatch { expected, computed }) => {
            assert_eq!(expected, f.image_id);
            assert_ne!(computed, f.image_id);
            assert_eq!(computed.len(), 64);
        }
        _ => panic!("a flipped measurement must fail as an identity mismatch"),
    }
}

#[test]
fn leaf_not_yet_valid_is_rejected() {
    // The leaf's validity starts after the document's own timestamp.
    let f = build_fixture(false, TS_MS / 1000 + 86400);
    match verify(&f.document, &f.root_pem, &f.image_id) {
        Err(VerifyError::CertTimeInvalid) => {}
        _ => panic!("a not-yet-valid link must fail the chain walk"),
    }
}

#[test]
fn different_root_is_rejected() {
    let f = build_fixture(false, TS_MS / 1000 - 432000);
    let other_key = p384_key();
    let ts_secs = TS_MS / 1000;
    let other_root = make_cert("test root", "test root", &other_key, &other_key,
        ts_secs - 864000, ts_secs + 864000);
    match verify(&f.document, &other_root.to_pem().unwrap(), &f.image_id) {
        // The bundled chain is internally consistent, so the walk passes;
        // the byte comparison with the pinned root is what rejects it.
        Err(VerifyError::RootMismatch) => {}
        other => panic!("an unpinned root must be rejected, got ok={}", other.is_ok()),
    }
}

#[test]
fn root_byte_difference_is_rejected() {
    // The same chain, but the pinned root handed to the verifier is a
    // re-issue by the same key with another subject: signature and issuer
    // checks pass, the byte comparison with the pinned root does not.
    let ts_secs = TS_MS / 1000;
    let root_key = p384_key();
    let leaf_key = p384_key();
    let root = make_cert("test root", "test root", &root_key, &root_key,
        ts_secs - 864000, ts_secs + 864000);
    let twin = make_cert("test root", "test root", &root_key, &root_key,
        ts_secs - 864001, ts_secs + 864000);
    let leaf = make_cert("test leaf", "test root", &leaf_key, &root_key,
        ts_secs - 432000, ts_secs + 432000);

    let mut pcrs: BTreeMap<Value, Value> = BTreeMap::new();
    pcrs.insert(Value::Integer(0), Value::Bytes(vec![0x11; 48]));
    pcrs.insert(Value::Integer(1), Value::Bytes(vec![0x22; 48]));
    pcrs.insert(Value::Integer(2), Value::Bytes(vec![0x33; 48]));
    let expected = image_id_hex(&[0x11; 48], &[0x22; 48], &[0x33; 48], &[0x00; 48]);
    let mut doc: BTreeMap<Value, Value> = BTreeMap::new();
    doc.insert(Value::Text("pcrs".to_string()), Value::Map(pcrs));
    doc.insert(Value::Text("certificate".to_string()), Value::Bytes(leaf.to_der().unwrap()));
    doc.insert(
        Value::Text("cabundle".to_string()),
        Value::Array(vec![Value::Bytes(root.to_der().unwrap())]),
    );
    doc.insert(Value::Text("timestamp".to_string()), Value::Integer(TS_MS as i128));
    doc.insert(Value::Text("public_key".to_string()), Value::Bytes(vec![0xab; 32]));
    let payload = serde_cbor::to_vec(&Value::Map(doc)).unwrap();
    let envelope = CoseSign1::new::<Openssl>(&payload, &HeaderMap::new(), &leaf_key).unwrap();
    let document = envelope.as_bytes(false).unwrap();

    match verify(&document, &twin.to_pem().unwrap(), &expected) {
        Err(VerifyError::RootMismatch) => {}
        other => panic!("a root differing in bytes must be rejected, got ok={}", other.is_ok()),
    }
}

#[test]
fn wrong_signing_key_is_rejected() {
    // The envelope is signed by a key other than the leaf certificate's.
    let ts_secs = TS_MS / 1000;
    let root_key = p384_key();
    let leaf_key = p384_key();
    let rogue_key = p384_key();
    let root = make_cert("test root", "test root", &root_key, &root_key,
        ts_secs - 864000, ts_secs + 864000);
    let leaf = make_cert("test leaf", "test root", &leaf_key, &root_key,
        ts_secs - 432000, ts_secs + 432000);
    let mut pcrs: BTreeMap<Value, Value> = BTreeMap::new();
    pcrs.insert(Value::Integer(0), Value::Bytes(vec![0x11; 48]));
    pcrs.insert(Value::Integer(1), Value::Bytes(vec![0x22; 48]));
    pcrs.insert(Value::Integer(2), Value::Bytes(vec![0x33; 48]));
    let expected = image_id_hex(&[0x11; 48], &[0x22; 48], &[0x33; 48], &[0x00; 48]);
    let mut doc: BTreeMap<Value, Value> = BTreeMap::new();
    doc.insert(Value::Text("pcrs".to_string()), Value::Map(pcrs));
    doc.insert(Value::Text("certificate".to_string()), Value::Bytes(leaf.to_der().unwrap()));
    doc.insert(
        Value::Text("cabundle".to_string()),
        Value::Array(vec![Value::Bytes(root.to_der().unwrap())]),
    );
    doc.insert(Value::Text("timestamp".to_string()), Value::Integer(TS_MS as i128));
    doc.insert(Value::Text("public_key".to_string()), Value::Bytes(vec![0xab; 32]));
    let payload = serde_cbor::to_vec(&Value::Map(doc)).unwrap();
    let envelope = CoseSign1::new::<Openssl>(&payload, &HeaderMap::new(), &rogue_key).unwrap();
    let document = envelope.as_bytes(false).unwrap();
    match verify(&document, &root.to_pem().unwrap(), &expected) {
        Err(VerifyError::SignatureInvalid) => {}
        other => panic!("a forged envelope must be rejected, got ok={}", other.is_ok()),
    }
}

#[test]
fn missing_required_register_is_reported() {
    let ts_secs = TS_MS / 1000;
    let root_key = p384_key();
    let leaf_key = p384_key();
    let root = make_cert("test root", "test root", &root_key, &root_key,
        ts_secs - 864000, ts_secs + 864000);
    let leaf = make_cert("test leaf", "test root", &leaf_key, &root_key,
        ts_secs - 432000, ts_secs + 432000);
    let mut pcrs: BTreeMap<Value, Value> = BTreeMap::new();
    pcrs.insert(Value::Integer(0), Value::Bytes(vec![0x11; 48]));
    pcrs.insert(Value::Integer(1), Value::Bytes(vec![0x22; 48]));
    let mut doc: BTreeMap<Value, Value> = BTreeMap::new();
    doc.insert(Value::Text("pcrs".to_string()), Value::Map(pcrs));
    doc.insert(Value::Text("certificate".to_string()), Value::Bytes(leaf.to_der().unwrap()));
    doc.insert(
        Value::Text("cabundle".to_string()),
        Value::Array(vec![Value::Bytes(root.to_der().unwrap())]),
    );
    doc.insert(Value::Text("timestamp".to_string()), Value::Integer(TS_MS as i128));
    doc.insert(Value::Text("public_key".to_string()), Value::Bytes(vec![0xab; 32]));
    let payload = serde_cbor::to_vec(&Value::Map(doc)).unwrap();
    let envelope = CoseSign1::new::<Openssl>(&payload, &HeaderMap::new(), &leaf_key).unwrap();
    let document = envelope.as_bytes(false).unwrap();
    match verify(&document, &root.to_pem().unwrap(), b"unused") {
        Err(VerifyError::PcrMissing(2)) => {}
        _ => panic!("a missing required register must be reported"),
    }
}

#[test]
fn garbage_envelope_is_a_parse_error() {
    match verify(&[1, 2, 3, 4], b"irrelevant", b"irrelevant") {
        Err(VerifyError::CoseParse) => {}
        _ => panic!("garbage must fail the envelope parse"),
    }
}
