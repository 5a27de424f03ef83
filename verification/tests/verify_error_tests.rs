use attested_channel::attestation::VerifyError;
use attested_channel::verify::verify;
use aws_nitro_enclaves_cose::header_map::HeaderMap;
use aws_nitro_enclaves_cose::crypto::Openssl;
use aws_nitro_enclaves_cose::CoseSign1;
use openssl::asn1::Asn1Time;
use openssl::ec::{EcGroup, EcKey};
use openssl::hash::MessageDigest;
use openssl::nid::Nid;
use openssl::pkey::{PKey, Private};
use openssl::x509::{X509Builder, X509NameBuilder, X509};
use serde_cbor::value::Value;
use sha2::Digest;
use std::collections::BTreeMap;

const TS_MS: i64 = 1_700_000_000_000;

fn p384_key() -> PKey<Private> {
    let group = EcGroup::from_curve_name(Nid::SECP384R1).unwrap();
    PKey::from_ec_key(EcKey::generate(&group).unwrap()).unwrap()
}

fn make_cert(subject: &str, issuer: &str, key: &PKey<Private>, signer: &PKey<Private>) -> X509 {
    let ts_secs = TS_MS / 1000;
    let mut subj = X509NameBuilder::new().unwrap();
    subj.append_entry_by_text("CN", subject).unwrap();
    let subj = subj.build();
    let mut iss = X509NameBuilder::new().unwrap();
    iss.append_entry_by_text("CN", issuer).unwrap();
    let iss = iss.build();
    let mut b = X509Builder::new().unwrap();
    b.set_version(2).unwrap();
    b.set_subject_name(&subj).unwrap();
    b.set_issuer_name(&iss).unwrap();
    b.set_pubkey(key).unwrap();
    b.set_not_before(&Asn1Time::from_unix(ts_secs - 864000).unwrap()).unwrap();
    b.set_not_after(&Asn1Time::from_unix(ts_secs + 864000).unwrap()).unwrap();
    b.sign(signer, MessageDigest::sha384()).unwrap();
    b.build()
}

struct Setup {
    leaf_key: PKey<Private>,
    leaf_der: Vec<u8>,
    root_der: Vec<u8>,
    root_pem: Vec<u8>,
    image_id: Vec<u8>,
}

fn setup() -> Setup {
    let root_key = p384_key();
    let leaf_key = p384_key();
    let root = make_cert("test root", "test root", &root_key, &root_key);
    let leaf = make_cert("test leaf", "test root", &leaf_key, &root_key);
    let mut h = sha2::Sha256::new();
    h.update(0x10007u32.to_be_bytes());
    h.update([0x11u8; 48]);
    h.update([0x22u8; 48]);
    h.update([0x33u8; 48]);
    h.update([0x00u8; 48]);
    Setup {
        leaf_key,
        leaf_der: leaf.to_der().unwrap(),
        root_der: root.to_der().unwrap(),
        root_pem: root.to_pem().unwrap(),
        image_id: hex::encode(h.finalize()).into_bytes(),
    }
}

fn good_pcrs() -> Value {
    let mut pcrs: BTreeMap<Value, Value> = BTreeMap::new();
    pcrs.insert(Value::Integer(0), Value::Bytes(vec![0x11; 48]));
    pcrs.insert(Value::Integer(1), Value::Bytes(vec![0x22; 48]));
    pcrs.insert(Value::Integer(2), Value::Bytes(vec![0x33; 48]));
    Value::Map(pcrs)
}

fn sign_doc(s: &Setup, entries: Vec<(&str, Value)>) -> Vec<u8> {
    let mut doc: BTreeMap<Value, Value> = BTreeMap::new();
    for (k, v) in entries {
        doc.insert(Value::Text(k.to_string()), v);
    }
    let payload = serde_cbor::to_vec(&Value::Map(doc)).unwrap();
    CoseSign1::new::<Openssl>(&payload, &HeaderMap::new(), &s.leaf_key)
        .unwrap()
        .as_bytes(false)
        .unwrap()
}

fn full_entries(s: &Setup) -> Vec<(&'static str, Value)> {
    vec![
        ("pcrs", good_pcrs()),
        ("certificate", Value::Bytes(s.leaf_der.clone())),
        ("cabundle", Value::Array(vec![Value::Bytes(s.root_der.clone())])),
        ("timestamp", Value::Integer(TS_MS as i128)),
        ("public_key", Value::Bytes(vec![0xab; 32])),
    ]
}

fn expect_err(s: &Setup, entries: Vec<(&'static str, Value)>, want: VerifyError) {
    let doc = sign_doc(s, entries);
    match verify(&doc, &s.root_pem, &s.image_id) {
        Err(e) => assert_eq!(format!("{:?}", e), format!("{:?}", want)),
        Ok(_) => panic!("document must be rejected"),
    }
}

#[test]
fn missing_pcrs_entry() {
    let s = setup();
    let entries = full_entries(&s).into_iter().filter(|(k, _)| *k != "pcrs").collect();
    expect_err(&s, entries, VerifyError::PcrsMissing);
}

#[test]
fn pcrs_entry_not_a_map() {
    let s = setup();
    let mut entries = full_entries(&s);
    entries[0] = ("pcrs", Value::Bytes(vec![1, 2, 3]));
    expect_err(&s, entries, VerifyError::PcrsMalformed);
}

#[test]
fn pcr_value_not_bytes() {
    let s = setup();
    let mut pcrs: BTreeMap<Value, Value> = BTreeMap::new();
    pcrs.insert(Value::Integer(0), Value::Bytes(vec![0x11; 48]));
    pcrs.insert(Value::Integer(1), Value::Integer(7));
    pcrs.insert(Value::Integer(2), Value::Bytes(vec![0x33; 48]));
    let mut entries = full_entries(&s);
    entries[0] = ("pcrs", Value::Map(pcrs));
    expect_err(&s, entries, VerifyError::PcrNotBytes(1));
}

#[test]
fn missing_certificate_entry() {
    let s = setup();
    let entries = full_entries(&s).into_iter().filter(|(k, _)| *k != "certificate").collect();
    expect_err(&s, entries, VerifyError::CertificateMissing);
}

#[test]
fn certificate_entry_not_bytes() {
    let s = setup();
    let mut entries = full_entries(&s);
    entries[1] = ("certificate", Value::Integer(1));
    expect_err(&s, entries, VerifyError::CertificateNotBytes);
}

#[test]
fn undecodable_certificate() {
    let s = setup();
    let mut entries = full_entries(&s);
    entries[1] = ("certificate", Value::Bytes(vec![0xde, 0xad]));
    expect_err(&s, entries, VerifyError::CertParse);
}

#[test]
fn missing_timestamp_entry() {
    let s = setup();
    let entries = full_entries(&s).into_iter().filter(|(k, _)| *k != "timestamp").collect();
    expect_err(&s, entries, VerifyError::TimestampMissing);
}

#[test]
fn timestamp_not_an_unsigned_integer() {
    let s = setup();
    let mut entries = full_entries(&s);
    entries[3] = ("timestamp", Value::Text("soon".to_string()));
    expect_err(&s, entries, VerifyError::TimestampNotInteger);
}

#[test]
fn missing_cabundle_entry() {
    let s = setup();
    let entries = full_entries(&s).into_iter().filter(|(k, _)| *k != "cabundle").collect();
    expect_err(&s, entries, VerifyError::CabundleMissing);
}

#[test]
fn cabundle_with_non_bytes_element() {
    let s = setup();
    let mut entries = full_entries(&s);
    entries[2] = ("cabundle", Value::Array(vec![Value::Integer(4)]));
    expect_err(&s, entries, VerifyError::CabundleMalformed);
}

#[test]
fn missing_public_key_entry() {
    let s = setup();
    let entries = full_entries(&s).into_iter().filter(|(k, _)| *k != "public_key").collect();
    expect_err(&s, entries, VerifyError::PublicKeyMissing);
}

#[test]
fn public_key_entry_not_bytes() {
    let s = setup();
    let mut entries = full_entries(&s);
    entries[4] = ("public_key", Value::Integer(5));
    expect_err(&s, entries, VerifyError::PublicKeyNotBytes);
}

#[test]
fn payload_that_is_not_a_map() {
    let s = setup();
    let payload = serde_cbor::to_vec(&Value::Array(vec![Value::Integer(1)])).unwrap();
    let doc = CoseSign1::new::<Openssl>(&payload, &HeaderMap::new(), &s.leaf_key)
        .unwrap()
        .as_bytes(false)
        .unwrap();
    match verify(&doc, &s.root_pem, &s.image_id) {
        Err(VerifyError::PayloadParse) => {}
        _ => panic!("a non-map payload must be a payload parse error"),
    }
}

#[test]
fn mismatch_is_detected_before_certificate_checks() {
    // A document with a wrong identity and no certificate at all still
    // reports the identity mismatch: the identity comparison comes first.
    let s = setup();
    let entries = vec![("pcrs", good_pcrs())];
    let doc = sign_doc(&s, entries);
    match verify(&doc, &s.root_pem, b"0000") {
        Err(VerifyError::ImageIdMismatch { expected, computed }) => {
            assert_eq!(expected, b"0000".to_vec());
            assert_eq!(computed, s.image_id);
        }
        _ => panic!("the identity mismatch must be reported first"),
    }
}
