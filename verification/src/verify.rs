//! The attestation verifier: one atomic predicate over the signed document.
//! Envelope parse, payload parse, measured identity, envelope signature,
//! chain walk at the document's own timestamp and root pinning must all
//! hold before the attested public key is released; any failure aborts the
//! attempt with an error naming the step.

use vstd::prelude::*;
use crate::attestation::{
    bytes_eq, copy_bytes, doc_find, doc_lookup, extract_bundle, extract_pcr, extract_pcr_optional,
    key_cabundle, key_certificate, key_pcrs, key_public_key, key_timestamp, table_lookup,
    zero_pcr, VerifyError,
};
use crate::cbor::{enc_document, parse_document, Item, Scalar};
use crate::chain::{
    build_chain, cert_ders, chain_ok, parse_cert_der, verify_cert_chain, x509_der_ok,
};
use crate::image_id::{compute_image_id, image_id_of};
use aws_nitro_enclaves_cose::crypto::{Openssl, SigningPublicKey};

verus! {

#[verifier::external_type_specification]
#[verifier::external_body]
pub struct ExCoseSign1(aws_nitro_enclaves_cose::CoseSign1);

/// A signed envelope as the verifier holds it: the bytes it was decoded
/// from, beside the decoded handle the outside checks run on.
pub(crate) struct CoseEnvelope {
    pub(crate) raw: Vec<u8>,
    pub(crate) handle: aws_nitro_enclaves_cose::CoseSign1,
}

/// Whether the bytes decode as a signed envelope.  Only the trusted
/// `cose_from_bytes` wrapper gives this name meaning.
pub uninterp spec fn cose_parse_ok(doc: Seq<u8>) -> bool;

/// The signed payload carried by an envelope.  Only the trusted
/// `cose_payload` wrapper gives this name meaning.
pub uninterp spec fn cose_payload_of(doc: Seq<u8>) -> Seq<u8>;

/// Whether the envelope's signature verifies under the public key of the
/// certificate with the given DER bytes.  Only the trusted
/// `cose_signature_valid` wrapper gives this name meaning.
pub uninterp spec fn cose_sig_ok(doc: Seq<u8>, leaf_der: Seq<u8>) -> bool;

/// Whether the signature check can be carried out at all: the leaf's key
/// extracts and the envelope's protected header names a usable algorithm.
/// Only the trusted `cose_signature_valid` wrapper gives this name meaning.
pub uninterp spec fn cose_sig_checkable(doc: Seq<u8>, leaf_der: Seq<u8>) -> bool;

/// Relies on aws-nitro-enclaves-cose's `CoseSign1::from_bytes`: decoding
/// succeeds or fails on the bytes alone, and the handle stands for exactly
/// those bytes.
#[verifier::external_body]
pub(crate) fn cose_from_bytes(doc: &[u8]) -> (r: Result<CoseEnvelope, VerifyError>)
    ensures
        r matches Ok(e) ==> e.raw@ == doc@ && cose_parse_ok(doc@),
        r matches Err(e) ==> e is CoseParse && !cose_parse_ok(doc@),
{
    match aws_nitro_enclaves_cose::CoseSign1::from_bytes(doc) {
        Ok(handle) => Ok(CoseEnvelope { raw: doc.to_vec(), handle }),
        Err(_) => Err(VerifyError::CoseParse),
    }
}

/// Relies on aws-nitro-enclaves-cose's `CoseSign1::get_payload` called
/// without a key: the envelope's payload bytes, unchecked, a function of
/// the envelope's bytes alone.  With no key handed in, the call only
/// copies the payload out and cannot fail.
#[verifier::external_body]
pub(crate) fn cose_payload(env: &CoseEnvelope) -> (r: Vec<u8>)
    ensures
        r@ == cose_payload_of(env.raw@),
{
    env.handle.get_payload::<Openssl>(None as Option<&dyn SigningPublicKey>).unwrap()
}

/// Relies on aws-nitro-enclaves-cose's `CoseSign1::verify_signature` and
/// openssl's `X509Ref::public_key`: whether the envelope's signature checks
/// out under the leaf certificate's key, a function of the envelope's bytes
/// and the leaf's DER alone.
#[verifier::external_body]
pub(crate) fn cose_signature_valid(env: &CoseEnvelope, leaf: &crate::chain::ParsedCert) -> (r: Result<
    bool,
    VerifyError,
>)
    ensures
        r matches Ok(b) ==> b == cose_sig_ok(env.raw@, leaf.der@)
            && cose_sig_checkable(env.raw@, leaf.der@),
        r matches Err(e) ==> e is CryptoFailure && !cose_sig_checkable(env.raw@, leaf.der@),
{
    let key = match leaf.handle.public_key() {
        Ok(k) => k,
        Err(_) => { return Err(VerifyError::CryptoFailure); },
    };
    match env.handle.verify_signature::<Openssl>(&key) {
        Ok(b) => Ok(b),
        Err(_) => Err(VerifyError::CryptoFailure),
    }
}

/// The byte-string value of a measurement register, if it is present and
/// is bytes.
pub open spec fn pcr_value(m: Seq<(Scalar, Scalar)>, idx: u64) -> Option<Seq<u8>> {
    match table_lookup(m, idx) {
        Some(Scalar::Bytes(b)) => Some(b@),
        _ => None,
    }
}

/// The optional register 16: 48 zero bytes where absent or not bytes.
pub open spec fn pcr16_value(m: Seq<(Scalar, Scalar)>) -> Seq<u8> {
    match table_lookup(m, 16) {
        Some(Scalar::Bytes(b)) => b@,
        _ => zero_pcr(),
    }
}

/// The byte-string value of a document entry, if it is present and is a
/// plain byte string.
pub open spec fn bytes_entry(d: Seq<(Scalar, Item)>, key: Seq<u8>) -> Option<Seq<u8>> {
    match doc_lookup(d, key) {
        Some(Item::One(Scalar::Bytes(b))) => Some(b@),
        _ => None,
    }
}

/// The unsigned-integer value of a document entry, if it is present and is
/// a plain unsigned integer.
pub open spec fn uint_entry(d: Seq<(Scalar, Item)>, key: Seq<u8>) -> Option<u64> {
    match doc_lookup(d, key) {
        Some(Item::One(Scalar::UInt(t))) => Some(t),
        _ => None,
    }
}

/// The bundle's DER byte strings, where the entry is an array of bytes.
pub open spec fn bundle_value(d: Seq<(Scalar, Item)>) -> Option<Seq<Seq<u8>>> {
    match doc_lookup(d, key_cabundle()) {
        Some(Item::Array(a)) => if forall|i: int| 0 <= i < a@.len() ==> (#[trigger] a@[i]) is Bytes {
            Some(Seq::new(a@.len(), |i: int| match a@[i] {
                Scalar::Bytes(b) => b@,
                _ => Seq::empty(),
            }))
        } else {
            None
        },
        _ => None,
    }
}

/// The identity check: the three required registers are present as bytes
/// and, with register 16 defaulted, hash to the expected hex identity.
pub open spec fn measurements_accepted(m: Seq<(Scalar, Scalar)>, expected: Seq<u8>) -> bool {
    &&& pcr_value(m, 0) matches Some(p0) && pcr_value(m, 1) matches Some(p1)
        && pcr_value(m, 2) matches Some(p2)
        && expected == image_id_of(p0, p1, p2, pcr16_value(m))
}

/// The chain's DER bytes as the document gives them: the leaf, then the
/// bundle reversed.
pub open spec fn doc_chain(leaf: Seq<u8>, bundle: Seq<Seq<u8>>) -> Seq<Seq<u8>> {
    seq![leaf] + bundle.reverse()
}

/// The bytes decode as an envelope whose payload is the canonical
/// encoding of the document `d`.
pub open spec fn payload_doc(docb: Seq<u8>, d: Seq<(Scalar, Item)>) -> bool {
    &&& cose_parse_ok(docb)
    &&& cose_payload_of(docb) == enc_document(d)
}

/// The envelope's payload is the canonical encoding of some document.
pub open spec fn payload_decodes(docb: Seq<u8>) -> bool {
    exists|d: Seq<(Scalar, Item)>| cose_payload_of(docb) == enc_document(d)
}

/// The identity stage ran and computed `co` as the document's measured
/// identity: some decoded form carries the three required registers, and
/// they (with register 16 defaulted) hash to `co`.
pub open spec fn computed_identity(docb: Seq<u8>, co: Seq<u8>) -> bool {
    exists|d: Seq<(Scalar, Item)>|
        payload_doc(docb, d)
        && (#[trigger] doc_lookup(d, key_pcrs()) matches Some(Item::Table(m))
            && (pcr_value(m@, 0) matches Some(p0) && pcr_value(m@, 1) matches Some(p1)
                && pcr_value(m@, 2) matches Some(p2)
                && co == image_id_of(p0, p1, p2, pcr16_value(m@))))
}

/// The signature stage ran and refused: some decoded form passed the
/// identity stage against `expected`, carries a parsing leaf certificate,
/// and the envelope's signature does not verify under it.
pub open spec fn signature_refused(docb: Seq<u8>, expected: Seq<u8>) -> bool {
    exists|d: Seq<(Scalar, Item)>|
        payload_doc(docb, d)
        && (#[trigger] doc_lookup(d, key_pcrs()) matches Some(Item::Table(m))
            && measurements_accepted(m@, expected))
        && (bytes_entry(d, key_certificate()) matches Some(leaf)
            && x509_der_ok(leaf) && !cose_sig_ok(docb, leaf))
}

/// The signature stage ran and could not be carried out: some decoded form
/// passed the identity stage against `expected` and carries a parsing leaf
/// certificate under which the envelope's signature is not even checkable.
pub open spec fn signature_uncheckable(docb: Seq<u8>, expected: Seq<u8>) -> bool {
    exists|d: Seq<(Scalar, Item)>|
        payload_doc(docb, d)
        && (#[trigger] doc_lookup(d, key_pcrs()) matches Some(Item::Table(m))
            && measurements_accepted(m@, expected))
        && (bytes_entry(d, key_certificate()) matches Some(leaf)
            && x509_der_ok(leaf) && !cose_sig_checkable(docb, leaf))
}

/// The chain stage ran and yielded the error `e`: some decoded form passed
/// identity and signature, carries a timestamp and a well-formed bundle,
/// and the walk of leaf-then-reversed-bundle at the document's own time
/// fails with `e`.
pub open spec fn chain_refused(
    docb: Seq<u8>,
    root_pem: Seq<u8>,
    expected: Seq<u8>,
    e: VerifyError,
) -> bool {
    exists|d: Seq<(Scalar, Item)>|
        payload_doc(docb, d)
        && (#[trigger] doc_lookup(d, key_pcrs()) matches Some(Item::Table(m))
            && measurements_accepted(m@, expected))
        && (bytes_entry(d, key_certificate()) matches Some(leaf)
            && x509_der_ok(leaf) && cose_sig_ok(docb, leaf)
            && (uint_entry(d, key_timestamp()) matches Some(ts)
                && (bundle_value(d) matches Some(bundle)
                && crate::chain::chain_outcome(doc_chain(leaf, bundle), root_pem,
                    ts as int / 1000) == Err::<(), VerifyError>(e))))
}

/// The condition a field-stage error reports, over the decoded document.
pub open spec fn field_error_cond(d: Seq<(Scalar, Item)>, e: VerifyError) -> bool {
    match e {
        VerifyError::PcrsMissing => doc_lookup(d, key_pcrs()) is None,
        VerifyError::PcrsMalformed => doc_lookup(d, key_pcrs()) matches Some(it)
            && !(it is Table),
        VerifyError::PcrMissing(i) => doc_lookup(d, key_pcrs()) matches Some(Item::Table(m))
            && table_lookup(m@, i) is None,
        VerifyError::PcrNotBytes(i) => doc_lookup(d, key_pcrs()) matches Some(Item::Table(m))
            && (table_lookup(m@, i) matches Some(s) && !(s is Bytes)),
        VerifyError::CertificateMissing => doc_lookup(d, key_certificate()) is None,
        VerifyError::CertificateNotBytes => doc_lookup(d, key_certificate()) matches Some(it)
            && bytes_entry(d, key_certificate()) is None,
        VerifyError::TimestampMissing => doc_lookup(d, key_timestamp()) is None,
        VerifyError::TimestampNotInteger => doc_lookup(d, key_timestamp()) matches Some(it)
            && uint_entry(d, key_timestamp()) is None,
        VerifyError::CabundleMissing => doc_lookup(d, key_cabundle()) is None,
        VerifyError::CabundleMalformed => doc_lookup(d, key_cabundle()) matches Some(it)
            && bundle_value(d) is None,
        VerifyError::PublicKeyMissing => doc_lookup(d, key_public_key()) is None,
        VerifyError::PublicKeyNotBytes => doc_lookup(d, key_public_key()) matches Some(it)
            && bytes_entry(d, key_public_key()) is None,
        VerifyError::CertParse => (bytes_entry(d, key_certificate()) matches Some(leaf)
            && !x509_der_ok(leaf))
            || (bundle_value(d) matches Some(b)
                && exists|i: int| 0 <= i < b.len() && !x509_der_ok(#[trigger] b[i])),
        _ => false,
    }
}

/// A field-stage error comes with a decoded document exhibiting exactly
/// the condition the variant names.
pub open spec fn field_refused(docb: Seq<u8>, e: VerifyError) -> bool {
    exists|d: Seq<(Scalar, Item)>| #[trigger] payload_doc(docb, d) && field_error_cond(d, e)
}

/// Everything a document must satisfy for `verify` to release its key:
/// `d` is the payload's decoded form, and every check of the pipeline
/// holds of it.
pub open spec fn document_accepted(
    docb: Seq<u8>,
    root_pem: Seq<u8>,
    expected: Seq<u8>,
    d: Seq<(Scalar, Item)>,
    pk: Seq<u8>,
) -> bool {
    &&& cose_parse_ok(docb)
    &&& cose_payload_of(docb) == enc_document(d)
    &&& doc_lookup(d, key_pcrs()) matches Some(Item::Table(m))
        && measurements_accepted(m@, expected)
    &&& bytes_entry(d, key_certificate()) matches Some(leaf) && {
        &&& x509_der_ok(leaf)
        &&& cose_sig_ok(docb, leaf)
        &&& uint_entry(d, key_timestamp()) matches Some(ts)
            && (bundle_value(d) matches Some(bundle)
            && chain_ok(doc_chain(leaf, bundle), root_pem, ts as int / 1000))
    }
    &&& bytes_entry(d, key_public_key()) == Some(pk)
}

/// Whether some decoded document form makes the pipeline accept these
/// bytes and release exactly this key.
pub open spec fn verify_accepts(
    docb: Seq<u8>,
    root_pem: Seq<u8>,
    expected: Seq<u8>,
    pk: Seq<u8>,
) -> bool {
    exists|d: Seq<(Scalar, Item)>| document_accepted(docb, root_pem, expected, d, pk)
}

/// Verifies a signed attestation document against the pinned root and the
/// expected image identity, and releases the attested public key only when
/// every check of the pipeline holds.
///
/// The expected identity is lowercase hex bytes; the returned bytes are the
/// document's attested public key exactly.  Every refusal is tied to its
/// ground: the envelope and payload parse errors come exactly when the
/// bytes decode as no envelope or no document, an identity mismatch
/// carries the expected digest and the document's own computed digest, and
/// each other error comes only with a decoded document form exhibiting
/// exactly the condition its variant names, the stages before it having
/// passed.
#[verifier::rlimit(60)]
#[verifier::spinoff_prover]
pub fn verify(document: &[u8], root_cert_pem: &[u8], expected_image_id: &[u8]) -> (r: Result<
    Vec<u8>,
    VerifyError,
>)
    ensures
        r matches Ok(pk) ==> verify_accepts(document@, root_cert_pem@, expected_image_id@, pk@),
        r == Err::<Vec<u8>, VerifyError>(VerifyError::CoseParse) <==> !cose_parse_ok(document@),
        r == Err::<Vec<u8>, VerifyError>(VerifyError::PayloadParse)
            <==> cose_parse_ok(document@) && !payload_decodes(document@),
        r matches Err(e) ==> (e matches VerifyError::ImageIdMismatch {
            expected: ex,
            computed: co,
        } ==> ex@ == expected_image_id@ && co@ != expected_image_id@
            && computed_identity(document@, co@)),
        r == Err::<Vec<u8>, VerifyError>(VerifyError::SignatureInvalid) ==> signature_refused(
            document@,
            expected_image_id@,
        ),
        r matches Err(e) ==> ((e is TimestampRange || e is ChainSignatureInvalid
            || e is IssuerMismatch || e is CertTimeInvalid || e is RootParse
            || e is RootMismatch)
            ==> chain_refused(document@, root_cert_pem@, expected_image_id@, e)),
        r matches Err(e) ==> (e is CryptoFailure
            ==> signature_uncheckable(document@, expected_image_id@)
                || chain_refused(document@, root_cert_pem@, expected_image_id@, e)),
        r matches Err(e) ==> ((e is PcrsMissing || e is PcrsMalformed || e is PcrMissing
            || e is PcrNotBytes || e is CertificateMissing || e is CertificateNotBytes
            || e is TimestampMissing || e is TimestampNotInteger || e is CabundleMissing
            || e is CabundleMalformed || e is PublicKeyMissing || e is PublicKeyNotBytes
            || e is CertParse)
            ==> field_refused(document@, e)),
{
    // Step 1: decode the signed envelope and take its payload, untrusted.
    let env = match cose_from_bytes(document) {
        Ok(e) => e,
        Err(e) => { return Err(e); },
    };
    let payload = cose_payload(&env);

    // Step 2: decode the payload as a document map.
    let doc = match parse_document(payload.as_slice()) {
        Some(d) => d,
        None => {
            proof {
                assert(!payload_decodes(document@)) by {
                    if payload_decodes(document@) {
                        let d = choose|d: Seq<(Scalar, Item)>|
                            cose_payload_of(document@) == enc_document(d);
                        assert(payload@ == enc_document(d));
                    }
                }
            }
            return Err(VerifyError::PayloadParse);
        },
    };
    proof {
        assert(payload_decodes(document@)) by {
            assert(cose_payload_of(document@) == enc_document(doc@));
        }
    }

    // Step 3: the measured identity must match the expected one.
    let pcrs_key = crate::attestation::key_pcrs_vec();
    let pcrs_idx = match doc_find(&doc, pcrs_key.as_slice()) {
        Some(i) => i,
        None => {
            proof {
                assert(field_refused(document@, VerifyError::PcrsMissing)) by {
                    assert(payload_doc(document@, doc@));
                    assert(field_error_cond(doc@, VerifyError::PcrsMissing));
                }
            }
            return Err(VerifyError::PcrsMissing);
        },
    };
    let pcrs = match &doc[pcrs_idx].1 {
        Item::Table(m) => m,
        _ => {
            proof {
                assert(field_refused(document@, VerifyError::PcrsMalformed)) by {
                    assert(payload_doc(document@, doc@));
                    assert(field_error_cond(doc@, VerifyError::PcrsMalformed));
                }
            }
            return Err(VerifyError::PcrsMalformed);
        },
    };
    let pcr0 = match extract_pcr(pcrs, 0) {
        Ok(b) => b,
        Err(e) => {
            proof {
                assert(field_refused(document@, e)) by {
                    assert(payload_doc(document@, doc@));
                    assert(field_error_cond(doc@, e));
                }
            }
            return Err(e);
        },
    };
    let pcr1 = match extract_pcr(pcrs, 1) {
        Ok(b) => b,
        Err(e) => {
            proof {
                assert(field_refused(document@, e)) by {
                    assert(payload_doc(document@, doc@));
                    assert(field_error_cond(doc@, e));
                }
            }
            return Err(e);
        },
    };
    let pcr2 = match extract_pcr(pcrs, 2) {
        Ok(b) => b,
        Err(e) => {
            proof {
                assert(field_refused(document@, e)) by {
                    assert(payload_doc(document@, doc@));
                    assert(field_error_cond(doc@, e));
                }
            }
            return Err(e);
        },
    };
    let pcr16 = extract_pcr_optional(pcrs, 16);
    let computed = compute_image_id(&pcr0, &pcr1, &pcr2, &pcr16);
    if !bytes_eq(computed.as_slice(), expected_image_id) {
        proof {
            assert(computed_identity(document@, computed@)) by {
                assert(payload_doc(document@, doc@));
                assert(doc_lookup(doc@, key_pcrs()) matches Some(Item::Table(m))
                    && (pcr_value(m@, 0) matches Some(p0)
                        && pcr_value(m@, 1) matches Some(p1)
                        && pcr_value(m@, 2) matches Some(p2)
                        && computed@ == image_id_of(p0, p1, p2, pcr16_value(m@))));
            }
        }
        return Err(VerifyError::ImageIdMismatch {
            expected: copy_bytes(expected_image_id),
            computed,
        });
    }

    // Step 4: the envelope's signature under the leaf certificate's key.
    let cert_idx = match doc_find(&doc, crate::attestation::key_certificate_vec().as_slice()) {
        Some(i) => i,
        None => {
            proof {
                assert(field_refused(document@, VerifyError::CertificateMissing)) by {
                    assert(payload_doc(document@, doc@));
                    assert(field_error_cond(doc@, VerifyError::CertificateMissing));
                }
            }
            return Err(VerifyError::CertificateMissing);
        },
    };
    let cert_bytes = match &doc[cert_idx].1 {
        Item::One(Scalar::Bytes(b)) => b,
        _ => {
            proof {
                assert(field_refused(document@, VerifyError::CertificateNotBytes)) by {
                    assert(payload_doc(document@, doc@));
                    assert(field_error_cond(doc@, VerifyError::CertificateNotBytes));
                }
            }
            return Err(VerifyError::CertificateNotBytes);
        },
    };
    let leaf = match parse_cert_der(cert_bytes.as_slice()) {
        Ok(c) => c,
        Err(e) => {
            proof {
                assert(field_refused(document@, e)) by {
                    assert(payload_doc(document@, doc@));
                    assert(field_error_cond(doc@, e));
                }
            }
            return Err(e);
        },
    };
    let sig_ok = match cose_signature_valid(&env, &leaf) {
        Ok(b) => b,
        Err(e) => {
            proof {
                assert(signature_uncheckable(document@, expected_image_id@)) by {
                    assert(payload_doc(document@, doc@));
                    assert(doc_lookup(doc@, key_pcrs()) matches Some(Item::Table(m))
                        && measurements_accepted(m@, expected_image_id@));
                    assert(bytes_entry(doc@, key_certificate()) == Some(leaf.der@));
                    assert(x509_der_ok(leaf.der@) && !cose_sig_checkable(document@, leaf.der@));
                }
            }
            return Err(e);
        },
    };
    if !sig_ok {
        proof {
            assert(signature_refused(document@, expected_image_id@)) by {
                assert(payload_doc(document@, doc@));
                assert(doc_lookup(doc@, key_pcrs()) matches Some(Item::Table(m))
                    && measurements_accepted(m@, expected_image_id@));
                assert(bytes_entry(doc@, key_certificate()) == Some(leaf.der@));
                assert(x509_der_ok(leaf.der@) && !cose_sig_ok(document@, leaf.der@));
            }
        }
        return Err(VerifyError::SignatureInvalid);
    }

    // Step 5: the document's own timestamp, milliseconds to seconds.
    let ts_idx = match doc_find(&doc, crate::attestation::key_timestamp_vec().as_slice()) {
        Some(i) => i,
        None => {
            proof {
                assert(field_refused(document@, VerifyError::TimestampMissing)) by {
                    assert(payload_doc(document@, doc@));
                    assert(field_error_cond(doc@, VerifyError::TimestampMissing));
                }
            }
            return Err(VerifyError::TimestampMissing);
        },
    };
    let ts: u64 = match &doc[ts_idx].1 {
        Item::One(Scalar::UInt(t)) => *t,
        _ => {
            proof {
                assert(field_refused(document@, VerifyError::TimestampNotInteger)) by {
                    assert(payload_doc(document@, doc@));
                    assert(field_error_cond(doc@, VerifyError::TimestampNotInteger));
                }
            }
            return Err(VerifyError::TimestampNotInteger);
        },
    };
    let secs_u = ts / 1000;
    let secs: i64 = secs_u as i64;

    // Steps 6 to 8: chain construction, walk, and root pinning.
    let bundle_idx = match doc_find(&doc, crate::attestation::key_cabundle_vec().as_slice()) {
        Some(i) => i,
        None => {
            proof {
                assert(field_refused(document@, VerifyError::CabundleMissing)) by {
                    assert(payload_doc(document@, doc@));
                    assert(field_error_cond(doc@, VerifyError::CabundleMissing));
                }
            }
            return Err(VerifyError::CabundleMissing);
        },
    };
    let bundle_items = match &doc[bundle_idx].1 {
        Item::Array(a) => a,
        _ => {
            proof {
                assert(field_refused(document@, VerifyError::CabundleMalformed)) by {
                    assert(payload_doc(document@, doc@));
                    assert(field_error_cond(doc@, VerifyError::CabundleMalformed));
                }
            }
            return Err(VerifyError::CabundleMalformed);
        },
    };
    let bundle = match extract_bundle(bundle_items) {
        Ok(b) => b,
        Err(e) => {
            proof {
                assert(field_refused(document@, e)) by {
                    assert(payload_doc(document@, doc@));
                    assert(field_error_cond(doc@, e));
                }
            }
            return Err(e);
        },
    };
    let ghost leaf_der: Seq<u8> = leaf.der@;
    let ghost bch: Seq<Seq<u8>> = bundle_value(doc@)->Some_0;
    proof {
        let arr = doc@[bundle_idx as int].1->Array_0;
        assert(forall|i: int| 0 <= i < arr@.len() ==> (#[trigger] arr@[i]) is Bytes);
        assert(bundle_value(doc@) is Some);
        assert(bch.len() == bundle@.len());
        assert forall|i: int| 0 <= i < bch.len() implies bch[i] == bundle@[i]@ by {
            assert(arr@[i] matches Scalar::Bytes(bb) && bb@ == bundle@[i]@);
        }
    }
    let chain = match build_chain(leaf, &bundle) {
        Ok(c) => c,
        Err(e) => {
            proof {
                assert(field_refused(document@, e)) by {
                    assert(payload_doc(document@, doc@));
                    let i = choose|i: int| 0 <= i < bundle@.len() && !x509_der_ok(bundle@[i]@);
                    assert(!x509_der_ok(bch[i]));
                    assert(field_error_cond(doc@, e));
                }
            }
            return Err(e);
        },
    };
    proof {
        assert forall|i: int| 0 <= i < bch.len() implies bch.reverse()[i] == chain@[1 + i].der@
        by {
            let j = bch.len() - 1 - i;
            assert(bch.reverse()[i] == bch[j]);
            assert(chain@[1 + j].der@ == bundle@[bundle@.len() - 1 - j]@);
        }
        assert(doc_chain(leaf_der, bch) =~= cert_ders(chain@));
        assert(secs as int == ts as int / 1000);
    }
    match verify_cert_chain(&chain, root_cert_pem, secs) {
        Ok(()) => (),
        Err(e) => {
            proof {
                assert(chain_refused(document@, root_cert_pem@, expected_image_id@, e)) by {
                    assert(payload_doc(document@, doc@));
                    assert(doc_lookup(doc@, key_pcrs()) matches Some(Item::Table(m))
                        && measurements_accepted(m@, expected_image_id@));
                    assert(bytes_entry(doc@, key_certificate()) == Some(leaf_der));
                    assert(x509_der_ok(leaf_der) && cose_sig_ok(document@, leaf_der));
                    assert(uint_entry(doc@, key_timestamp()) == Some(ts));
                    assert(crate::chain::chain_outcome(doc_chain(leaf_der, bch),
                        root_cert_pem@, ts as int / 1000) == Err::<(), VerifyError>(e));
                }
            }
            return Err(e);
        },
    }

    // Step 9: release the attested public key.
    let pk_idx = match doc_find(&doc, crate::attestation::key_public_key_vec().as_slice()) {
        Some(i) => i,
        None => {
            proof {
                assert(field_refused(document@, VerifyError::PublicKeyMissing)) by {
                    assert(payload_doc(document@, doc@));
                    assert(field_error_cond(doc@, VerifyError::PublicKeyMissing));
                }
            }
            return Err(VerifyError::PublicKeyMissing);
        },
    };
    let pk = match &doc[pk_idx].1 {
        Item::One(Scalar::Bytes(b)) => copy_bytes(b.as_slice()),
        _ => {
            proof {
                assert(field_refused(document@, VerifyError::PublicKeyNotBytes)) by {
                    assert(payload_doc(document@, doc@));
                    assert(field_error_cond(doc@, VerifyError::PublicKeyNotBytes));
                }
            }
            return Err(VerifyError::PublicKeyNotBytes);
        },
    };
    proof {
        let d = doc@;
        let m = doc@[pcrs_idx as int].1->Table_0;
        assert(pcr_value(m@, 0) == Some(pcr0@));
        assert(pcr_value(m@, 1) == Some(pcr1@));
        assert(pcr_value(m@, 2) == Some(pcr2@));
        assert(pcr16_value(m@) == pcr16@);
        assert(expected_image_id@ == image_id_of(pcr0@, pcr1@, pcr2@, pcr16_value(m@)));
        assert(measurements_accepted(m@, expected_image_id@));
        assert(bytes_entry(d, key_certificate()) == Some(leaf_der));
        assert(chain_ok(doc_chain(leaf_der, bch), root_cert_pem@, ts as int / 1000));
        assert(document_accepted(document@, root_cert_pem@, expected_image_id@, doc@, pk@));
        assert(verify_accepts(document@, root_cert_pem@, expected_image_id@, pk@)) by {
            assert(document_accepted(document@, root_cert_pem@, expected_image_id@, doc@, pk@));
        }
    }
    Ok(pk)
}

} // verus!
