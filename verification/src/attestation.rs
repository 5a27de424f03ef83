//! Reading the attestation payload: lookups over the decoded CBOR document
//! and extraction of the measured-state registers, each with an exact
//! contract over the document's entries.

use vstd::prelude::*;
use crate::cbor::{Scalar, Item};

verus! {

/// Errors of the verification pipeline.  Each variant is returned on exactly
/// the condition its contract names; all are hard failures of the attempt.
#[derive(Debug)]
pub enum VerifyError {
    /// The signed envelope could not be decoded.
    CoseParse,
    /// The signed payload is not a well-formed document map.
    PayloadParse,
    /// The document has no usable entry for the measurement table.
    PcrsMissing,
    /// The measurement table entry is not a map.
    PcrsMalformed,
    /// A required measurement register is absent.
    PcrMissing(u64),
    /// A measurement register's value is not a byte string.
    PcrNotBytes(u64),
    /// The measured identity differs from the expected one; both hex digests
    /// are carried for diagnosis.
    ImageIdMismatch { expected: Vec<u8>, computed: Vec<u8> },
    /// The document has no leaf-certificate entry.
    CertificateMissing,
    /// The leaf-certificate entry is not a byte string.
    CertificateNotBytes,
    /// The envelope's signature did not verify under the leaf key.
    SignatureInvalid,
    /// The signature check itself could not be carried out.
    CryptoFailure,
    /// The document has no timestamp entry.
    TimestampMissing,
    /// The timestamp entry is not an unsigned integer.
    TimestampNotInteger,
    /// The timestamp does not fit the range certificate checks accept.
    TimestampRange,
    /// The document has no certificate-bundle entry.
    CabundleMissing,
    /// The certificate-bundle entry is not an array of byte strings.
    CabundleMalformed,
    /// The document has no attested-public-key entry.
    PublicKeyMissing,
    /// The attested-public-key entry is not a byte string.
    PublicKeyNotBytes,
    /// A certificate of the chain could not be parsed.
    CertParse,
    /// The pinned root could not be parsed from its PEM bytes.
    RootParse,
    /// A chain link's signature did not verify under its parent's key.
    ChainSignatureInvalid,
    /// A chain link's issuer does not match its parent's subject.
    IssuerMismatch,
    /// The attestation time falls outside a chain link's validity window.
    CertTimeInvalid,
    /// The chain's last certificate is not byte-identical to the pinned root.
    RootMismatch,
}

pub open spec fn key_pcrs() -> Seq<u8> {
    seq![112u8, 99, 114, 115]
}

pub open spec fn key_certificate() -> Seq<u8> {
    seq![99u8, 101, 114, 116, 105, 102, 105, 99, 97, 116, 101]
}

pub open spec fn key_timestamp() -> Seq<u8> {
    seq![116u8, 105, 109, 101, 115, 116, 97, 109, 112]
}

pub open spec fn key_cabundle() -> Seq<u8> {
    seq![99u8, 97, 98, 117, 110, 100, 108, 101]
}

pub open spec fn key_public_key() -> Seq<u8> {
    seq![112u8, 117, 98, 108, 105, 99, 95, 107, 101, 121]
}

/// The document key naming the measurement table (`pcrs`).
pub fn key_pcrs_vec() -> (r: Vec<u8>)
    ensures
        r@ == key_pcrs(),
{
    let mut v: Vec<u8> = Vec::new();
    v.push(112);
    v.push(99);
    v.push(114);
    v.push(115);
    proof {
        assert(v@ =~= key_pcrs());
    }
    v
}

/// The document key naming the leaf certificate (`certificate`).
pub fn key_certificate_vec() -> (r: Vec<u8>)
    ensures
        r@ == key_certificate(),
{
    let mut v: Vec<u8> = Vec::new();
    v.push(99);
    v.push(101);
    v.push(114);
    v.push(116);
    v.push(105);
    v.push(102);
    v.push(105);
    v.push(99);
    v.push(97);
    v.push(116);
    v.push(101);
    proof {
        assert(v@ =~= key_certificate());
    }
    v
}

/// The document key naming the claimed timestamp (`timestamp`).
pub fn key_timestamp_vec() -> (r: Vec<u8>)
    ensures
        r@ == key_timestamp(),
{
    let mut v: Vec<u8> = Vec::new();
    v.push(116);
    v.push(105);
    v.push(109);
    v.push(101);
    v.push(115);
    v.push(116);
    v.push(97);
    v.push(109);
    v.push(112);
    proof {
        assert(v@ =~= key_timestamp());
    }
    v
}

/// The document key naming the certificate bundle (`cabundle`).
pub fn key_cabundle_vec() -> (r: Vec<u8>)
    ensures
        r@ == key_cabundle(),
{
    let mut v: Vec<u8> = Vec::new();
    v.push(99);
    v.push(97);
    v.push(98);
    v.push(117);
    v.push(110);
    v.push(100);
    v.push(108);
    v.push(101);
    proof {
        assert(v@ =~= key_cabundle());
    }
    v
}

/// The document key naming the attested public key (`public_key`).
pub fn key_public_key_vec() -> (r: Vec<u8>)
    ensures
        r@ == key_public_key(),
{
    let mut v: Vec<u8> = Vec::new();
    v.push(112);
    v.push(117);
    v.push(98);
    v.push(108);
    v.push(105);
    v.push(99);
    v.push(95);
    v.push(107);
    v.push(101);
    v.push(121);
    proof {
        assert(v@ =~= key_public_key());
    }
    v
}

/// Whether a document key is the text string `name`.
pub open spec fn key_is(k: Scalar, name: Seq<u8>) -> bool {
    k matches Scalar::Text(t) && t@ == name
}

/// The first entry of `d` whose key is the text string `name`.
pub open spec fn doc_lookup(d: Seq<(Scalar, Item)>, name: Seq<u8>) -> Option<Item>
    decreases d.len(),
{
    if d.len() == 0 {
        None
    } else if key_is(d[0].0, name) {
        Some(d[0].1)
    } else {
        doc_lookup(d.drop_first(), name)
    }
}

/// The first pair of `m` whose key is the unsigned integer `idx`.
pub open spec fn table_lookup(m: Seq<(Scalar, Scalar)>, idx: u64) -> Option<Scalar>
    decreases m.len(),
{
    if m.len() == 0 {
        None
    } else if m[0].0 matches Scalar::UInt(k) && k == idx {
        Some(m[0].1)
    } else {
        table_lookup(m.drop_first(), idx)
    }
}

pub fn bytes_eq(a: &[u8], b: &[u8]) -> (r: bool)
    ensures
        r == (a@ == b@),
{
    if a.len() != b.len() {
        return false;
    }
    let n = a.len();
    let mut i: usize = 0;
    while i < n
        invariant
            0 <= i <= n,
            n == a@.len() == b@.len(),
            forall|j: int| 0 <= j < i ==> a@[j] == b@[j],
        decreases n - i,
    {
        if a[i] != b[i] {
            return false;
        }
        i = i + 1;
    }
    proof {
        assert(a@ =~= b@);
    }
    true
}

pub fn copy_bytes(src: &[u8]) -> (r: Vec<u8>)
    ensures
        r@ == src@,
{
    vstd::slice::slice_to_vec(src)
}

/// Finds the first entry keyed by the text string `name`, as an index into
/// the document.
pub fn doc_find(doc: &Vec<(Scalar, Item)>, name: &[u8]) -> (r: Option<usize>)
    ensures
        match r {
            Some(i) => i < doc@.len() && key_is(doc@[i as int].0, name@)
                && doc_lookup(doc@, name@) == Some(doc@[i as int].1)
                && forall|j: int| 0 <= j < i ==> !key_is(doc@[j].0, name@),
            None => doc_lookup(doc@, name@) is None,
        },
{
    let n = doc.len();
    proof {
        assert(doc@.subrange(0, n as int) =~= doc@);
    }
    let mut i: usize = 0;
    while i < n
        invariant
            0 <= i <= n,
            n == doc@.len(),
            forall|j: int| 0 <= j < i ==> !key_is(doc@[j].0, name@),
            doc_lookup(doc@, name@) == doc_lookup(doc@.subrange(i as int, n as int), name@),
        decreases n - i,
    {
        let hit = match &doc[i].0 {
            Scalar::Text(t) => bytes_eq(t.as_slice(), name),
            _ => false,
        };
        proof {
            assert(doc@.subrange(i as int, n as int)[0] == doc@[i as int]);
            assert(doc@.subrange(i as int, n as int).drop_first()
                =~= doc@.subrange(i + 1, n as int));
        }
        if hit {
            return Some(i);
        }
        i = i + 1;
    }
    proof {
        assert(doc@.subrange(n as int, n as int) =~= Seq::<(Scalar, Item)>::empty());
    }
    None
}

/// Finds the first pair of a measurement table keyed by the register
/// number `idx`.
pub fn table_find(m: &Vec<(Scalar, Scalar)>, idx: u64) -> (r: Option<usize>)
    ensures
        match r {
            Some(i) => i < m@.len()
                && (m@[i as int].0 matches Scalar::UInt(k) && k == idx)
                && table_lookup(m@, idx) == Some(m@[i as int].1),
            None => table_lookup(m@, idx) is None,
        },
{
    let n = m.len();
    proof {
        assert(m@.subrange(0, n as int) =~= m@);
    }
    let mut i: usize = 0;
    while i < n
        invariant
            0 <= i <= n,
            n == m@.len(),
            table_lookup(m@, idx) == table_lookup(m@.subrange(i as int, n as int), idx),
        decreases n - i,
    {
        let hit = match &m[i].0 {
            Scalar::UInt(k) => *k == idx,
            _ => false,
        };
        proof {
            assert(m@.subrange(i as int, n as int)[0] == m@[i as int]);
            assert(m@.subrange(i as int, n as int).drop_first()
                =~= m@.subrange(i + 1, n as int));
        }
        if hit {
            return Some(i);
        }
        i = i + 1;
    }
    proof {
        assert(m@.subrange(n as int, n as int) =~= Seq::<(Scalar, Scalar)>::empty());
    }
    None
}

/// A required measurement register: absent or non-bytes is a hard error.
pub fn extract_pcr(m: &Vec<(Scalar, Scalar)>, idx: u64) -> (r: Result<Vec<u8>, VerifyError>)
    ensures
        match r {
            Ok(b) => table_lookup(m@, idx) matches Some(Scalar::Bytes(v)) && v@ == b@,
            Err(e) => match e {
                VerifyError::PcrMissing(i) => i == idx && table_lookup(m@, idx) is None,
                VerifyError::PcrNotBytes(i) => i == idx
                    && (table_lookup(m@, idx) matches Some(s) && !(s is Bytes)),
                _ => false,
            },
        },
{
    match table_find(m, idx) {
        None => Err(VerifyError::PcrMissing(idx)),
        Some(i) => match &m[i].1 {
            Scalar::Bytes(b) => Ok(copy_bytes(b.as_slice())),
            _ => Err(VerifyError::PcrNotBytes(idx)),
        },
    }
}

/// The sequence of 48 zero bytes: the default for an absent optional
/// measurement register.
pub open spec fn zero_pcr() -> Seq<u8> {
    Seq::new(48, |i: int| 0u8)
}

/// An optional measurement register: absent or non-bytes falls back to 48
/// zero bytes.
pub fn extract_pcr_optional(m: &Vec<(Scalar, Scalar)>, idx: u64) -> (r: Vec<u8>)
    ensures
        match table_lookup(m@, idx) {
            Some(Scalar::Bytes(v)) => r@ == v@,
            _ => r@ == zero_pcr(),
        },
{
    match table_find(m, idx) {
        Some(i) => match &m[i].1 {
            Scalar::Bytes(b) => copy_bytes(b.as_slice()),
            _ => zero_pcr_vec(),
        },
        None => zero_pcr_vec(),
    }
}

fn zero_pcr_vec() -> (r: Vec<u8>)
    ensures
        r@ == zero_pcr(),
{
    let mut v: Vec<u8> = Vec::new();
    let mut i: usize = 0;
    while i < 48
        invariant
            0 <= i <= 48,
            v@.len() == i,
            forall|j: int| 0 <= j < i ==> v@[j] == 0u8,
        decreases 48 - i,
    {
        v.push(0);
        i = i + 1;
    }
    proof {
        assert(v@ =~= zero_pcr());
    }
    v
}

/// The certificate bundle: every element must be a byte string.
pub open spec fn bundle_ok(a: Seq<Scalar>, out: Seq<Vec<u8>>) -> bool {
    &&& a.len() == out.len()
    &&& forall|i: int| 0 <= i < a.len()
        ==> (#[trigger] a[i] matches Scalar::Bytes(b) && b@ == out[i]@)
}

/// Collects the bundle's byte strings; any non-bytes element is a hard error.
pub fn extract_bundle(a: &Vec<Scalar>) -> (r: Result<Vec<Vec<u8>>, VerifyError>)
    ensures
        match r {
            Ok(out) => bundle_ok(a@, out@),
            Err(e) => e is CabundleMalformed
                && exists|i: int| 0 <= i < a@.len() && !(a@[i] is Bytes),
        },
{
    let n = a.len();
    let mut out: Vec<Vec<u8>> = Vec::new();
    let mut i: usize = 0;
    while i < n
        invariant
            0 <= i <= n,
            n == a@.len(),
            out@.len() == i,
            forall|j: int| 0 <= j < i
                ==> (#[trigger] a@[j] matches Scalar::Bytes(b) && b@ == out@[j]@),
        decreases n - i,
    {
        match &a[i] {
            Scalar::Bytes(b) => {
                let c = copy_bytes(b.as_slice());
                out.push(c);
                assert(a@[i as int] matches Scalar::Bytes(b2) && b2@ == out@[i as int]@);
            },
            _ => {
                return Err(VerifyError::CabundleMalformed);
            },
        }
        i = i + 1;
    }
    Ok(out)
}

} // verus!
