//! Certificate-chain policy: the chain is the leaf followed by the received
//! bundle reversed; every adjacent pair must check out for signature,
//! issuer and validity window at the attestation time; the last certificate
//! must be byte-identical to the pinned root.  The cryptographic checks are
//! outside calls; their outcomes are named over the certificates' DER bytes,
//! so the walk's contract pins which chains can pass.

use vstd::prelude::*;
use crate::attestation::{bytes_eq, VerifyError};

verus! {

#[verifier::external_type_specification]
#[verifier::external_body]
pub struct ExX509(openssl::x509::X509);

#[verifier::external_type_specification]
#[verifier::external_body]
pub struct ExAsn1Time(openssl::asn1::Asn1Time);

/// A certificate as the chain walk holds it: the DER bytes it was parsed
/// from, beside the parsed handle the outside checks run on.
pub(crate) struct ParsedCert {
    pub(crate) der: Vec<u8>,
    pub(crate) handle: openssl::x509::X509,
}

/// Whether the bytes parse as a DER certificate.  Only the trusted
/// `parse_cert_der` wrapper gives this name meaning.
pub uninterp spec fn x509_der_ok(der: Seq<u8>) -> bool;

/// Whether the bytes parse as a PEM certificate.  Only the trusted
/// `parse_root_pem` wrapper gives this name meaning.
pub uninterp spec fn pem_parses(pem: Seq<u8>) -> bool;

/// The DER re-encoding of a PEM certificate.  Only the trusted
/// `parse_root_pem` wrapper gives this name meaning.
pub uninterp spec fn pem_der_of(pem: Seq<u8>) -> Seq<u8>;

/// Whether the child certificate's signature verifies under the parent
/// certificate's public key.  Only the trusted `check_link_signature`
/// wrapper gives this name meaning.
pub uninterp spec fn signed_by(child_der: Seq<u8>, parent_der: Seq<u8>) -> bool;

/// Whether the parent certificate's subject and extensions make it a valid
/// issuer of the child.  Only the trusted `cert_issued` wrapper gives this
/// name meaning.
pub uninterp spec fn issues(parent_der: Seq<u8>, child_der: Seq<u8>) -> bool;

/// The start of a certificate's validity window, in Unix seconds.  Only the
/// trusted `not_before_after` wrapper gives this name meaning.
pub uninterp spec fn not_before_of(der: Seq<u8>) -> int;

/// The end of a certificate's validity window, in Unix seconds.  Only the
/// trusted `not_after_before` wrapper gives this name meaning.
pub uninterp spec fn not_after_of(der: Seq<u8>) -> int;

/// Whether the link's signature check can be carried out at all: the
/// parent's key extracts and the child's signature is of a checkable form.
/// Only the trusted `check_link_signature` wrapper gives this name meaning.
pub uninterp spec fn link_checkable(child_der: Seq<u8>, parent_der: Seq<u8>) -> bool;

/// Whether the certificate's validity-start field is well-formed enough to
/// compare.  Only the trusted `not_before_after` wrapper gives this name
/// meaning.
pub uninterp spec fn not_before_checkable(der: Seq<u8>) -> bool;

/// Whether the certificate's validity-end field is well-formed enough to
/// compare.  Only the trusted `not_after_before` wrapper gives this name
/// meaning.
pub uninterp spec fn not_after_checkable(der: Seq<u8>) -> bool;

/// Whether the seconds value is representable as a certificate time.  Only
/// the trusted `make_check_time` wrapper gives this name meaning.
pub uninterp spec fn time_representable(secs: int) -> bool;

/// Whether the pinned root loads: its PEM parses and re-encodes.  Only the
/// trusted `parse_root_pem` wrapper gives this name meaning.
pub uninterp spec fn root_loadable(pem: Seq<u8>) -> bool;

/// Relies on openssl's `X509::from_der`: parsing succeeds or fails on the
/// bytes alone, and the handle stands for exactly those bytes.
#[verifier::external_body]
pub(crate) fn parse_cert_der(der: &[u8]) -> (r: Result<ParsedCert, VerifyError>)
    ensures
        r matches Ok(c) ==> c.der@ == der@ && x509_der_ok(der@),
        r matches Err(e) ==> e is CertParse && !x509_der_ok(der@),
{
    match openssl::x509::X509::from_der(der) {
        Ok(handle) => Ok(ParsedCert { der: der.to_vec(), handle }),
        Err(_) => Err(VerifyError::CertParse),
    }
}

/// Relies on openssl's `X509::from_pem` and `X509Ref::to_der`: the pinned
/// root parsed from PEM and re-encoded to its DER bytes, both functions of
/// the input alone.
#[verifier::external_body]
pub(crate) fn parse_root_pem(pem: &[u8]) -> (r: Result<ParsedCert, VerifyError>)
    ensures
        r matches Ok(c) ==> pem_parses(pem@) && c.der@ == pem_der_of(pem@)
            && root_loadable(pem@),
        r matches Err(e) ==> e is RootParse && !root_loadable(pem@),
{
    let handle = match openssl::x509::X509::from_pem(pem) {
        Ok(h) => h,
        Err(_) => { return Err(VerifyError::RootParse); },
    };
    match handle.to_der() {
        Ok(der) => Ok(ParsedCert { der, handle }),
        Err(_) => Err(VerifyError::RootParse),
    }
}

/// Relies on openssl's `X509Ref::public_key` and `X509Ref::verify`: whether
/// the child's signature verifies under the parent's key, a function of the
/// two certificates alone.
#[verifier::external_body]
pub(crate) fn check_link_signature(child: &ParsedCert, parent: &ParsedCert) -> (r: Result<
    bool,
    VerifyError,
>)
    ensures
        r matches Ok(b) ==> b == signed_by(child.der@, parent.der@)
            && link_checkable(child.der@, parent.der@),
        r matches Err(e) ==> e is CryptoFailure && !link_checkable(child.der@, parent.der@),
{
    let key = match parent.handle.public_key() {
        Ok(k) => k,
        Err(_) => { return Err(VerifyError::CryptoFailure); },
    };
    match child.handle.verify(&key) {
        Ok(b) => Ok(b),
        Err(_) => Err(VerifyError::CryptoFailure),
    }
}

/// Relies on openssl's `X509Ref::issued`: whether the parent is a valid
/// issuer of the child by name and extension matching, a function of the
/// two certificates alone.
#[verifier::external_body]
pub(crate) fn cert_issued(parent: &ParsedCert, child: &ParsedCert) -> (r: bool)
    ensures
        r == issues(parent.der@, child.der@),
{
    parent.handle.issued(&child.handle) == openssl::x509::X509VerifyResult::OK
}

/// A moment in time as the certificate checks use it: the Unix seconds it
/// was built from, beside the outside handle comparisons run on.
pub(crate) struct CheckTime {
    pub(crate) secs: i64,
    pub(crate) handle: openssl::asn1::Asn1Time,
}

/// Relies on openssl's `Asn1Time::from_unix`: a time handle standing for
/// exactly the given Unix seconds.
#[verifier::external_body]
pub(crate) fn make_check_time(secs: i64) -> (r: Result<CheckTime, VerifyError>)
    ensures
        r matches Ok(t) ==> t.secs == secs && time_representable(secs as int),
        r matches Err(e) ==> e is TimestampRange && !time_representable(secs as int),
{
    match openssl::asn1::Asn1Time::from_unix(secs) {
        Ok(handle) => Ok(CheckTime { secs, handle }),
        Err(_) => Err(VerifyError::TimestampRange),
    }
}

/// Relies on openssl's `X509Ref::not_before` and `Asn1TimeRef::compare`:
/// whether the certificate's validity start lies after the given time.
#[verifier::external_body]
pub(crate) fn not_before_after(c: &ParsedCert, t: &CheckTime) -> (r: Result<bool, VerifyError>)
    ensures
        r matches Ok(b) ==> b == (not_before_of(c.der@) > t.secs) && not_before_checkable(c.der@),
        r matches Err(e) ==> e is CryptoFailure && !not_before_checkable(c.der@),
{
    match c.handle.not_before().compare(&t.handle) {
        Ok(ord) => Ok(ord == std::cmp::Ordering::Greater),
        Err(_) => Err(VerifyError::CryptoFailure),
    }
}

/// Relies on openssl's `X509Ref::not_after` and `Asn1TimeRef::compare`:
/// whether the certificate's validity end lies before the given time.
#[verifier::external_body]
pub(crate) fn not_after_before(c: &ParsedCert, t: &CheckTime) -> (r: Result<bool, VerifyError>)
    ensures
        r matches Ok(b) ==> b == (not_after_of(c.der@) < t.secs) && not_after_checkable(c.der@),
        r matches Err(e) ==> e is CryptoFailure && !not_after_checkable(c.der@),
{
    match c.handle.not_after().compare(&t.handle) {
        Ok(ord) => Ok(ord == std::cmp::Ordering::Less),
        Err(_) => Err(VerifyError::CryptoFailure),
    }
}

/// The DER bytes of a chain, in chain order.
pub(crate) open spec fn cert_ders(chain: Seq<ParsedCert>) -> Seq<Seq<u8>> {
    Seq::new(chain.len(), |i: int| chain[i].der@)
}

/// Everything the walk checks of a chain at time `t`: each link signed by
/// and issued by its parent and valid at `t`, and the last certificate
/// byte-identical to the pinned root.
pub open spec fn chain_ok(ders: Seq<Seq<u8>>, root_pem: Seq<u8>, t: int) -> bool {
    &&& ders.len() >= 1
    &&& forall|i: int| 0 <= i < ders.len() - 1 ==> {
        &&& signed_by(#[trigger] ders[i], ders[i + 1])
        &&& issues(ders[i + 1], ders[i])
        &&& not_before_of(ders[i]) <= t
        &&& not_after_of(ders[i]) >= t
    }
    &&& pem_parses(root_pem)
    &&& ders.last() == pem_der_of(root_pem)
}

/// Builds the chain: the leaf, then the bundle's certificates in reverse of
/// the received order, each parsed from its DER bytes.
pub(crate) fn build_chain(leaf: ParsedCert, bundle: &Vec<Vec<u8>>) -> (r: Result<
    Vec<ParsedCert>,
    VerifyError,
>)
    ensures
        r matches Ok(chain) ==> {
            &&& chain@.len() == 1 + bundle@.len()
            &&& chain@[0].der@ == leaf.der@
            &&& forall|i: int| 0 <= i < bundle@.len()
                ==> #[trigger] chain@[1 + i].der@ == bundle@[bundle@.len() - 1 - i]@
                    && x509_der_ok(chain@[1 + i].der@)
        },
        r matches Err(e) ==> e is CertParse
            && exists|i: int| 0 <= i < bundle@.len() && !x509_der_ok(bundle@[i]@),
{
    let mut chain: Vec<ParsedCert> = Vec::new();
    let n = bundle.len();
    chain.push(leaf);
    let mut k: usize = 0;
    while k < n
        invariant
            0 <= k <= n,
            n == bundle@.len(),
            chain@.len() == 1 + k,
            chain@[0].der@ == leaf.der@,
            forall|i: int| 0 <= i < k
                ==> #[trigger] chain@[1 + i].der@ == bundle@[n - 1 - i]@
                    && x509_der_ok(chain@[1 + i].der@),
        decreases n - k,
    {
        let cert = match parse_cert_der(bundle[n - 1 - k].as_slice()) {
            Ok(c) => c,
            Err(e) => { return Err(e); },
        };
        chain.push(cert);
        k = k + 1;
    }
    Ok(chain)
}

/// What one link's checks yield, in the walk's own order: the signature
/// check must be performable and pass, the parent must be the issuer, the
/// validity fields must compare and contain the attestation time.
pub open spec fn link_outcome(ders: Seq<Seq<u8>>, t: int, i: int) -> Result<(), VerifyError> {
    if !link_checkable(ders[i], ders[i + 1]) {
        Err(VerifyError::CryptoFailure)
    } else if !signed_by(ders[i], ders[i + 1]) {
        Err(VerifyError::ChainSignatureInvalid)
    } else if !issues(ders[i + 1], ders[i]) {
        Err(VerifyError::IssuerMismatch)
    } else if !not_after_checkable(ders[i]) {
        Err(VerifyError::CryptoFailure)
    } else if !not_before_checkable(ders[i]) {
        Err(VerifyError::CryptoFailure)
    } else if not_after_of(ders[i]) < t || not_before_of(ders[i]) > t {
        Err(VerifyError::CertTimeInvalid)
    } else {
        Ok(())
    }
}

/// The walk from link `i` on: the first failing link decides; a walk past
/// the last link is a pass.
pub open spec fn walk_outcome(ders: Seq<Seq<u8>>, t: int, i: int) -> Result<(), VerifyError>
    decreases ders.len() - i,
{
    if i < 0 || i >= ders.len() - 1 {
        Ok(())
    } else {
        match link_outcome(ders, t, i) {
            Err(e) => Err(e),
            Ok(u) => walk_outcome(ders, t, i + 1),
        }
    }
}

/// The whole walk's result as a function of the chain's DER bytes, the
/// pinned root's PEM bytes and the attestation time: time construction,
/// then the links in order, then root loading and byte-exact pinning.
pub open spec fn chain_outcome(ders: Seq<Seq<u8>>, root_pem: Seq<u8>, t: int) -> Result<
    (),
    VerifyError,
> {
    if !time_representable(t) {
        Err(VerifyError::TimestampRange)
    } else {
        match walk_outcome(ders, t, 0) {
            Err(e) => Err(e),
            Ok(u) => if !root_loadable(root_pem) {
                Err(VerifyError::RootParse)
            } else if ders.last() != pem_der_of(root_pem) {
                Err(VerifyError::RootMismatch)
            } else {
                Ok(())
            },
        }
    }
}

/// Walks the chain at the attestation time and pins it to the root.
///
/// The result is exactly `chain_outcome` of the chain's DER bytes: the
/// walk succeeds whenever every check passes, and the first failing check
/// names the error.  In particular, stated here as the walk's own law, a
/// chain in which some link's validity starts only after the attestation
/// time is never accepted, and neither is a chain whose last certificate
/// differs from the pinned root in any byte.
pub(crate) fn verify_cert_chain(chain: &Vec<ParsedCert>, root_pem: &[u8], time_secs: i64) -> (r: Result<
    (),
    VerifyError,
>)
    requires
        chain@.len() >= 1,
    ensures
        r == chain_outcome(cert_ders(chain@), root_pem@, time_secs as int),
        r is Ok ==> chain_ok(cert_ders(chain@), root_pem@, time_secs as int),
        (exists|i: int| 0 <= i < chain@.len() - 1
            && not_before_of(#[trigger] chain@[i].der@) > time_secs) ==> !(r is Ok),
        pem_parses(root_pem@) && chain@.last().der@ != pem_der_of(root_pem@) ==> !(r is Ok),
        r matches Err(e) ==> (e is ChainSignatureInvalid || e is IssuerMismatch
            || e is CertTimeInvalid || e is RootMismatch || e is RootParse
            || e is CryptoFailure || e is TimestampRange),
{
    let ghost ders = cert_ders(chain@);
    let ghost t0 = time_secs as int;
    let t = match make_check_time(time_secs) {
        Ok(t) => t,
        Err(e) => { return Err(e); },
    };
    let n = chain.len();
    let mut i: usize = 0;
    while i < n - 1
        invariant
            0 <= i <= n,
            n == chain@.len() >= 1,
            t.secs == time_secs,
            ders == cert_ders(chain@),
            t0 == time_secs as int,
            time_representable(t0),
            walk_outcome(ders, t0, 0) == walk_outcome(ders, t0, i as int),
            forall|j: int| 0 <= j < i ==> {
                &&& signed_by(#[trigger] chain@[j].der@, chain@[j + 1].der@)
                &&& issues(chain@[j + 1].der@, chain@[j].der@)
                &&& not_before_of(chain@[j].der@) <= time_secs
                &&& not_after_of(chain@[j].der@) >= time_secs
            },
        decreases n - i,
    {
        proof {
            assert(ders[i as int] == chain@[i as int].der@);
            assert(ders[i + 1] == chain@[i + 1].der@);
            assert(ders.len() == chain@.len());
        }
        let sig_ok = match check_link_signature(&chain[i], &chain[i + 1]) {
            Ok(b) => b,
            Err(e) => {
                proof {
                    assert(link_outcome(ders, t0, i as int)
                        == Err::<(), VerifyError>(VerifyError::CryptoFailure));
                }
                return Err(e);
            },
        };
        if !sig_ok {
            proof {
                assert(link_outcome(ders, t0, i as int)
                    == Err::<(), VerifyError>(VerifyError::ChainSignatureInvalid));
            }
            return Err(VerifyError::ChainSignatureInvalid);
        }
        if !cert_issued(&chain[i + 1], &chain[i]) {
            proof {
                assert(link_outcome(ders, t0, i as int)
                    == Err::<(), VerifyError>(VerifyError::IssuerMismatch));
            }
            return Err(VerifyError::IssuerMismatch);
        }
        let expired = match not_after_before(&chain[i], &t) {
            Ok(b) => b,
            Err(e) => {
                proof {
                    assert(link_outcome(ders, t0, i as int)
                        == Err::<(), VerifyError>(VerifyError::CryptoFailure));
                }
                return Err(e);
            },
        };
        let premature = match not_before_after(&chain[i], &t) {
            Ok(b) => b,
            Err(e) => {
                proof {
                    assert(link_outcome(ders, t0, i as int)
                        == Err::<(), VerifyError>(VerifyError::CryptoFailure));
                }
                return Err(e);
            },
        };
        if expired || premature {
            proof {
                assert(link_outcome(ders, t0, i as int)
                    == Err::<(), VerifyError>(VerifyError::CertTimeInvalid));
            }
            return Err(VerifyError::CertTimeInvalid);
        }
        proof {
            assert(link_outcome(ders, t0, i as int) == Ok::<(), VerifyError>(()));
            assert(walk_outcome(ders, t0, i as int) == walk_outcome(ders, t0, i + 1));
        }
        i = i + 1;
    }
    proof {
        assert(walk_outcome(ders, t0, (n - 1) as int) == Ok::<(), VerifyError>(()));
        assert(walk_outcome(ders, t0, 0) == Ok::<(), VerifyError>(()));
    }
    let root = match parse_root_pem(root_pem) {
        Ok(c) => c,
        Err(e) => { return Err(e); },
    };
    proof {
        assert(cert_ders(chain@).last() == chain@.last().der@);
    }
    if !bytes_eq(chain[n - 1].der.as_slice(), root.der.as_slice()) {
        return Err(VerifyError::RootMismatch);
    }
    proof {
        assert(forall|j: int| 0 <= j < chain@.len() - 1
            ==> #[trigger] cert_ders(chain@)[j] == chain@[j].der@);
    }
    Ok(())
}

} // verus!
