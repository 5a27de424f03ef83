//! The single-shot channel protocol: key agreement, the authenticated
//! cipher, and the request/response rules of the two roles.
//!
//! Wire format of a request: byte 0 is the type tag.  Tag 0 carries a
//! 12-byte nonce and then ciphertext with its tag, sealed with associated
//! data `[0]`; tag 1 carries nothing; any other tag is unknown.  The
//! response has no framing: the connection's end delimits it.

use vstd::prelude::*;
use chacha20poly1305::aead::{Aead, AeadCore, KeyInit};

verus! {

/// The protocol's one failure: the ciphertext did not authenticate, from
/// tampering, truncation, a wrong key, or mismatched associated data.
#[derive(Debug)]
pub enum ProtocolError {
    AuthenticationFailure,
}

/// The shared secret the curve's scalar multiplication yields for a private
/// scalar and a peer point.  Outside code computes it; only the trusted
/// `agree` wrapper gives this name meaning.
pub uninterp spec fn x25519_of(private: Seq<u8>, peer_public: Seq<u8>) -> Seq<u8>;

/// Relies on x25519-dalek's `x25519`: Diffie-Hellman on Curve25519, a
/// function of the two 32-byte inputs alone.  The raw shared secret is used
/// directly as the channel's symmetric key; no derivation stage follows it.
#[verifier::external_body]
pub fn agree(private: &[u8], peer_public: &[u8]) -> (r: Vec<u8>)
    requires
        private@.len() == 32,
        peer_public@.len() == 32,
    ensures
        r@ == x25519_of(private@, peer_public@),
        r@.len() == 32,
{
    let mut a = [0u8; 32];
    a.copy_from_slice(private);
    let mut b = [0u8; 32];
    b.copy_from_slice(peer_public);
    x25519_dalek::x25519(a, b).to_vec()
}

/// The ciphertext-with-tag the cipher produces for a key, nonce, plaintext
/// and associated data.  Only the trusted `seal` wrapper gives this name
/// meaning.
pub uninterp spec fn seal_of(key: Seq<u8>, nonce: Seq<u8>, msg: Seq<u8>, aad: Seq<u8>) -> Seq<u8>;

/// What opening a ciphertext yields: the plaintext where key, nonce,
/// ciphertext and associated data authenticate, nothing otherwise.  Only
/// the trusted `open` wrapper gives this name meaning.
pub uninterp spec fn open_of(key: Seq<u8>, nonce: Seq<u8>, ct: Seq<u8>, aad: Seq<u8>) -> Option<
    Seq<u8>,
>;

/// Relies on chacha20poly1305's `encrypt`: authenticated encryption whose
/// output is plaintext length plus a 16-byte tag, a function of its inputs
/// alone, and which `decrypt` with the same key, nonce and associated data
/// reverses.  The length bound keeps the input strictly inside the
/// cipher's block-counter limit (fewer than 2^32 - 1 blocks of 64 bytes),
/// so encryption cannot fail.
#[verifier::external_body]
pub fn seal(key: &[u8], nonce: &[u8], msg: &[u8], aad: &[u8]) -> (r: Vec<u8>)
    requires
        key@.len() == 32,
        nonce@.len() == 12,
        msg@.len() < 0x3fffffffc0,
    ensures
        r@ == seal_of(key@, nonce@, msg@, aad@),
        r@.len() == msg@.len() + 16,
        open_of(key@, nonce@, r@, aad@) == Some(msg@),
{
    let cipher = <chacha20poly1305::ChaCha20Poly1305 as KeyInit>::new(key.into());
    cipher
        .encrypt(nonce.into(), chacha20poly1305::aead::Payload { msg, aad })
        .unwrap()
}

/// Relies on chacha20poly1305's `decrypt`: authenticated decryption, a
/// function of its inputs alone, failing exactly where key, nonce,
/// ciphertext and associated data do not authenticate.
#[verifier::external_body]
pub fn open(key: &[u8], nonce: &[u8], ct: &[u8], aad: &[u8]) -> (r: Result<
    Vec<u8>,
    ProtocolError,
>)
    requires
        key@.len() == 32,
        nonce@.len() == 12,
    ensures
        r matches Ok(p) ==> open_of(key@, nonce@, ct@, aad@) == Some(p@),
        r is Err ==> open_of(key@, nonce@, ct@, aad@) is None,
{
    let cipher = <chacha20poly1305::ChaCha20Poly1305 as KeyInit>::new(key.into());
    match cipher.decrypt(nonce.into(), chacha20poly1305::aead::Payload { msg: ct, aad }) {
        Ok(p) => Ok(p),
        Err(_) => Err(ProtocolError::AuthenticationFailure),
    }
}

/// Relies on chacha20poly1305's `generate_nonce` over the operating
/// system's randomness: 12 fresh bytes; nothing else is promised of them.
#[verifier::external_body]
pub fn generate_nonce() -> (r: Vec<u8>)
    ensures
        r@.len() == 12,
{
    let nonce = <chacha20poly1305::ChaCha20Poly1305 as AeadCore>::generate_nonce(
        &mut chacha20poly1305::aead::OsRng,
    );
    nonce.to_vec()
}

/// The associated data every sealed request carries: the single zero byte.
pub open spec fn request_aad() -> Seq<u8> {
    seq![0u8]
}

/// The acknowledgment sent after a stored delivery (`Data write suceeded!`).
pub open spec fn success_msg() -> Seq<u8> {
    seq![68u8, 97, 116, 97, 32, 119, 114, 105, 116, 101, 32, 115, 117, 99, 101, 101, 100, 101, 100, 33]
}

/// The reply to a request whose tag is not understood (`Unknown msg`).
pub open spec fn unknown_msg() -> Seq<u8> {
    seq![85u8, 110, 107, 110, 111, 119, 110, 32, 109, 115, 103]
}

/// The prefix of a computation reply (`Result: `).
pub open spec fn result_prefix() -> Seq<u8> {
    seq![82u8, 101, 115, 117, 108, 116, 58, 32]
}

/// The decimal digits of `n`, most significant first, as ASCII bytes.
pub open spec fn dec_of(n: nat) -> Seq<u8>
    decreases n,
{
    if n < 10 {
        seq![(48 + n) as u8]
    } else {
        dec_of(n / 10) + seq![(48 + n % 10) as u8]
    }
}

/// The placeholder computation over the stored payload: the wrapping sum of
/// its first two bytes, a byte absent from a short payload counting as zero.
pub open spec fn stored_sum(state: Seq<u8>) -> nat {
    let a: nat = if state.len() >= 1 { state[0] as nat } else { 0 };
    let b: nat = if state.len() >= 2 { state[1] as nat } else { 0 };
    ((a + b) % 256) as nat
}

/// The full computation reply for a stored payload.
pub open spec fn compute_reply(state: Seq<u8>) -> Seq<u8> {
    result_prefix() + dec_of(stored_sum(state))
}

/// What the responder does with one request: the response it writes, or the
/// authentication failure that aborts the connection, and the stored
/// payload's new value.
pub open spec fn request_outcome(
    key: Seq<u8>,
    state: Seq<u8>,
    req: Seq<u8>,
) -> (Result<Seq<u8>, ProtocolError>, Seq<u8>) {
    if req.len() == 0 {
        (Ok(unknown_msg()), state)
    } else if req[0] == 0 {
        if req.len() >= 13 && (open_of(
            key,
            req.subrange(1, 13),
            req.subrange(13, req.len() as int),
            request_aad(),
        ) matches Some(p)) {
            (Ok(success_msg()), open_of(
                key,
                req.subrange(1, 13),
                req.subrange(13, req.len() as int),
                request_aad(),
            )->Some_0)
        } else {
            (Err(ProtocolError::AuthenticationFailure), state)
        }
    } else if req[0] == 1 {
        (Ok(compute_reply(state)), state)
    } else {
        (Ok(unknown_msg()), state)
    }
}

fn request_aad_vec() -> (r: Vec<u8>)
    ensures
        r@ == request_aad(),
{
    let mut v: Vec<u8> = Vec::new();
    v.push(0);
    proof {
        assert(v@ =~= request_aad());
    }
    v
}

fn push_seq20(v: [u8; 20]) -> (r: Vec<u8>)
    ensures
        r@ == v@,
{
    let mut out: Vec<u8> = Vec::new();
    let mut i: usize = 0;
    while i < 20
        invariant
            0 <= i <= 20,
            out@ =~= v@.subrange(0, i as int),
        decreases 20 - i,
    {
        out.push(v[i]);
        i = i + 1;
    }
    proof {
        assert(v@.subrange(0, 20) =~= v@);
    }
    out
}

fn success_msg_vec() -> (r: Vec<u8>)
    ensures
        r@ == success_msg(),
{
    let bytes: [u8; 20] = [
        68, 97, 116, 97, 32, 119, 114, 105, 116, 101, 32, 115, 117, 99, 101, 101, 100, 101, 100,
        33,
    ];
    let r = push_seq20(bytes);
    proof {
        assert(r@ =~= success_msg());
    }
    r
}

fn unknown_msg_vec() -> (r: Vec<u8>)
    ensures
        r@ == unknown_msg(),
{
    let mut out: Vec<u8> = Vec::new();
    out.push(85);
    out.push(110);
    out.push(107);
    out.push(110);
    out.push(111);
    out.push(119);
    out.push(110);
    out.push(32);
    out.push(109);
    out.push(115);
    out.push(103);
    proof {
        assert(out@ =~= unknown_msg());
    }
    out
}

/// The decimal digits of a byte value, as ASCII.
fn u8_decimal(n: u8) -> (r: Vec<u8>)
    ensures
        r@ == dec_of(n as nat),
{
    let mut out: Vec<u8> = Vec::new();
    let hundreds = n / 100;
    let tens = (n % 100) / 10;
    let ones = n % 10;
    let m: Ghost<nat> = Ghost(n as nat);
    proof {
        reveal_with_fuel(dec_of, 4);
        assert(m@ / 10 / 10 == m@ / 100) by (nonlinear_arith);
        assert(m@ / 10 % 10 == m@ % 100 / 10) by (nonlinear_arith);
        assert(m@ < 10 ==> m@ % 10 == m@) by (nonlinear_arith);
        assert(10 <= m@ < 100 ==> 1 <= m@ / 10 < 10) by (nonlinear_arith);
        assert(100 <= m@ < 256 ==> 1 <= m@ / 100 < 10 && 10 <= m@ / 10 < 100) by (nonlinear_arith);
    }
    if n >= 100 {
        out.push(48 + hundreds);
        out.push(48 + tens);
        out.push(48 + ones);
        proof {
            assert(out@ =~= dec_of(m@));
        }
    } else if n >= 10 {
        out.push(48 + tens);
        out.push(48 + ones);
        proof {
            assert(tens == m@ / 10);
            assert(out@ =~= dec_of(m@));
        }
    } else {
        out.push(48 + ones);
        proof {
            assert(out@ =~= dec_of(m@));
        }
    }
    out
}

fn compute_reply_vec(state: &Vec<u8>) -> (r: Vec<u8>)
    ensures
        r@ == compute_reply(state@),
{
    let a: u8 = if state.len() >= 1 { state[0] } else { 0 };
    let b: u8 = if state.len() >= 2 { state[1] } else { 0 };
    let sum: u8 = ((a as u16 + b as u16) % 256) as u8;
    let mut out: Vec<u8> = Vec::new();
    out.push(82);
    out.push(101);
    out.push(115);
    out.push(117);
    out.push(108);
    out.push(116);
    out.push(58);
    out.push(32);
    proof {
        assert(out@ =~= result_prefix());
        assert(sum as nat == stored_sum(state@));
    }
    let digits = u8_decimal(sum);
    let mut i: usize = 0;
    let n = digits.len();
    while i < n
        invariant
            0 <= i <= n,
            n == digits@.len(),
            out@ == result_prefix() + digits@.subrange(0, i as int),
            digits@ == dec_of(stored_sum(state@)),
        decreases n - i,
    {
        out.push(digits[i]);
        proof {
            assert(result_prefix() + digits@.subrange(0, i + 1)
                =~= (result_prefix() + digits@.subrange(0, i as int)).push(digits@[i as int]));
        }
        i = i + 1;
    }
    proof {
        assert(digits@.subrange(0, n as int) =~= digits@);
    }
    out
}

/// The stored payload a fresh responder starts with: two zero bytes.
pub fn initial_state() -> (r: Vec<u8>)
    ensures
        r@ == seq![0u8, 0u8],
{
    let mut v: Vec<u8> = Vec::new();
    v.push(0);
    v.push(0);
    proof {
        assert(v@ =~= seq![0u8, 0u8]);
    }
    v
}

/// Handles one request against the channel key and the stored payload.
/// A delivery that authenticates replaces the payload and is acknowledged;
/// one that does not leaves it unchanged and aborts the connection.  A
/// computation request and an unknown tag never change the payload, and an
/// empty request is answered like an unknown tag.
pub fn handle_request(key: &[u8], state: &mut Vec<u8>, req: &[u8]) -> (r: Result<
    Vec<u8>,
    ProtocolError,
>)
    requires
        key@.len() == 32,
    ensures
        ({
            let (resp, st) = request_outcome(key@, old(state)@, req@);
            &&& final(state)@ == st
            &&& match (r, resp) {
                (Ok(v), Ok(s)) => v@ == s,
                (Err(e1), Err(e2)) => e1 == e2,
                _ => false,
            }
        }),
{
    if req.len() == 0 {
        return Ok(unknown_msg_vec());
    }
    let tag = req[0];
    if tag == 0 {
        if req.len() < 13 {
            return Err(ProtocolError::AuthenticationFailure);
        }
        let nonce = vstd::slice::slice_subrange(req, 1, 13);
        let ct = vstd::slice::slice_subrange(req, 13, req.len());
        let aad = request_aad_vec();
        match open(key, nonce, ct, aad.as_slice()) {
            Ok(p) => {
                *state = p;
                Ok(success_msg_vec())
            },
            Err(e) => Err(e),
        }
    } else if tag == 1 {
        Ok(compute_reply_vec(state))
    } else {
        Ok(unknown_msg_vec())
    }
}

/// Builds the initiator's delivery request: the delivery tag, the nonce,
/// then the payload sealed under the channel key with the protocol's
/// associated data.
pub fn build_request(key: &[u8], nonce: &[u8], payload: &[u8]) -> (r: Vec<u8>)
    requires
        key@.len() == 32,
        nonce@.len() == 12,
        payload@.len() < 0x3fffffffc0,
    ensures
        r@ == seq![0u8] + nonce@ + seal_of(key@, nonce@, payload@, request_aad()),
        r@.len() >= 13,
        open_of(key@, r@.subrange(1, 13), r@.subrange(13, r@.len() as int), request_aad())
            == Some(payload@),
{
    let mut out: Vec<u8> = Vec::new();
    out.push(0);
    let mut i: usize = 0;
    while i < 12
        invariant
            0 <= i <= 12,
            nonce@.len() == 12,
            out@.len() == 1 + i,
            out@[0] == 0u8,
            forall|j: int| 0 <= j < i ==> out@[1 + j] == nonce@[j],
        decreases 12 - i,
    {
        out.push(nonce[i]);
        i = i + 1;
    }
    proof {
        assert(out@ =~= seq![0u8] + nonce@);
    }
    let aad = request_aad_vec();
    let ct = seal(key, nonce, payload, aad.as_slice());
    let mut k: usize = 0;
    let m = ct.len();
    while k < m
        invariant
            0 <= k <= m,
            m == ct@.len(),
            out@ == seq![0u8] + nonce@ + ct@.subrange(0, k as int),
        decreases m - k,
    {
        out.push(ct[k]);
        proof {
            assert(seq![0u8] + nonce@ + ct@.subrange(0, k + 1)
                =~= (seq![0u8] + nonce@ + ct@.subrange(0, k as int)).push(ct@[k as int]));
        }
        k = k + 1;
    }
    proof {
        assert(ct@.subrange(0, m as int) =~= ct@);
        assert(out@.subrange(1, 13) =~= nonce@);
        assert(out@.subrange(13, out@.len() as int) =~= ct@);
    }
    out
}

} // verus!
