//! The measured image identity: a 256-bit digest over a fixed bitmask and
//! the four measurement registers 0, 1, 2 and 16, hex-encoded for comparison.

use vstd::prelude::*;

verus! {

/// The SHA-256 digest of a byte sequence.  The digest itself is outside
/// code; nothing but the trusted `sha256` wrapper gives this name meaning.
pub uninterp spec fn sha256_of(data: Seq<u8>) -> Seq<u8>;

/// Relies on sha2's `Sha256::digest`: the 32-byte SHA-256 digest of the
/// input, a function of the input bytes alone.
#[verifier::external_body]
fn sha256(data: &Vec<u8>) -> (r: Vec<u8>)
    ensures
        r@ == sha256_of(data@),
        r@.len() == 32,
{
    let digest = <sha2::Sha256 as sha2::Digest>::digest(data.as_slice());
    digest.to_vec()
}

/// The lowercase hex digit for a value below 16, as an ASCII byte.
pub open spec fn hex_digit(n: nat) -> u8 {
    if n < 10 {
        (48 + n) as u8
    } else {
        (87 + n) as u8
    }
}

/// The lowercase hex encoding of a byte sequence: two digits per byte,
/// high nibble first.
pub open spec fn hex_of(s: Seq<u8>) -> Seq<u8>
    decreases s.len(),
{
    if s.len() == 0 {
        Seq::empty()
    } else {
        hex_of(s.drop_last())
            + seq![hex_digit(s.last() as nat / 16), hex_digit(s.last() as nat % 16)]
    }
}

/// Relies on hex's `encode`: the lowercase hex digits of the input, high
/// nibble first, handed back as their ASCII bytes.
#[verifier::external_body]
fn hex_encode(data: &Vec<u8>) -> (r: Vec<u8>)
    ensures
        r@ == hex_of(data@),
{
    hex::encode(data.as_slice()).into_bytes()
}

/// The bitmask naming registers 0, 1, 2 and 16, as four big-endian bytes.
pub open spec fn mask_bytes() -> Seq<u8> {
    seq![0u8, 1u8, 0u8, 7u8]
}

/// What the image identity hashes: the register bitmask, then the four
/// measurements in register order.
pub open spec fn image_id_input(
    pcr0: Seq<u8>,
    pcr1: Seq<u8>,
    pcr2: Seq<u8>,
    pcr16: Seq<u8>,
) -> Seq<u8> {
    mask_bytes() + pcr0 + pcr1 + pcr2 + pcr16
}

/// The hex digest the verifier compares against the expected identity.
pub open spec fn image_id_of(
    pcr0: Seq<u8>,
    pcr1: Seq<u8>,
    pcr2: Seq<u8>,
    pcr16: Seq<u8>,
) -> Seq<u8> {
    hex_of(sha256_of(image_id_input(pcr0, pcr1, pcr2, pcr16)))
}

fn append_bytes(dst: &mut Vec<u8>, src: &[u8])
    ensures
        final(dst)@ == old(dst)@ + src@,
{
    let n = src.len();
    let mut i: usize = 0;
    while i < n
        invariant
            0 <= i <= n,
            n == src@.len(),
            dst@ == old(dst)@ + src@.subrange(0, i as int),
        decreases n - i,
    {
        dst.push(src[i]);
        proof {
            assert(old(dst)@ + src@.subrange(0, i + 1)
                =~= (old(dst)@ + src@.subrange(0, i as int)).push(src@[i as int]));
        }
        i = i + 1;
    }
    proof {
        assert(src@.subrange(0, n as int) =~= src@);
    }
}

/// The derived image identity for the given measurements, as lowercase hex
/// bytes.  Identical measurements always give the identical digest.
pub fn compute_image_id(
    pcr0: &Vec<u8>,
    pcr1: &Vec<u8>,
    pcr2: &Vec<u8>,
    pcr16: &Vec<u8>,
) -> (r: Vec<u8>)
    ensures
        r@ == image_id_of(pcr0@, pcr1@, pcr2@, pcr16@),
{
    let mut input: Vec<u8> = Vec::new();
    input.push(0);
    input.push(1);
    input.push(0);
    input.push(7);
    proof {
        assert(input@ =~= mask_bytes());
    }
    append_bytes(&mut input, pcr0.as_slice());
    append_bytes(&mut input, pcr1.as_slice());
    append_bytes(&mut input, pcr2.as_slice());
    append_bytes(&mut input, pcr16.as_slice());
    proof {
        assert(input@ =~= image_id_input(pcr0@, pcr1@, pcr2@, pcr16@));
    }
    let digest = sha256(&input);
    hex_encode(&digest)
}

/// The identity computation is deterministic: equal measurements give the
/// equal hex digest, whatever else differs between the two attempts.
pub proof fn lemma_image_id_deterministic(
    a0: Seq<u8>, a1: Seq<u8>, a2: Seq<u8>, a16: Seq<u8>,
    b0: Seq<u8>, b1: Seq<u8>, b2: Seq<u8>, b16: Seq<u8>,
)
    requires
        a0 == b0,
        a1 == b1,
        a2 == b2,
        a16 == b16,
    ensures
        image_id_of(a0, a1, a2, a16) == image_id_of(b0, b1, b2, b16),
{
}

} // verus!
