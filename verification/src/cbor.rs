//! A CBOR codec for the attestation-document profile: maps whose keys are
//! scalars and whose values are scalars, arrays of scalars, or maps of
//! scalars.  Only canonical (minimal-length, definite-length) encodings are
//! accepted, and the parser's contract covers both directions: a successful
//! parse pins the input bytes as exactly the encoding of the returned
//! document, and a failed parse means no document encodes to the input.

use vstd::prelude::*;

verus! {

/// A CBOR data item without nested containers.
pub enum Scalar {
    /// Major type 0: an unsigned integer.
    UInt(u64),
    /// Major type 1: the negative integer `-1 - n`, carried as `n`.
    NegInt(u64),
    /// Major type 2: a byte string.
    Bytes(Vec<u8>),
    /// Major type 3: a text string, carried as its UTF-8 bytes.
    Text(Vec<u8>),
    /// Major type 7, simple values 20 and 21.
    Bool(bool),
    /// Major type 7, simple value 22.
    Null,
}

/// A CBOR data item one container level deep.
pub enum Item {
    One(Scalar),
    Array(Vec<Scalar>),
    Table(Vec<(Scalar, Scalar)>),
}

/// The big-endian `k`-byte encoding of `n`.
pub open spec fn be_bytes(n: nat, k: nat) -> Seq<u8>
    decreases k,
{
    if k == 0 {
        Seq::empty()
    } else {
        be_bytes(n / 256, (k - 1) as nat) + seq![(n % 256) as u8]
    }
}

/// The canonical CBOR head for major type `major` with argument `n`.
pub open spec fn head(major: nat, n: nat) -> Seq<u8> {
    if n < 24 {
        seq![(major * 32 + n) as u8]
    } else if n < 0x100 {
        seq![(major * 32 + 24) as u8] + be_bytes(n, 1)
    } else if n < 0x10000 {
        seq![(major * 32 + 25) as u8] + be_bytes(n, 2)
    } else if n < 0x100000000 {
        seq![(major * 32 + 26) as u8] + be_bytes(n, 4)
    } else {
        seq![(major * 32 + 27) as u8] + be_bytes(n, 8)
    }
}

pub open spec fn enc_scalar(s: Scalar) -> Seq<u8> {
    match s {
        Scalar::UInt(n) => head(0, n as nat),
        Scalar::NegInt(n) => head(1, n as nat),
        Scalar::Bytes(b) => head(2, b@.len()) + b@,
        Scalar::Text(t) => head(3, t@.len()) + t@,
        Scalar::Bool(x) => if x { seq![0xf5u8] } else { seq![0xf4u8] },
        Scalar::Null => seq![0xf6u8],
    }
}

pub open spec fn enc_scalar_seq(s: Seq<Scalar>) -> Seq<u8>
    decreases s.len(),
{
    if s.len() == 0 {
        Seq::empty()
    } else {
        enc_scalar(s[0]) + enc_scalar_seq(s.drop_first())
    }
}

pub open spec fn enc_pair_seq(s: Seq<(Scalar, Scalar)>) -> Seq<u8>
    decreases s.len(),
{
    if s.len() == 0 {
        Seq::empty()
    } else {
        enc_scalar(s[0].0) + enc_scalar(s[0].1) + enc_pair_seq(s.drop_first())
    }
}

pub open spec fn enc_item(it: Item) -> Seq<u8> {
    match it {
        Item::One(s) => enc_scalar(s),
        Item::Array(v) => head(4, v@.len()) + enc_scalar_seq(v@),
        Item::Table(v) => head(5, v@.len()) + enc_pair_seq(v@),
    }
}

pub open spec fn enc_entry_seq(s: Seq<(Scalar, Item)>) -> Seq<u8>
    decreases s.len(),
{
    if s.len() == 0 {
        Seq::empty()
    } else {
        enc_scalar(s[0].0) + enc_item(s[0].1) + enc_entry_seq(s.drop_first())
    }
}

/// The encoding of a whole document: a CBOR map of entries.
pub open spec fn enc_document(d: Seq<(Scalar, Item)>) -> Seq<u8> {
    head(5, d.len()) + enc_entry_seq(d)
}

proof fn lemma_enc_scalar_seq_push(s: Seq<Scalar>, x: Scalar)
    ensures
        enc_scalar_seq(s.push(x)) == enc_scalar_seq(s) + enc_scalar(x),
    decreases s.len(),
{
    if s.len() == 0 {
        reveal_with_fuel(enc_scalar_seq, 2);
        assert(s.push(x).drop_first() =~= Seq::<Scalar>::empty());
        assert(enc_scalar_seq(s.push(x)) =~= enc_scalar_seq(s) + enc_scalar(x));
    } else {
        assert(s.push(x).drop_first() =~= s.drop_first().push(x));
        lemma_enc_scalar_seq_push(s.drop_first(), x);
        assert(enc_scalar_seq(s.push(x)) =~= enc_scalar_seq(s) + enc_scalar(x));
    }
}

proof fn lemma_enc_pair_seq_push(s: Seq<(Scalar, Scalar)>, x: (Scalar, Scalar))
    ensures
        enc_pair_seq(s.push(x)) == enc_pair_seq(s) + enc_scalar(x.0) + enc_scalar(x.1),
    decreases s.len(),
{
    if s.len() == 0 {
        reveal_with_fuel(enc_pair_seq, 2);
        assert(s.push(x).drop_first() =~= Seq::<(Scalar, Scalar)>::empty());
        assert(enc_pair_seq(s.push(x)) =~= enc_pair_seq(s) + enc_scalar(x.0) + enc_scalar(x.1));
    } else {
        assert(s.push(x).drop_first() =~= s.drop_first().push(x));
        lemma_enc_pair_seq_push(s.drop_first(), x);
        assert(enc_pair_seq(s.push(x)) =~= enc_pair_seq(s) + enc_scalar(x.0) + enc_scalar(x.1));
    }
}

proof fn lemma_enc_entry_seq_push(s: Seq<(Scalar, Item)>, x: (Scalar, Item))
    ensures
        enc_entry_seq(s.push(x)) == enc_entry_seq(s) + enc_scalar(x.0) + enc_item(x.1),
    decreases s.len(),
{
    if s.len() == 0 {
        reveal_with_fuel(enc_entry_seq, 2);
        assert(s.push(x).drop_first() =~= Seq::<(Scalar, Item)>::empty());
        assert(enc_entry_seq(s.push(x)) =~= enc_entry_seq(s) + enc_scalar(x.0) + enc_item(x.1));
    } else {
        assert(s.push(x).drop_first() =~= s.drop_first().push(x));
        lemma_enc_entry_seq_push(s.drop_first(), x);
        assert(enc_entry_seq(s.push(x)) =~= enc_entry_seq(s) + enc_scalar(x.0) + enc_item(x.1));
    }
}

/// The value a big-endian byte sequence stands for.
pub open spec fn be_val(s: Seq<u8>) -> nat
    decreases s.len(),
{
    if s.len() == 0 {
        0
    } else {
        be_val(s.drop_last()) * 256 + s.last() as nat
    }
}

pub open spec fn pow256(k: nat) -> nat
    decreases k,
{
    if k == 0 {
        1
    } else {
        256 * pow256((k - 1) as nat)
    }
}

proof fn lemma_be_roundtrip(s: Seq<u8>)
    ensures
        be_val(s) < pow256(s.len()),
        be_bytes(be_val(s), s.len()) == s,
    decreases s.len(),
{
    if s.len() == 0 {
        assert(be_bytes(0, 0) =~= s);
    } else {
        let hi = s.drop_last();
        lemma_be_roundtrip(hi);
        let n = be_val(s);
        assert(n == be_val(hi) * 256 + s.last());
        assert(s.last() < 256);
        assert(n < pow256(s.len())) by {
            assert(be_val(hi) <= pow256(hi.len()) - 1);
            assert(be_val(hi) * 256 <= (pow256(hi.len()) - 1) * 256) by (nonlinear_arith)
                requires be_val(hi) <= pow256(hi.len()) - 1;
            assert(pow256(s.len()) == 256 * pow256(hi.len()));
        }
        assert(n / 256 == be_val(hi) && n % 256 == s.last()) by (nonlinear_arith)
            requires n == be_val(hi) * 256 + s.last(), 0 <= s.last() < 256;
        assert(be_bytes(n, s.len()) =~= be_bytes(be_val(hi), hi.len()) + seq![s.last()]);
        assert(be_bytes(n, s.len()) =~= s);
    }
}

proof fn lemma_be_bytes_len(n: nat, k: nat)
    ensures
        be_bytes(n, k).len() == k,
    decreases k,
{
    if k > 0 {
        lemma_be_bytes_len(n / 256, (k - 1) as nat);
    }
}

proof fn lemma_be_val_of_bytes(n: nat, k: nat)
    requires
        n < pow256(k),
    ensures
        be_val(be_bytes(n, k)) == n,
    decreases k,
{
    if k == 0 {
    } else {
        lemma_be_bytes_len(n / 256, (k - 1) as nat);
        assert(pow256(k) == 256 * pow256((k - 1) as nat));
        assert(n / 256 < pow256((k - 1) as nat)) by (nonlinear_arith)
            requires n < pow256(k), pow256(k) == 256 * pow256((k - 1) as nat);
        lemma_be_val_of_bytes(n / 256, (k - 1) as nat);
        let s = be_bytes(n, k);
        assert(s.drop_last() =~= be_bytes(n / 256, (k - 1) as nat));
        assert(s.last() == (n % 256) as u8);
        assert(be_val(s) == (n / 256) * 256 + n % 256);
        assert((n / 256) * 256 + n % 256 == n) by (nonlinear_arith);
    }
}

/// The additional-information code a canonical head uses for argument `n`.
pub open spec fn head_info(n: nat) -> nat {
    if n < 24 {
        n
    } else if n < 0x100 {
        24
    } else if n < 0x10000 {
        25
    } else if n < 0x100000000 {
        26
    } else {
        27
    }
}

/// How many argument bytes a canonical head carries for argument `n`.
pub open spec fn head_arg(n: nat) -> nat {
    if n < 24 {
        0
    } else if n < 0x100 {
        1
    } else if n < 0x10000 {
        2
    } else if n < 0x100000000 {
        4
    } else {
        8
    }
}

proof fn lemma_head_parts(m: nat, n: nat)
    requires
        m < 8,
    ensures
        head(m, n).len() == 1 + head_arg(n),
        m * 32 + head_info(n) < 256,
        head(m, n)[0] == (m * 32 + head_info(n)) as u8,
        head(m, n).subrange(1, head(m, n).len() as int) == be_bytes(n, head_arg(n)),
{
    lemma_be_bytes_len(n, head_arg(n));
    assert(head(m, n).subrange(1, head(m, n).len() as int) =~= be_bytes(n, head_arg(n)));
}

/// Whatever head sits at `pos`, its first byte, length, and argument bytes
/// are determined by the head's parameters.
proof fn lemma_head_at(bytes: Seq<u8>, pos: int, m: nat, n: nat, e: int)
    requires
        0 <= pos <= e <= bytes.len(),
        m < 8,
        bytes.subrange(pos, e) == head(m, n),
    ensures
        e == pos + 1 + head_arg(n),
        bytes[pos] == (m * 32 + head_info(n)) as u8,
        head_info(n) >= 24 ==> bytes.subrange(pos + 1, e) == be_bytes(n, head_arg(n)),
{
    lemma_head_parts(m, n);
    assert(bytes.subrange(pos, e).len() == e - pos);
    assert(bytes[pos] == bytes.subrange(pos, e)[0]);
    if head_info(n) >= 24 {
        assert(bytes.subrange(pos + 1, e)
            =~= head(m, n).subrange(1, head(m, n).len() as int));
    }
}

/// A head's first byte decomposes uniquely into major type and code.
proof fn lemma_byte_decomp(b: u8, m: nat, i: nat)
    requires
        b as nat == m * 32 + i,
        i < 32,
        m < 8,
    ensures
        m == b as nat / 32,
        i == b as nat % 32,
{
    assert(m == b as nat / 32 && i == b as nat % 32) by (nonlinear_arith)
        requires b as nat == m * 32 + i, 0 <= i < 32;
}

/// Full inversion: any head lying at `pos` is pinned by the bytes there.
proof fn lemma_head_inv(bytes: Seq<u8>, pos: int, m: nat, n: nat, e: int)
    requires
        0 <= pos < bytes.len(),
        pos <= e <= bytes.len(),
        m < 8,
        bytes.subrange(pos, e) == head(m, n),
    ensures
        m == bytes[pos] as nat / 32,
        head_info(n) == bytes[pos] as nat % 32,
        e == pos + 1 + head_arg(n),
        head_info(n) >= 24 && n < 0x10000000000000000
            ==> n == be_val(bytes.subrange(pos + 1, e)),
{
    lemma_head_at(bytes, pos, m, n, e);
    lemma_byte_decomp(bytes[pos], m, head_info(n));
    if head_info(n) >= 24 && n < 0x10000000000000000 {
        assert(pow256(1) == 0x100 && pow256(2) == 0x10000 && pow256(4) == 0x100000000
            && pow256(8) == 0x10000000000000000) by {
            reveal_with_fuel(pow256, 9);
        }
        lemma_be_val_of_bytes(n, head_arg(n));
    }
}

/// Reads `k` big-endian bytes at `pos`.
fn parse_be(bytes: &[u8], pos: usize, k: usize) -> (r: u64)
    requires
        pos + k <= bytes@.len(),
        k <= 8,
    ensures
        be_bytes(r as nat, k as nat) == bytes@.subrange(pos as int, pos + k),
        r < pow256(k as nat),
{
    proof {
        // pow256(8) fits u64's range with none to spare.
        assert(pow256(8) == 0x10000000000000000) by {
            reveal_with_fuel(pow256, 9);
        }
    }
    let blen = bytes.len();
    let mut acc: u64 = 0;
    let mut i: usize = 0;
    while i < k
        invariant
            0 <= i <= k,
            k <= 8,
            pos + k <= bytes@.len(),
            bytes@.len() == blen,
            acc == be_val(bytes@.subrange(pos as int, pos + i)),
            acc < pow256(i as nat),
            pow256(8) == 0x10000000000000000,
        decreases k - i,
    {
        proof {
            assert(pow256(i as nat) * 256 == pow256((i + 1) as nat)) by {
                lemma_pow256_step(i as nat);
            }
            assert(acc * 256 <= (pow256(i as nat) - 1) * 256) by (nonlinear_arith)
                requires acc <= pow256(i as nat) - 1;
            assert(pow256((i + 1) as nat) <= pow256(8)) by {
                lemma_pow256_mono((i + 1) as nat, 8);
            }
        }
        let b = bytes[pos + i];
        proof {
            assert(bytes@.subrange(pos as int, pos + i + 1).drop_last()
                =~= bytes@.subrange(pos as int, pos + i));
            assert(bytes@.subrange(pos as int, pos + i + 1).last() == b);
        }
        acc = acc * 256 + (b as u64);
        i = i + 1;
    }
    proof {
        lemma_be_roundtrip(bytes@.subrange(pos as int, pos + k));
    }
    acc
}

proof fn lemma_pow256_step(k: nat)
    ensures
        pow256(k) * 256 == pow256(k + 1),
{
    assert(pow256(k + 1) == 256 * pow256(k));
}

proof fn lemma_pow256_mono(a: nat, b: nat)
    requires
        a <= b,
    ensures
        pow256(a) <= pow256(b),
    decreases b,
{
    if a < b {
        lemma_pow256_mono(a, (b - 1) as nat);
        assert(pow256(b) == 256 * pow256((b - 1) as nat));
        assert(pow256((b - 1) as nat) <= 256 * pow256((b - 1) as nat)) by (nonlinear_arith)
            requires pow256((b - 1) as nat) >= 0;
    }
}

/// Reads one canonical CBOR head at `pos`: the major type, the argument, and
/// the position just past the head.  Fails on indefinite lengths, reserved
/// additional-information values, and non-minimal arguments.
fn parse_head(bytes: &[u8], pos: usize) -> (r: Option<(u8, u64, usize)>)
    requires
        pos <= bytes@.len(),
    ensures
        r matches Some((major, n, end)) ==> {
            &&& major < 8
            &&& pos < end <= bytes@.len()
            &&& bytes@.subrange(pos as int, end as int) == head(major as nat, n as nat)
        },
        forall|m2: nat, n2: nat, e2: int|
            #![trigger bytes@.subrange(pos as int, e2), head(m2, n2)]
            m2 < 8 && n2 < 0x10000000000000000 && pos <= e2 <= bytes@.len()
            && bytes@.subrange(pos as int, e2) == head(m2, n2)
            ==> (r matches Some(t) && t.0 as nat == m2 && t.1 as nat == n2 && t.2 as int == e2),
{
    if pos >= bytes.len() {
        proof {
            assert forall|m2: nat, n2: nat, e2: int|
                m2 < 8 && n2 < 0x10000000000000000 && pos <= e2 <= bytes@.len()
                && bytes@.subrange(pos as int, e2) == head(m2, n2)
                implies false by {
                lemma_head_parts(m2, n2);
            }
        }
        return None;
    }
    let b = bytes[pos];
    let major = b / 32;
    let info = b % 32;
    if info < 24 {
        proof {
            assert(bytes@.subrange(pos as int, pos + 1)
                =~= head(major as nat, info as nat));
            assert forall|m2: nat, n2: nat, e2: int|
                m2 < 8 && n2 < 0x10000000000000000 && pos <= e2 <= bytes@.len()
                && bytes@.subrange(pos as int, e2) == head(m2, n2)
                implies m2 == major as nat && n2 == info as nat && e2 == pos + 1 by {
                lemma_head_inv(bytes@, pos as int, m2, n2, e2);
            }
        }
        Some((major, info as u64, pos + 1))
    } else if info == 24 {
        if bytes.len() - pos < 2 {
            proof {
                assert forall|m2: nat, n2: nat, e2: int|
                    m2 < 8 && n2 < 0x10000000000000000 && pos <= e2 <= bytes@.len()
                    && bytes@.subrange(pos as int, e2) == head(m2, n2)
                    implies false by {
                    lemma_head_inv(bytes@, pos as int, m2, n2, e2);
                }
            }
            return None;
        }
        let n = parse_be(bytes, pos + 1, 1);
        proof {
            assert(pow256(1) == 256) by { reveal_with_fuel(pow256, 2); }
            lemma_be_val_of_bytes(n as nat, 1);
            assert(be_val(bytes@.subrange(pos + 1, pos + 2)) == n);
        }
        if n < 24 {
            proof {
                assert forall|m2: nat, n2: nat, e2: int|
                    m2 < 8 && n2 < 0x10000000000000000 && pos <= e2 <= bytes@.len()
                    && bytes@.subrange(pos as int, e2) == head(m2, n2)
                    implies false by {
                    lemma_head_inv(bytes@, pos as int, m2, n2, e2);
                }
            }
            return None;
        }
        proof {
            assert(bytes@.subrange(pos as int, pos + 2)
                =~= seq![(major * 32 + 24) as u8] + bytes@.subrange(pos + 1, pos + 2));
            assert forall|m2: nat, n2: nat, e2: int|
                m2 < 8 && n2 < 0x10000000000000000 && pos <= e2 <= bytes@.len()
                && bytes@.subrange(pos as int, e2) == head(m2, n2)
                implies m2 == major as nat && n2 == n as nat && e2 == pos + 2 by {
                lemma_head_inv(bytes@, pos as int, m2, n2, e2);
            }
        }
        Some((major, n, pos + 2))
    } else if info == 25 {
        if bytes.len() - pos < 3 {
            proof {
                assert forall|m2: nat, n2: nat, e2: int|
                    m2 < 8 && n2 < 0x10000000000000000 && pos <= e2 <= bytes@.len()
                    && bytes@.subrange(pos as int, e2) == head(m2, n2)
                    implies false by {
                    lemma_head_inv(bytes@, pos as int, m2, n2, e2);
                }
            }
            return None;
        }
        let n = parse_be(bytes, pos + 1, 2);
        proof {
            assert(pow256(2) == 0x10000) by { reveal_with_fuel(pow256, 3); }
            lemma_be_val_of_bytes(n as nat, 2);
            assert(be_val(bytes@.subrange(pos + 1, pos + 3)) == n);
        }
        if n < 0x100 {
            proof {
                assert forall|m2: nat, n2: nat, e2: int|
                    m2 < 8 && n2 < 0x10000000000000000 && pos <= e2 <= bytes@.len()
                    && bytes@.subrange(pos as int, e2) == head(m2, n2)
                    implies false by {
                    lemma_head_inv(bytes@, pos as int, m2, n2, e2);
                }
            }
            return None;
        }
        proof {
            assert(bytes@.subrange(pos as int, pos + 3)
                =~= seq![(major * 32 + 25) as u8] + bytes@.subrange(pos + 1, pos + 3));
            assert forall|m2: nat, n2: nat, e2: int|
                m2 < 8 && n2 < 0x10000000000000000 && pos <= e2 <= bytes@.len()
                && bytes@.subrange(pos as int, e2) == head(m2, n2)
                implies m2 == major as nat && n2 == n as nat && e2 == pos + 3 by {
                lemma_head_inv(bytes@, pos as int, m2, n2, e2);
            }
        }
        Some((major, n, pos + 3))
    } else if info == 26 {
        if bytes.len() - pos < 5 {
            proof {
                assert forall|m2: nat, n2: nat, e2: int|
                    m2 < 8 && n2 < 0x10000000000000000 && pos <= e2 <= bytes@.len()
                    && bytes@.subrange(pos as int, e2) == head(m2, n2)
                    implies false by {
                    lemma_head_inv(bytes@, pos as int, m2, n2, e2);
                }
            }
            return None;
        }
        let n = parse_be(bytes, pos + 1, 4);
        proof {
            assert(pow256(4) == 0x100000000) by { reveal_with_fuel(pow256, 5); }
            lemma_be_val_of_bytes(n as nat, 4);
            assert(be_val(bytes@.subrange(pos + 1, pos + 5)) == n);
        }
        if n < 0x10000 {
            proof {
                assert forall|m2: nat, n2: nat, e2: int|
                    m2 < 8 && n2 < 0x10000000000000000 && pos <= e2 <= bytes@.len()
                    && bytes@.subrange(pos as int, e2) == head(m2, n2)
                    implies false by {
                    lemma_head_inv(bytes@, pos as int, m2, n2, e2);
                }
            }
            return None;
        }
        proof {
            assert(bytes@.subrange(pos as int, pos + 5)
                =~= seq![(major * 32 + 26) as u8] + bytes@.subrange(pos + 1, pos + 5));
            assert forall|m2: nat, n2: nat, e2: int|
                m2 < 8 && n2 < 0x10000000000000000 && pos <= e2 <= bytes@.len()
                && bytes@.subrange(pos as int, e2) == head(m2, n2)
                implies m2 == major as nat && n2 == n as nat && e2 == pos + 5 by {
                lemma_head_inv(bytes@, pos as int, m2, n2, e2);
            }
        }
        Some((major, n, pos + 5))
    } else if info == 27 {
        if bytes.len() - pos < 9 {
            proof {
                assert forall|m2: nat, n2: nat, e2: int|
                    m2 < 8 && n2 < 0x10000000000000000 && pos <= e2 <= bytes@.len()
                    && bytes@.subrange(pos as int, e2) == head(m2, n2)
                    implies false by {
                    lemma_head_inv(bytes@, pos as int, m2, n2, e2);
                }
            }
            return None;
        }
        let n = parse_be(bytes, pos + 1, 8);
        proof {
            assert(pow256(8) == 0x10000000000000000) by { reveal_with_fuel(pow256, 9); }
            lemma_be_val_of_bytes(n as nat, 8);
            assert(be_val(bytes@.subrange(pos + 1, pos + 9)) == n);
        }
        if n < 0x100000000 {
            proof {
                assert forall|m2: nat, n2: nat, e2: int|
                    m2 < 8 && n2 < 0x10000000000000000 && pos <= e2 <= bytes@.len()
                    && bytes@.subrange(pos as int, e2) == head(m2, n2)
                    implies false by {
                    lemma_head_inv(bytes@, pos as int, m2, n2, e2);
                }
            }
            return None;
        }
        proof {
            assert(bytes@.subrange(pos as int, pos + 9)
                =~= seq![(major * 32 + 27) as u8] + bytes@.subrange(pos + 1, pos + 9));
            assert forall|m2: nat, n2: nat, e2: int|
                m2 < 8 && n2 < 0x10000000000000000 && pos <= e2 <= bytes@.len()
                && bytes@.subrange(pos as int, e2) == head(m2, n2)
                implies m2 == major as nat && n2 == n as nat && e2 == pos + 9 by {
                lemma_head_inv(bytes@, pos as int, m2, n2, e2);
            }
        }
        Some((major, n, pos + 9))
    } else {
        proof {
            assert forall|m2: nat, n2: nat, e2: int|
                m2 < 8 && n2 < 0x10000000000000000 && pos <= e2 <= bytes@.len()
                && bytes@.subrange(pos as int, e2) == head(m2, n2)
                implies false by {
                lemma_head_inv(bytes@, pos as int, m2, n2, e2);
            }
        }
        None
    }
}

/// The major type a scalar encodes under.
pub open spec fn scalar_major(s: Scalar) -> nat {
    match s {
        Scalar::UInt(_) => 0,
        Scalar::NegInt(_) => 1,
        Scalar::Bytes(_) => 2,
        Scalar::Text(_) => 3,
        Scalar::Bool(_) => 7,
        Scalar::Null => 7,
    }
}

/// The head argument a scalar encodes with.
pub open spec fn scalar_arg(s: Scalar) -> nat {
    match s {
        Scalar::UInt(n) => n as nat,
        Scalar::NegInt(n) => n as nat,
        Scalar::Bytes(b) => b@.len(),
        Scalar::Text(t) => t@.len(),
        Scalar::Bool(x) => if x { 21 } else { 20 },
        Scalar::Null => 22,
    }
}

/// The bytes a scalar's encoding carries after its head.
pub open spec fn scalar_body(s: Scalar) -> Seq<u8> {
    match s {
        Scalar::Bytes(b) => b@,
        Scalar::Text(t) => t@,
        _ => Seq::empty(),
    }
}

proof fn lemma_enc_scalar_parts(s: Scalar)
    ensures
        enc_scalar(s) == head(scalar_major(s), scalar_arg(s)) + scalar_body(s),
        scalar_major(s) < 8,
        scalar_arg(s) < 0x10000000000000000,
        scalar_major(s) == 7 ==> 20 <= scalar_arg(s) <= 22 && scalar_body(s).len() == 0,
{
    assert(usize::MAX <= 0xffffffffffffffff);
    match s {
        Scalar::Bytes(b) => {
            assert(b.len() == b@.len());
        },
        Scalar::Text(t) => {
            assert(t.len() == t@.len());
        },
        Scalar::Bool(x) => {
            if x {
                assert(enc_scalar(s) =~= head(7, 21) + Seq::<u8>::empty());
            } else {
                assert(enc_scalar(s) =~= head(7, 20) + Seq::<u8>::empty());
            }
        },
        Scalar::Null => {
            assert(enc_scalar(s) =~= head(7, 22) + Seq::<u8>::empty());
        },
        _ => {},
    }
    assert(enc_scalar(s) =~= head(scalar_major(s), scalar_arg(s)) + scalar_body(s));
}

/// Any scalar encoding lying at `pos` starts with its head there.
proof fn lemma_scalar_at(bytes: Seq<u8>, pos: int, e: int, s: Scalar)
    requires
        0 <= pos <= e <= bytes.len(),
        bytes.subrange(pos, e) == enc_scalar(s),
    ensures
        ({
            let hl = 1 + head_arg(scalar_arg(s));
            &&& scalar_major(s) < 8
            &&& scalar_arg(s) < 0x10000000000000000
            &&& pos + hl <= e
            &&& e == pos + hl + scalar_body(s).len()
            &&& bytes.subrange(pos, pos + hl) == head(scalar_major(s), scalar_arg(s))
        }),
{
    lemma_enc_scalar_parts(s);
    lemma_head_parts(scalar_major(s), scalar_arg(s));
    let hl = 1 + head_arg(scalar_arg(s));
    let h = head(scalar_major(s), scalar_arg(s));
    assert(h.len() == hl);
    assert(bytes.subrange(pos, e).len() == e - pos);
    assert(enc_scalar(s) == h + scalar_body(s));
    assert(enc_scalar(s).len() == hl + scalar_body(s).len());
    assert(e - pos == hl + scalar_body(s).len());
    assert(pos + hl <= e);
    assert forall|j: int| 0 <= j < hl implies bytes.subrange(pos, pos + hl)[j] == h[j] by {
        assert(bytes.subrange(pos, e)[j] == (h + scalar_body(s))[j]);
    }
    assert(bytes.subrange(pos, pos + hl) =~= h);
}

/// Reads one scalar item at `pos`.
fn parse_scalar(bytes: &[u8], pos: usize) -> (r: Option<(Scalar, usize)>)
    requires
        pos <= bytes@.len(),
    ensures
        r matches Some((s, end)) ==> {
            &&& pos < end <= bytes@.len()
            &&& bytes@.subrange(pos as int, end as int) == enc_scalar(s)
        },
        forall|s2: Scalar, e2: int|
            #![trigger bytes@.subrange(pos as int, e2), enc_scalar(s2)]
            pos <= e2 <= bytes@.len() && bytes@.subrange(pos as int, e2) == enc_scalar(s2)
            ==> (r matches Some(t) && t.1 as int == e2),
{
    let (major, n, mid) = match parse_head(bytes, pos) {
        Some(h) => h,
        None => {
            proof {
                assert forall|s2: Scalar, e2: int|
                    pos <= e2 <= bytes@.len()
                    && bytes@.subrange(pos as int, e2) == enc_scalar(s2)
                    implies false by {
                    lemma_scalar_at(bytes@, pos as int, e2, s2);
                }
            }
            return None;
        },
    };
    proof {
        // The head the parser read is the one any matching encoding carries.
        assert forall|s2: Scalar, e2: int|
            pos <= e2 <= bytes@.len() && bytes@.subrange(pos as int, e2) == enc_scalar(s2)
            implies scalar_major(s2) == major as nat && scalar_arg(s2) == n as nat
                && e2 == mid + scalar_body(s2).len() by {
            lemma_scalar_at(bytes@, pos as int, e2, s2);
        }
    }
    if major == 0 {
        Some((Scalar::UInt(n), mid))
    } else if major == 1 {
        Some((Scalar::NegInt(n), mid))
    } else if major == 2 || major == 3 {
        if n > (bytes.len() - mid) as u64 {
            proof {
                assert forall|s2: Scalar, e2: int|
                    pos <= e2 <= bytes@.len()
                    && bytes@.subrange(pos as int, e2) == enc_scalar(s2)
                    implies false by {
                    lemma_scalar_at(bytes@, pos as int, e2, s2);
                }
            }
            return None;
        }
        let len = n as usize;
        let body = vstd::slice::slice_to_vec(vstd::slice::slice_subrange(bytes, mid, mid + len));
        let s = if major == 2 { Scalar::Bytes(body) } else { Scalar::Text(body) };
        proof {
            assert(bytes@.subrange(pos as int, mid + len as int)
                =~= bytes@.subrange(pos as int, mid as int)
                    + bytes@.subrange(mid as int, mid + len as int));
        }
        Some((s, mid + len))
    } else if major == 7 {
        // Only the one-byte simple values false, true, null are accepted.
        if mid != pos + 1 {
            proof {
                assert forall|s2: Scalar, e2: int|
                    pos <= e2 <= bytes@.len()
                    && bytes@.subrange(pos as int, e2) == enc_scalar(s2)
                    implies false by {
                    lemma_scalar_at(bytes@, pos as int, e2, s2);
                    lemma_head_parts(scalar_major(s2), scalar_arg(s2));
                }
            }
            return None;
        }
        let b = bytes[pos];
        if b == 0xf4 {
            proof { assert(bytes@.subrange(pos as int, pos + 1) =~= seq![0xf4u8]); }
            Some((Scalar::Bool(false), mid))
        } else if b == 0xf5 {
            proof { assert(bytes@.subrange(pos as int, pos + 1) =~= seq![0xf5u8]); }
            Some((Scalar::Bool(true), mid))
        } else if b == 0xf6 {
            proof { assert(bytes@.subrange(pos as int, pos + 1) =~= seq![0xf6u8]); }
            Some((Scalar::Null, mid))
        } else {
            proof {
                assert forall|s2: Scalar, e2: int|
                    pos <= e2 <= bytes@.len()
                    && bytes@.subrange(pos as int, e2) == enc_scalar(s2)
                    implies false by {
                    lemma_scalar_at(bytes@, pos as int, e2, s2);
                    lemma_head_parts(scalar_major(s2), scalar_arg(s2));
                    assert(bytes@[pos as int]
                        == (7 * 32 + head_info(scalar_arg(s2))) as u8);
                }
            }
            None
        }
    } else {
        proof {
            assert forall|s2: Scalar, e2: int|
                pos <= e2 <= bytes@.len()
                && bytes@.subrange(pos as int, e2) == enc_scalar(s2)
                implies false by {
                lemma_scalar_at(bytes@, pos as int, e2, s2);
            }
        }
        None
    }
}

proof fn lemma_scalar_seq_split(v: Seq<Scalar>, j: int)
    requires
        0 <= j <= v.len(),
    ensures
        enc_scalar_seq(v) == enc_scalar_seq(v.take(j)) + enc_scalar_seq(v.skip(j)),
    decreases j,
{
    if j == 0 {
        assert(v.take(0) =~= Seq::<Scalar>::empty());
        assert(v.skip(0) =~= v);
        assert(enc_scalar_seq(v) =~= enc_scalar_seq(v.take(0)) + enc_scalar_seq(v.skip(0)));
    } else {
        lemma_scalar_seq_split(v, j - 1);
        assert(v.take(j) =~= v.take(j - 1).push(v[j - 1]));
        lemma_enc_scalar_seq_push(v.take(j - 1), v[j - 1]);
        assert(v.skip(j - 1)[0] == v[j - 1]);
        assert(v.skip(j - 1).drop_first() =~= v.skip(j));
        assert(enc_scalar_seq(v.skip(j - 1))
            == enc_scalar(v[j - 1]) + enc_scalar_seq(v.skip(j)));
        assert(enc_scalar_seq(v)
            =~= enc_scalar_seq(v.take(j)) + enc_scalar_seq(v.skip(j)));
    }
}

proof fn lemma_pair_seq_split(v: Seq<(Scalar, Scalar)>, j: int)
    requires
        0 <= j <= v.len(),
    ensures
        enc_pair_seq(v) == enc_pair_seq(v.take(j)) + enc_pair_seq(v.skip(j)),
    decreases j,
{
    if j == 0 {
        assert(v.take(0) =~= Seq::<(Scalar, Scalar)>::empty());
        assert(v.skip(0) =~= v);
        assert(enc_pair_seq(v) =~= enc_pair_seq(v.take(0)) + enc_pair_seq(v.skip(0)));
    } else {
        lemma_pair_seq_split(v, j - 1);
        assert(v.take(j) =~= v.take(j - 1).push(v[j - 1]));
        lemma_enc_pair_seq_push(v.take(j - 1), v[j - 1]);
        assert(v.skip(j - 1)[0] == v[j - 1]);
        assert(v.skip(j - 1).drop_first() =~= v.skip(j));
        assert(enc_pair_seq(v.skip(j - 1))
            == enc_scalar(v[j - 1].0) + enc_scalar(v[j - 1].1) + enc_pair_seq(v.skip(j)));
        assert(enc_pair_seq(v) =~= enc_pair_seq(v.take(j)) + enc_pair_seq(v.skip(j)));
    }
}

proof fn lemma_entry_seq_split(v: Seq<(Scalar, Item)>, j: int)
    requires
        0 <= j <= v.len(),
    ensures
        enc_entry_seq(v) == enc_entry_seq(v.take(j)) + enc_entry_seq(v.skip(j)),
    decreases j,
{
    if j == 0 {
        assert(v.take(0) =~= Seq::<(Scalar, Item)>::empty());
        assert(v.skip(0) =~= v);
        assert(enc_entry_seq(v) =~= enc_entry_seq(v.take(0)) + enc_entry_seq(v.skip(0)));
    } else {
        lemma_entry_seq_split(v, j - 1);
        assert(v.take(j) =~= v.take(j - 1).push(v[j - 1]));
        lemma_enc_entry_seq_push(v.take(j - 1), v[j - 1]);
        assert(v.skip(j - 1)[0] == v[j - 1]);
        assert(v.skip(j - 1).drop_first() =~= v.skip(j));
        assert(enc_entry_seq(v.skip(j - 1))
            == enc_scalar(v[j - 1].0) + enc_item(v[j - 1].1) + enc_entry_seq(v.skip(j)));
        assert(enc_entry_seq(v) =~= enc_entry_seq(v.take(j)) + enc_entry_seq(v.skip(j)));
    }
}

/// One tiling step for an array body: with the first `i` elements aligned,
/// the `i`-th element's encoding sits right at `cur`.
proof fn lemma_scalar_seq_step(bytes: Seq<u8>, mid: int, cur: int, e: int, v: Seq<Scalar>, i: int)
    requires
        0 <= mid <= cur <= bytes.len(),
        mid <= e <= bytes.len(),
        0 <= i < v.len(),
        bytes.subrange(mid, e) == enc_scalar_seq(v),
        bytes.subrange(mid, cur) == enc_scalar_seq(v.take(i)),
    ensures
        cur + enc_scalar(v[i]).len() <= e,
        bytes.subrange(cur, cur + enc_scalar(v[i]).len() as int) == enc_scalar(v[i]),
        bytes.subrange(mid, cur + enc_scalar(v[i]).len() as int)
            == enc_scalar_seq(v.take(i + 1)),
{
    lemma_scalar_seq_split(v, i);
    assert(v.skip(i)[0] == v[i]);
    assert(v.skip(i).drop_first() =~= v.skip(i + 1));
    assert(enc_scalar_seq(v.skip(i)) == enc_scalar(v[i]) + enc_scalar_seq(v.skip(i + 1)));
    let l = enc_scalar(v[i]).len() as int;
    assert(cur - mid == enc_scalar_seq(v.take(i)).len());
    assert(e - mid == enc_scalar_seq(v).len());
    assert(cur + l <= e);
    assert(bytes.subrange(cur, cur + l) =~= enc_scalar(v[i])) by {
        assert forall|j: int| 0 <= j < l
            implies bytes.subrange(cur, cur + l)[j] == enc_scalar(v[i])[j] by {
            assert(bytes.subrange(mid, e)[cur - mid + j]
                == (enc_scalar_seq(v.take(i)) + enc_scalar_seq(v.skip(i)))[cur - mid + j]);
            assert(enc_scalar_seq(v.skip(i))[j] == (enc_scalar(v[i])
                + enc_scalar_seq(v.skip(i + 1)))[j]);
        }
    }
    assert(v.take(i + 1) =~= v.take(i).push(v[i]));
    lemma_enc_scalar_seq_push(v.take(i), v[i]);
    assert(bytes.subrange(mid, cur + l) =~= enc_scalar_seq(v.take(i)) + enc_scalar(v[i]));
}

/// One tiling step for a map body: with the first `i` pairs aligned, the
/// `i`-th key's and value's encodings sit right at `cur`.
proof fn lemma_pair_seq_step(
    bytes: Seq<u8>,
    mid: int,
    cur: int,
    e: int,
    v: Seq<(Scalar, Scalar)>,
    i: int,
)
    requires
        0 <= mid <= cur <= bytes.len(),
        mid <= e <= bytes.len(),
        0 <= i < v.len(),
        bytes.subrange(mid, e) == enc_pair_seq(v),
        bytes.subrange(mid, cur) == enc_pair_seq(v.take(i)),
    ensures
        ({
            let lk = enc_scalar(v[i].0).len() as int;
            let lv = enc_scalar(v[i].1).len() as int;
            &&& cur + lk + lv <= e
            &&& bytes.subrange(cur, cur + lk) == enc_scalar(v[i].0)
            &&& bytes.subrange(cur + lk, cur + lk + lv) == enc_scalar(v[i].1)
            &&& bytes.subrange(mid, cur + lk + lv) == enc_pair_seq(v.take(i + 1))
        }),
{
    lemma_pair_seq_split(v, i);
    assert(v.skip(i)[0] == v[i]);
    assert(v.skip(i).drop_first() =~= v.skip(i + 1));
    assert(enc_pair_seq(v.skip(i))
        == enc_scalar(v[i].0) + enc_scalar(v[i].1) + enc_pair_seq(v.skip(i + 1)));
    let lk = enc_scalar(v[i].0).len() as int;
    let lv = enc_scalar(v[i].1).len() as int;
    assert(cur - mid == enc_pair_seq(v.take(i)).len());
    assert(e - mid == enc_pair_seq(v).len());
    assert(cur + lk + lv <= e);
    assert(bytes.subrange(cur, cur + lk) =~= enc_scalar(v[i].0)) by {
        assert forall|j: int| 0 <= j < lk
            implies bytes.subrange(cur, cur + lk)[j] == enc_scalar(v[i].0)[j] by {
            assert(bytes.subrange(mid, e)[cur - mid + j]
                == (enc_pair_seq(v.take(i)) + enc_pair_seq(v.skip(i)))[cur - mid + j]);
            assert(enc_pair_seq(v.skip(i))[j] == (enc_scalar(v[i].0) + enc_scalar(v[i].1)
                + enc_pair_seq(v.skip(i + 1)))[j]);
        }
    }
    assert(bytes.subrange(cur + lk, cur + lk + lv) =~= enc_scalar(v[i].1)) by {
        assert forall|j: int| 0 <= j < lv
            implies bytes.subrange(cur + lk, cur + lk + lv)[j] == enc_scalar(v[i].1)[j] by {
            assert(bytes.subrange(mid, e)[cur - mid + lk + j]
                == (enc_pair_seq(v.take(i)) + enc_pair_seq(v.skip(i)))[cur - mid + lk + j]);
            assert(enc_pair_seq(v.skip(i))[lk + j] == (enc_scalar(v[i].0) + enc_scalar(v[i].1)
                + enc_pair_seq(v.skip(i + 1)))[lk + j]);
        }
    }
    assert(v.take(i + 1) =~= v.take(i).push(v[i]));
    lemma_enc_pair_seq_push(v.take(i), v[i]);
    assert(bytes.subrange(mid, cur + lk + lv)
        =~= enc_pair_seq(v.take(i)) + enc_scalar(v[i].0) + enc_scalar(v[i].1));
}

proof fn lemma_enc_scalar_seq_min(v: Seq<Scalar>)
    ensures
        enc_scalar_seq(v).len() >= v.len(),
    decreases v.len(),
{
    if v.len() > 0 {
        lemma_enc_scalar_parts(v[0]);
        lemma_head_parts(scalar_major(v[0]), scalar_arg(v[0]));
        lemma_enc_scalar_seq_min(v.drop_first());
    }
}

proof fn lemma_enc_pair_seq_min(v: Seq<(Scalar, Scalar)>)
    ensures
        enc_pair_seq(v).len() >= v.len(),
    decreases v.len(),
{
    if v.len() > 0 {
        lemma_enc_scalar_parts(v[0].0);
        lemma_head_parts(scalar_major(v[0].0), scalar_arg(v[0].0));
        lemma_enc_pair_seq_min(v.drop_first());
    }
}

proof fn lemma_enc_entry_seq_min(v: Seq<(Scalar, Item)>)
    ensures
        enc_entry_seq(v).len() >= v.len(),
    decreases v.len(),
{
    if v.len() > 0 {
        lemma_enc_scalar_parts(v[0].0);
        lemma_head_parts(scalar_major(v[0].0), scalar_arg(v[0].0));
        lemma_enc_entry_seq_min(v.drop_first());
    }
}

/// The major type an item encodes under.
pub open spec fn item_major(it: Item) -> nat {
    match it {
        Item::One(s) => scalar_major(s),
        Item::Array(_) => 4,
        Item::Table(_) => 5,
    }
}

/// The head argument an item encodes with.
pub open spec fn item_arg(it: Item) -> nat {
    match it {
        Item::One(s) => scalar_arg(s),
        Item::Array(v) => v@.len(),
        Item::Table(v) => v@.len(),
    }
}

/// The bytes an item's encoding carries after its head.
pub open spec fn item_body(it: Item) -> Seq<u8> {
    match it {
        Item::One(s) => scalar_body(s),
        Item::Array(v) => enc_scalar_seq(v@),
        Item::Table(v) => enc_pair_seq(v@),
    }
}

proof fn lemma_enc_item_parts(it: Item)
    ensures
        enc_item(it) == head(item_major(it), item_arg(it)) + item_body(it),
        item_major(it) < 8,
        item_arg(it) < 0x10000000000000000,
{
    assert(usize::MAX <= 0xffffffffffffffff);
    match it {
        Item::One(s) => {
            lemma_enc_scalar_parts(s);
        },
        Item::Array(v) => {
            assert(v.len() == v@.len());
        },
        Item::Table(v) => {
            assert(v.len() == v@.len());
        },
    }
}

/// Any item encoding lying at `pos` starts with its head there, followed
/// by its body.
proof fn lemma_item_at(bytes: Seq<u8>, pos: int, e: int, it: Item)
    requires
        0 <= pos <= e <= bytes.len(),
        bytes.subrange(pos, e) == enc_item(it),
    ensures
        ({
            let hl = 1 + head_arg(item_arg(it));
            &&& item_major(it) < 8
            &&& item_arg(it) < 0x10000000000000000
            &&& pos + hl <= e
            &&& e == pos + hl + item_body(it).len()
            &&& bytes.subrange(pos, pos + hl) == head(item_major(it), item_arg(it))
            &&& bytes.subrange(pos + hl, e) == item_body(it)
        }),
{
    lemma_enc_item_parts(it);
    lemma_head_parts(item_major(it), item_arg(it));
    let h = head(item_major(it), item_arg(it));
    let hl = 1 + head_arg(item_arg(it));
    assert(h.len() == hl);
    assert(bytes.subrange(pos, e).len() == e - pos);
    assert(enc_item(it) == h + item_body(it));
    assert(enc_item(it).len() == hl + item_body(it).len());
    assert(e - pos == hl + item_body(it).len());
    assert forall|j: int| 0 <= j < hl implies bytes.subrange(pos, pos + hl)[j] == h[j] by {
        assert(bytes.subrange(pos, e)[j] == (h + item_body(it))[j]);
    }
    assert(bytes.subrange(pos, pos + hl) =~= h);
    assert forall|j: int| 0 <= j < item_body(it).len()
        implies bytes.subrange(pos + hl, e)[j] == item_body(it)[j] by {
        assert(bytes.subrange(pos, e)[hl + j] == (h + item_body(it))[hl + j]);
    }
    assert(bytes.subrange(pos + hl, e) =~= item_body(it));
}

/// Reads one item (a scalar, or one container of scalars) at `pos`.
#[verifier::rlimit(100)]
#[verifier::spinoff_prover]
fn parse_item(bytes: &[u8], pos: usize) -> (r: Option<(Item, usize)>)
    requires
        pos <= bytes@.len(),
    ensures
        r matches Some((it, end)) ==> {
            &&& pos < end <= bytes@.len()
            &&& bytes@.subrange(pos as int, end as int) == enc_item(it)
        },
        forall|it2: Item, e2: int|
            #![trigger bytes@.subrange(pos as int, e2), enc_item(it2)]
            pos <= e2 <= bytes@.len() && bytes@.subrange(pos as int, e2) == enc_item(it2)
            ==> (r matches Some(t) && t.1 as int == e2),
{
    let (major, n, mid) = match parse_head(bytes, pos) {
        Some(h) => h,
        None => {
            proof {
                assert forall|it2: Item, e2: int|
                    pos <= e2 <= bytes@.len()
                    && bytes@.subrange(pos as int, e2) == enc_item(it2)
                    implies false by {
                    lemma_item_at(bytes@, pos as int, e2, it2);
                }
            }
            return None;
        },
    };
    proof {
        assert forall|it2: Item, e2: int|
            pos <= e2 <= bytes@.len() && bytes@.subrange(pos as int, e2) == enc_item(it2)
            implies item_major(it2) == major as nat && item_arg(it2) == n as nat
                && e2 == mid + item_body(it2).len()
                && bytes@.subrange(mid as int, e2) == item_body(it2) by {
            lemma_item_at(bytes@, pos as int, e2, it2);
        }
    }
    if major == 4 {
        if n > bytes.len() as u64 {
            proof {
                assert forall|it2: Item, e2: int|
                    pos <= e2 <= bytes@.len()
                    && bytes@.subrange(pos as int, e2) == enc_item(it2)
                    implies false by {
                    lemma_item_at(bytes@, pos as int, e2, it2);
                    if let Item::Array(v) = it2 {
                        lemma_enc_scalar_seq_min(v@);
                    }
                }
            }
            return None;
        }
        let count = n as usize;
        let mut items: Vec<Scalar> = Vec::new();
        let mut cur: usize = mid;
        let mut i: usize = 0;
        while i < count
            invariant
                0 <= i <= count,
                pos <= mid <= cur <= bytes@.len(),
                items@.len() == i,
                bytes@.subrange(mid as int, cur as int) == enc_scalar_seq(items@),
                forall|it2: Item, e2: int|
                    #![trigger bytes@.subrange(pos as int, e2), enc_item(it2)]
                    pos <= e2 <= bytes@.len()
                    && bytes@.subrange(pos as int, e2) == enc_item(it2)
                    ==> item_major(it2) == 4 && item_arg(it2) == count
                        && mid <= e2 && bytes@.subrange(mid as int, e2) == item_body(it2),
                forall|v: Seq<Scalar>, ee: int|
                    #![trigger enc_scalar_seq(v), bytes@.subrange(mid as int, ee)]
                    mid <= ee <= bytes@.len() && v.len() == count
                    && bytes@.subrange(mid as int, ee) == enc_scalar_seq(v)
                    ==> bytes@.subrange(mid as int, cur as int)
                        == enc_scalar_seq(v.take(i as int)),
            decreases count - i,
        {
            let (s, next) = match parse_scalar(bytes, cur) {
                Some(p) => p,
                None => {
                    proof {
                        assert forall|v: Seq<Scalar>, ee: int|
                            mid <= ee <= bytes@.len() && v.len() == count
                            && bytes@.subrange(mid as int, ee) == enc_scalar_seq(v)
                            implies false by {
                            assert(bytes@.subrange(mid as int, cur as int)
                                == enc_scalar_seq(v.take(i as int)));
                            lemma_scalar_seq_step(bytes@, mid as int, cur as int, ee, v,
                                i as int);
                            let l = enc_scalar(v[i as int]).len() as int;
                            assert(bytes@.subrange(cur as int, cur as int + l)
                                == enc_scalar(v[i as int]));
                            assert(cur as int + l <= bytes@.len());
                        }
                        assert forall|it2: Item, e2: int|
                            pos <= e2 <= bytes@.len()
                            && bytes@.subrange(pos as int, e2) == enc_item(it2)
                            implies false by {
                            lemma_item_at(bytes@, pos as int, e2, it2);
                            if let Item::Array(v) = it2 {
                                assert(bytes@.subrange(mid as int, e2)
                                    == enc_scalar_seq(v@));
                            }
                        }
                    }
                    return None;
                },
            };
            proof {
                lemma_enc_scalar_seq_push(items@, s);
                assert(bytes@.subrange(mid as int, next as int)
                    =~= bytes@.subrange(mid as int, cur as int)
                        + bytes@.subrange(cur as int, next as int));
                assert forall|v: Seq<Scalar>, ee: int|
                    mid <= ee <= bytes@.len() && v.len() == count
                    && bytes@.subrange(mid as int, ee) == enc_scalar_seq(v)
                    implies bytes@.subrange(mid as int, next as int)
                        == enc_scalar_seq(v.take(i + 1)) by {
                    lemma_scalar_seq_step(bytes@, mid as int, cur as int, ee, v, i as int);
                }
            }
            items.push(s);
            cur = next;
            i = i + 1;
        }
        proof {
            assert(bytes@.subrange(pos as int, cur as int)
                =~= bytes@.subrange(pos as int, mid as int)
                    + bytes@.subrange(mid as int, cur as int));
            assert forall|it2: Item, e2: int|
                pos <= e2 <= bytes@.len()
                && bytes@.subrange(pos as int, e2) == enc_item(it2)
                implies e2 == cur as int by {
                lemma_item_at(bytes@, pos as int, e2, it2);
                if let Item::Array(v) = it2 {
                    assert(bytes@.subrange(mid as int, e2) == enc_scalar_seq(v@));
                    assert(v@.take(count as int) =~= v@);
                    assert(bytes@.subrange(mid as int, cur as int) == enc_scalar_seq(v@));
                }
            }
        }
        Some((Item::Array(items), cur))
    } else if major == 5 {
        if n > bytes.len() as u64 {
            proof {
                assert forall|it2: Item, e2: int|
                    pos <= e2 <= bytes@.len()
                    && bytes@.subrange(pos as int, e2) == enc_item(it2)
                    implies false by {
                    lemma_item_at(bytes@, pos as int, e2, it2);
                    if let Item::Table(v) = it2 {
                        lemma_enc_pair_seq_min(v@);
                    }
                }
            }
            return None;
        }
        let count = n as usize;
        let mut pairs: Vec<(Scalar, Scalar)> = Vec::new();
        let mut cur: usize = mid;
        let mut i: usize = 0;
        while i < count
            invariant
                0 <= i <= count,
                pos <= mid <= cur <= bytes@.len(),
                pairs@.len() == i,
                bytes@.subrange(mid as int, cur as int) == enc_pair_seq(pairs@),
                forall|it2: Item, e2: int|
                    #![trigger bytes@.subrange(pos as int, e2), enc_item(it2)]
                    pos <= e2 <= bytes@.len()
                    && bytes@.subrange(pos as int, e2) == enc_item(it2)
                    ==> item_major(it2) == 5 && item_arg(it2) == count
                        && mid <= e2 && bytes@.subrange(mid as int, e2) == item_body(it2),
                forall|v: Seq<(Scalar, Scalar)>, ee: int|
                    #![trigger enc_pair_seq(v), bytes@.subrange(mid as int, ee)]
                    mid <= ee <= bytes@.len() && v.len() == count
                    && bytes@.subrange(mid as int, ee) == enc_pair_seq(v)
                    ==> bytes@.subrange(mid as int, cur as int)
                        == enc_pair_seq(v.take(i as int)),
            decreases count - i,
        {
            let (k, kend) = match parse_scalar(bytes, cur) {
                Some(p) => p,
                None => {
                    proof {
                        assert forall|v: Seq<(Scalar, Scalar)>, ee: int|
                            mid <= ee <= bytes@.len() && v.len() == count
                            && bytes@.subrange(mid as int, ee) == enc_pair_seq(v)
                            implies false by {
                            assert(bytes@.subrange(mid as int, cur as int)
                                == enc_pair_seq(v.take(i as int)));
                            lemma_pair_seq_step(bytes@, mid as int, cur as int, ee, v,
                                i as int);
                            let lk = enc_scalar(v[i as int].0).len() as int;
                            assert(bytes@.subrange(cur as int, cur as int + lk)
                                == enc_scalar(v[i as int].0));
                            assert(cur as int + lk <= bytes@.len());
                        }
                        assert forall|it2: Item, e2: int|
                            pos <= e2 <= bytes@.len()
                            && bytes@.subrange(pos as int, e2) == enc_item(it2)
                            implies false by {
                            lemma_item_at(bytes@, pos as int, e2, it2);
                            if let Item::Table(v) = it2 {
                                assert(bytes@.subrange(mid as int, e2) == enc_pair_seq(v@));
                            }
                        }
                    }
                    return None;
                },
            };
            let (v, vend) = match parse_scalar(bytes, kend) {
                Some(p) => p,
                None => {
                    proof {
                        assert forall|w: Seq<(Scalar, Scalar)>, ee: int|
                            mid <= ee <= bytes@.len() && w.len() == count
                            && bytes@.subrange(mid as int, ee) == enc_pair_seq(w)
                            implies false by {
                            assert(bytes@.subrange(mid as int, cur as int)
                                == enc_pair_seq(w.take(i as int)));
                            lemma_pair_seq_step(bytes@, mid as int, cur as int, ee, w,
                                i as int);
                            let lk = enc_scalar(w[i as int].0).len() as int;
                            let lv = enc_scalar(w[i as int].1).len() as int;
                            assert(bytes@.subrange(cur as int, cur as int + lk)
                                == enc_scalar(w[i as int].0));
                            assert(kend as int == cur as int + lk);
                            assert(bytes@.subrange(kend as int, kend as int + lv)
                                == enc_scalar(w[i as int].1));
                            assert(kend as int + lv <= bytes@.len());
                        }
                        assert forall|it2: Item, e2: int|
                            pos <= e2 <= bytes@.len()
                            && bytes@.subrange(pos as int, e2) == enc_item(it2)
                            implies false by {
                            lemma_item_at(bytes@, pos as int, e2, it2);
                            if let Item::Table(w) = it2 {
                                assert(bytes@.subrange(mid as int, e2) == enc_pair_seq(w@));
                            }
                        }
                    }
                    return None;
                },
            };
            proof {
                lemma_enc_pair_seq_push(pairs@, (k, v));
                assert(bytes@.subrange(mid as int, vend as int)
                    =~= bytes@.subrange(mid as int, cur as int)
                        + bytes@.subrange(cur as int, kend as int)
                        + bytes@.subrange(kend as int, vend as int));
                assert forall|w: Seq<(Scalar, Scalar)>, ee: int|
                    mid <= ee <= bytes@.len() && w.len() == count
                    && bytes@.subrange(mid as int, ee) == enc_pair_seq(w)
                    implies bytes@.subrange(mid as int, vend as int)
                        == enc_pair_seq(w.take(i + 1)) by {
                    lemma_pair_seq_step(bytes@, mid as int, cur as int, ee, w, i as int);
                }
            }
            pairs.push((k, v));
            cur = vend;
            i = i + 1;
        }
        proof {
            assert(bytes@.subrange(pos as int, cur as int)
                =~= bytes@.subrange(pos as int, mid as int)
                    + bytes@.subrange(mid as int, cur as int));
            assert forall|it2: Item, e2: int|
                pos <= e2 <= bytes@.len()
                && bytes@.subrange(pos as int, e2) == enc_item(it2)
                implies e2 == cur as int by {
                lemma_item_at(bytes@, pos as int, e2, it2);
                if let Item::Table(v) = it2 {
                    assert(bytes@.subrange(mid as int, e2) == enc_pair_seq(v@));
                    assert(v@.take(count as int) =~= v@);
                    assert(bytes@.subrange(mid as int, cur as int) == enc_pair_seq(v@));
                }
            }
        }
        Some((Item::Table(pairs), cur))
    } else {
        let r = parse_scalar(bytes, pos);
        proof {
            assert forall|it2: Item, e2: int|
                pos <= e2 <= bytes@.len() && bytes@.subrange(pos as int, e2) == enc_item(it2)
                implies (r matches Some(t) && t.1 as int == e2) by {
                lemma_item_at(bytes@, pos as int, e2, it2);
                if let Item::One(s2) = it2 {
                    assert(enc_item(it2) == enc_scalar(s2));
                    assert(bytes@.subrange(pos as int, e2) == enc_scalar(s2));
                }
            }
        }
        match r {
            Some((s, end)) => Some((Item::One(s), end)),
            None => None,
        }
    }
}

/// One tiling step for a document body: with the first `i` entries
/// aligned, the `i`-th key's and value's encodings sit right at `cur`.
proof fn lemma_entry_seq_step(
    bytes: Seq<u8>,
    mid: int,
    cur: int,
    e: int,
    v: Seq<(Scalar, Item)>,
    i: int,
)
    requires
        0 <= mid <= cur <= bytes.len(),
        mid <= e <= bytes.len(),
        0 <= i < v.len(),
        bytes.subrange(mid, e) == enc_entry_seq(v),
        bytes.subrange(mid, cur) == enc_entry_seq(v.take(i)),
    ensures
        ({
            let lk = enc_scalar(v[i].0).len() as int;
            let lv = enc_item(v[i].1).len() as int;
            &&& cur + lk + lv <= e
            &&& bytes.subrange(cur, cur + lk) == enc_scalar(v[i].0)
            &&& bytes.subrange(cur + lk, cur + lk + lv) == enc_item(v[i].1)
            &&& bytes.subrange(mid, cur + lk + lv) == enc_entry_seq(v.take(i + 1))
        }),
{
    lemma_entry_seq_split(v, i);
    assert(v.skip(i)[0] == v[i]);
    assert(v.skip(i).drop_first() =~= v.skip(i + 1));
    assert(enc_entry_seq(v.skip(i))
        == enc_scalar(v[i].0) + enc_item(v[i].1) + enc_entry_seq(v.skip(i + 1)));
    let lk = enc_scalar(v[i].0).len() as int;
    let lv = enc_item(v[i].1).len() as int;
    assert(cur - mid == enc_entry_seq(v.take(i)).len());
    assert(e - mid == enc_entry_seq(v).len());
    assert(cur + lk + lv <= e);
    assert(bytes.subrange(cur, cur + lk) =~= enc_scalar(v[i].0)) by {
        assert forall|j: int| 0 <= j < lk
            implies bytes.subrange(cur, cur + lk)[j] == enc_scalar(v[i].0)[j] by {
            assert(bytes.subrange(mid, e)[cur - mid + j]
                == (enc_entry_seq(v.take(i)) + enc_entry_seq(v.skip(i)))[cur - mid + j]);
            assert(enc_entry_seq(v.skip(i))[j] == (enc_scalar(v[i].0) + enc_item(v[i].1)
                + enc_entry_seq(v.skip(i + 1)))[j]);
        }
    }
    assert(bytes.subrange(cur + lk, cur + lk + lv) =~= enc_item(v[i].1)) by {
        assert forall|j: int| 0 <= j < lv
            implies bytes.subrange(cur + lk, cur + lk + lv)[j] == enc_item(v[i].1)[j] by {
            assert(bytes.subrange(mid, e)[cur - mid + lk + j]
                == (enc_entry_seq(v.take(i)) + enc_entry_seq(v.skip(i)))[cur - mid + lk + j]);
            assert(enc_entry_seq(v.skip(i))[lk + j] == (enc_scalar(v[i].0) + enc_item(v[i].1)
                + enc_entry_seq(v.skip(i + 1)))[lk + j]);
        }
    }
    assert(v.take(i + 1) =~= v.take(i).push(v[i]));
    lemma_enc_entry_seq_push(v.take(i), v[i]);
    assert(bytes.subrange(mid, cur + lk + lv)
        =~= enc_entry_seq(v.take(i)) + enc_scalar(v[i].0) + enc_item(v[i].1));
}

/// Any full-buffer document encoding starts with the map head, followed by
/// the entries; the entry count fits in a head the parser can read.
proof fn lemma_document_at(bytes: Seq<u8>, d: Seq<(Scalar, Item)>)
    requires
        bytes == enc_document(d),
        bytes.len() <= 0xffffffffffffffff,
    ensures
        d.len() < 0x10000000000000000,
        ({
            let hl = 1 + head_arg(d.len());
            &&& hl <= bytes.len()
            &&& bytes.len() == hl + enc_entry_seq(d).len()
            &&& bytes.subrange(0, hl as int) == head(5, d.len())
            &&& bytes.subrange(hl as int, bytes.len() as int) == enc_entry_seq(d)
        }),
{
    lemma_head_parts(5, d.len());
    lemma_enc_entry_seq_min(d);
    if d.len() >= 0x10000000000000000 {
        assert(bytes.len() >= 1 + d.len());
        assert(false);
    }
    let h = head(5, d.len());
    let hl = 1 + head_arg(d.len());
    assert(h.len() == hl);
    assert(bytes.len() == hl + enc_entry_seq(d).len());
    assert forall|j: int| 0 <= j < hl implies bytes.subrange(0, hl as int)[j] == h[j] by {
        assert(bytes[j] == (h + enc_entry_seq(d))[j]);
    }
    assert(bytes.subrange(0, hl as int) =~= h);
    assert forall|j: int| 0 <= j < enc_entry_seq(d).len()
        implies bytes.subrange(hl as int, bytes.len() as int)[j] == enc_entry_seq(d)[j] by {
        assert(bytes[hl + j] == (h + enc_entry_seq(d))[hl + j]);
    }
    assert(bytes.subrange(hl as int, bytes.len() as int) =~= enc_entry_seq(d));
}

/// Parses a whole buffer as one CBOR map of entries.  A successful parse
/// means `bytes` is exactly the canonical encoding of the returned document.
#[verifier::rlimit(100)]
#[verifier::spinoff_prover]
pub fn parse_document(bytes: &[u8]) -> (r: Option<Vec<(Scalar, Item)>>)
    ensures
        r matches Some(d) ==> bytes@ == enc_document(d@),
        r is None ==> !exists|d: Seq<(Scalar, Item)>| bytes@ == enc_document(d),
{
    proof {
        assert(usize::MAX <= 0xffffffffffffffff);
    }
    let blen = bytes.len();
    let (major, n, mid) = match parse_head(bytes, 0) {
        Some(h) => h,
        None => {
            proof {
                assert forall|d: Seq<(Scalar, Item)>| bytes@ != enc_document(d) by {
                    if bytes@ == enc_document(d) {
                        lemma_document_at(bytes@, d);
                        assert(bytes@.subrange(0, (1 + head_arg(d.len())) as int)
                            == head(5, d.len()));
                    }
                }
            }
            return None;
        },
    };
    proof {
        assert forall|d: Seq<(Scalar, Item)>| bytes@ == enc_document(d)
            implies 5 == major as nat && d.len() == n as nat
                && mid <= bytes@.len()
                && bytes@.subrange(mid as int, bytes@.len() as int) == enc_entry_seq(d) by {
            lemma_document_at(bytes@, d);
            assert(bytes@.subrange(0, (1 + head_arg(d.len())) as int) == head(5, d.len()));
        }
    }
    if major != 5 {
        proof {
            assert forall|d: Seq<(Scalar, Item)>| bytes@ != enc_document(d) by {}
        }
        return None;
    }
    if n > bytes.len() as u64 {
        proof {
            assert forall|d: Seq<(Scalar, Item)>| bytes@ != enc_document(d) by {
                if bytes@ == enc_document(d) {
                    lemma_enc_entry_seq_min(d);
                    lemma_document_at(bytes@, d);
                }
            }
        }
        return None;
    }
    let count = n as usize;
    let mut entries: Vec<(Scalar, Item)> = Vec::new();
    let mut cur: usize = mid;
    let mut i: usize = 0;
    while i < count
        invariant
            0 <= i <= count,
            0 <= mid <= cur <= bytes@.len(),
            entries@.len() == i,
            bytes@.subrange(mid as int, cur as int) == enc_entry_seq(entries@),
            forall|d: Seq<(Scalar, Item)>| #[trigger] enc_document(d) == bytes@
                ==> d.len() == count
                    && bytes@.subrange(mid as int, bytes@.len() as int) == enc_entry_seq(d)
                    && bytes@.subrange(mid as int, cur as int)
                        == enc_entry_seq(d.take(i as int)),
        decreases count - i,
    {
        let (k, kend) = match parse_scalar(bytes, cur) {
            Some(p) => p,
            None => {
                proof {
                    assert forall|d: Seq<(Scalar, Item)>| bytes@ != enc_document(d) by {
                        if enc_document(d) == bytes@ {
                            assert(bytes@.subrange(mid as int, cur as int)
                                == enc_entry_seq(d.take(i as int)));
                            lemma_entry_seq_step(bytes@, mid as int, cur as int,
                                bytes@.len() as int, d, i as int);
                            let lk = enc_scalar(d[i as int].0).len() as int;
                            assert(bytes@.subrange(cur as int, cur as int + lk)
                                == enc_scalar(d[i as int].0));
                            assert(cur as int + lk <= bytes@.len());
                        }
                    }
                }
                return None;
            },
        };
        let (v, vend) = match parse_item(bytes, kend) {
            Some(p) => p,
            None => {
                proof {
                    assert forall|d: Seq<(Scalar, Item)>| bytes@ != enc_document(d) by {
                        if enc_document(d) == bytes@ {
                            assert(bytes@.subrange(mid as int, cur as int)
                                == enc_entry_seq(d.take(i as int)));
                            lemma_entry_seq_step(bytes@, mid as int, cur as int,
                                bytes@.len() as int, d, i as int);
                            let lk = enc_scalar(d[i as int].0).len() as int;
                            let lv = enc_item(d[i as int].1).len() as int;
                            assert(bytes@.subrange(cur as int, cur as int + lk)
                                == enc_scalar(d[i as int].0));
                            assert(kend as int == cur as int + lk);
                            assert(bytes@.subrange(kend as int, kend as int + lv)
                                == enc_item(d[i as int].1));
                            assert(kend as int + lv <= bytes@.len());
                        }
                    }
                }
                return None;
            },
        };
        proof {
            lemma_enc_entry_seq_push(entries@, (k, v));
            assert(bytes@.subrange(mid as int, vend as int)
                =~= bytes@.subrange(mid as int, cur as int)
                    + bytes@.subrange(cur as int, kend as int)
                    + bytes@.subrange(kend as int, vend as int));
            assert forall|d: Seq<(Scalar, Item)>| #[trigger] enc_document(d) == bytes@
                implies bytes@.subrange(mid as int, vend as int)
                    == enc_entry_seq(d.take(i + 1)) by {
                assert(bytes@.subrange(mid as int, cur as int)
                    == enc_entry_seq(d.take(i as int)));
                lemma_entry_seq_step(bytes@, mid as int, cur as int, bytes@.len() as int, d,
                    i as int);
                let lk = enc_scalar(d[i as int].0).len() as int;
                assert(kend as int == cur as int + lk);
            }
        }
        entries.push((k, v));
        cur = vend;
        i = i + 1;
    }
    if cur != bytes.len() {
        proof {
            assert forall|d: Seq<(Scalar, Item)>| bytes@ != enc_document(d) by {
                if enc_document(d) == bytes@ {
                    assert(bytes@.subrange(mid as int, cur as int)
                        == enc_entry_seq(d.take(count as int)));
                    assert(d.take(count as int) =~= d);
                    assert(bytes@.subrange(mid as int, bytes@.len() as int)
                        == enc_entry_seq(d));
                }
            }
        }
        return None;
    }
    proof {
        assert(bytes@ =~= bytes@.subrange(0, mid as int)
            + bytes@.subrange(mid as int, cur as int));
    }
    Some(entries)
}

} // verus!
