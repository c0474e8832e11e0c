//! The curve back-end: the groups G1 and G2 of BLS12-381, the pairing into the
//! target group, and the Fiat–Shamir challenge, computed by blstrs and sha2.
//!
//! Points are held as their canonical uncompressed encodings. Each group operation
//! is named by an uninterpreted function of its operands. The generators carry
//! what the group law and the bilinearity of the pairing give for the named
//! operations on their multiples.
use crate::field::{be_value, field_modulus, Scalar};
use vstd::arithmetic::div_mod::lemma_small_mod;
use vstd::arithmetic::power::pow;
use vstd::prelude::*;

verus! {

/// The uncompressed encoding of the standard generator of G1.
pub open spec fn g1_generator_bytes() -> Seq<u8> {
    seq![
        0x17, 0xf1, 0xd3, 0xa7, 0x31, 0x97, 0xd7, 0x94, 0x26, 0x95, 0x63, 0x8c,
        0x4f, 0xa9, 0xac, 0x0f, 0xc3, 0x68, 0x8c, 0x4f, 0x97, 0x74, 0xb9, 0x05,
        0xa1, 0x4e, 0x3a, 0x3f, 0x17, 0x1b, 0xac, 0x58, 0x6c, 0x55, 0xe8, 0x3f,
        0xf9, 0x7a, 0x1a, 0xef, 0xfb, 0x3a, 0xf0, 0x0a, 0xdb, 0x22, 0xc6, 0xbb,
        0x08, 0xb3, 0xf4, 0x81, 0xe3, 0xaa, 0xa0, 0xf1, 0xa0, 0x9e, 0x30, 0xed,
        0x74, 0x1d, 0x8a, 0xe4, 0xfc, 0xf5, 0xe0, 0x95, 0xd5, 0xd0, 0x0a, 0xf6,
        0x00, 0xdb, 0x18, 0xcb, 0x2c, 0x04, 0xb3, 0xed, 0xd0, 0x3c, 0xc7, 0x44,
        0xa2, 0x88, 0x8a, 0xe4, 0x0c, 0xaa, 0x23, 0x29, 0x46, 0xc5, 0xe7, 0xe1,
    ]
}

/// The uncompressed encoding of the standard generator of G2.
pub open spec fn g2_generator_bytes() -> Seq<u8> {
    seq![
        0x13, 0xe0, 0x2b, 0x60, 0x52, 0x71, 0x9f, 0x60, 0x7d, 0xac, 0xd3, 0xa0,
        0x88, 0x27, 0x4f, 0x65, 0x59, 0x6b, 0xd0, 0xd0, 0x99, 0x20, 0xb6, 0x1a,
        0xb5, 0xda, 0x61, 0xbb, 0xdc, 0x7f, 0x50, 0x49, 0x33, 0x4c, 0xf1, 0x12,
        0x13, 0x94, 0x5d, 0x57, 0xe5, 0xac, 0x7d, 0x05, 0x5d, 0x04, 0x2b, 0x7e,
        0x02, 0x4a, 0xa2, 0xb2, 0xf0, 0x8f, 0x0a, 0x91, 0x26, 0x08, 0x05, 0x27,
        0x2d, 0xc5, 0x10, 0x51, 0xc6, 0xe4, 0x7a, 0xd4, 0xfa, 0x40, 0x3b, 0x02,
        0xb4, 0x51, 0x0b, 0x64, 0x7a, 0xe3, 0xd1, 0x77, 0x0b, 0xac, 0x03, 0x26,
        0xa8, 0x05, 0xbb, 0xef, 0xd4, 0x80, 0x56, 0xc8, 0xc1, 0x21, 0xbd, 0xb8,
        0x06, 0x06, 0xc4, 0xa0, 0x2e, 0xa7, 0x34, 0xcc, 0x32, 0xac, 0xd2, 0xb0,
        0x2b, 0xc2, 0x8b, 0x99, 0xcb, 0x3e, 0x28, 0x7e, 0x85, 0xa7, 0x63, 0xaf,
        0x26, 0x74, 0x92, 0xab, 0x57, 0x2e, 0x99, 0xab, 0x3f, 0x37, 0x0d, 0x27,
        0x5c, 0xec, 0x1d, 0xa1, 0xaa, 0xa9, 0x07, 0x5f, 0xf0, 0x5f, 0x79, 0xbe,
        0x0c, 0xe5, 0xd5, 0x27, 0x72, 0x7d, 0x6e, 0x11, 0x8c, 0xc9, 0xcd, 0xc6,
        0xda, 0x2e, 0x35, 0x1a, 0xad, 0xfd, 0x9b, 0xaa, 0x8c, 0xbd, 0xd3, 0xa7,
        0x6d, 0x42, 0x9a, 0x69, 0x51, 0x60, 0xd1, 0x2c, 0x92, 0x3a, 0xc9, 0xcc,
        0x3b, 0xac, 0xa2, 0x89, 0xe1, 0x93, 0x54, 0x86, 0x08, 0xb8, 0x28, 0x01,
    ]
}

/// A point of G1, held as its 96-byte uncompressed encoding.
#[derive(Clone, Copy, Debug, PartialEq, Eq, Hash)]
pub struct G1 {
    bytes: [u8; 96],
}

/// A point of G2, held as its 192-byte uncompressed encoding.
#[derive(Clone, Copy, Debug, PartialEq, Eq, Hash)]
pub struct G2 {
    bytes: [u8; 192],
}

/// An element of the target group, held as the printed form of its twelve
/// base-field coordinates (each as fixed-width hexadecimal).
#[derive(Clone, Debug, PartialEq, Eq, Hash)]
pub struct Gt {
    text: Vec<u8>,
}

/// Whether blstrs accepts `b` as the uncompressed encoding of a point of G1.
pub uninterp spec fn g1_decodes(b: Seq<u8>) -> bool;

/// Whether blstrs accepts `b` as the uncompressed encoding of a point of G2.
pub uninterp spec fn g2_decodes(b: Seq<u8>) -> bool;

/// `p + q` in G1.
pub uninterp spec fn g1_add_of(p: G1, q: G1) -> G1;

/// `p - q` in G1.
pub uninterp spec fn g1_sub_of(p: G1, q: G1) -> G1;

/// `k·p` in G1, for the scalar of value `k`.
pub uninterp spec fn g1_mul_of(k: int, p: G1) -> G1;

/// `p - q` in G2.
pub uninterp spec fn g2_sub_of(p: G2, q: G2) -> G2;

/// `k·q` in G2, for the scalar of value `k`.
pub uninterp spec fn g2_mul_of(k: int, q: G2) -> G2;

/// The printed form of the pairing `e(p, q)`.
pub uninterp spec fn pairing_of(p: G1, q: G2) -> Seq<u8>;

/// The SHA-256 digest of `b`.
pub uninterp spec fn sha256_of(b: Seq<u8>) -> Seq<u8>;

impl View for Gt {
    type V = Seq<u8>;

    closed spec fn view(&self) -> Seq<u8> {
        self.text@
    }
}

/// The generator g₁ of G1.
pub closed spec fn g1_gen() -> G1 {
    G1 { bytes: choose|a: [u8; 96]| a@ == g1_generator_bytes() }
}

/// The generator g₂ of G2.
pub closed spec fn g2_gen() -> G2 {
    G2 { bytes: choose|a: [u8; 192]| a@ == g2_generator_bytes() }
}

/// `a·gen` in G1, for any integer `a` (taken modulo r).
pub closed spec fn g1_multiple(a: int, gen: G1) -> G1 {
    g1_mul_of(a % field_modulus(), gen)
}

/// `a·gen` in G2, for any integer `a` (taken modulo r).
pub closed spec fn g2_multiple(a: int, gen: G2) -> G2 {
    g2_mul_of(a % field_modulus(), gen)
}

/// Scaling by a reduced scalar is taking that multiple.
pub proof fn lemma_g1_multiple_of(k: int, gen: G1)
    requires
        0 <= k < field_modulus(),
    ensures
        g1_mul_of(k, gen) == g1_multiple(k, gen),
{
    lemma_small_mod(k as nat, field_modulus() as nat);
}

/// Multiples by congruent integers are equal.
pub proof fn lemma_g1_multiple_congruent(a: int, b: int, gen: G1)
    requires
        a % field_modulus() == b % field_modulus(),
    ensures
        g1_multiple(a, gen) == g1_multiple(b, gen),
{
}

/// Scaling by a reduced scalar is taking that multiple.
pub proof fn lemma_g2_multiple_of(k: int, gen: G2)
    requires
        0 <= k < field_modulus(),
    ensures
        g2_mul_of(k, gen) == g2_multiple(k, gen),
{
    lemma_small_mod(k as nat, field_modulus() as nat);
}

/// The group law on the multiples of `gen` in G1: they add, subtract and scale
/// as their scalars do modulo r, and (`gen` having order r) two multiples are
/// equal only when their scalars agree modulo r.
pub open spec fn g1_laws(gen: G1) -> bool {
    &&& gen == g1_multiple(1, gen)
    &&& forall|a: int, b: int|
        #![trigger g1_multiple(a, gen), g1_multiple(b, gen)]
        g1_multiple(a, gen) == g1_multiple(b, gen) ==> a % field_modulus() == b
            % field_modulus()
    &&& forall|a: int, b: int|
        #![trigger g1_add_of(g1_multiple(a, gen), g1_multiple(b, gen))]
        g1_add_of(g1_multiple(a, gen), g1_multiple(b, gen)) == g1_multiple(a + b, gen)
    &&& forall|a: int, b: int|
        #![trigger g1_sub_of(g1_multiple(a, gen), g1_multiple(b, gen))]
        g1_sub_of(g1_multiple(a, gen), g1_multiple(b, gen)) == g1_multiple(a - b, gen)
    &&& forall|a: int, k: int|
        #![trigger g1_mul_of(k, g1_multiple(a, gen))]
        0 <= k < field_modulus() ==> g1_mul_of(k, g1_multiple(a, gen)) == g1_multiple(
            a * k,
            gen,
        )
}

/// The group law on the multiples of `gen` in G2.
pub open spec fn g2_laws(gen: G2) -> bool {
    &&& gen == g2_multiple(1, gen)
    &&& forall|a: int, b: int|
        #![trigger g2_sub_of(g2_multiple(a, gen), g2_multiple(b, gen))]
        g2_sub_of(g2_multiple(a, gen), g2_multiple(b, gen)) == g2_multiple(a - b, gen)
    &&& forall|a: int, k: int|
        #![trigger g2_mul_of(k, g2_multiple(a, gen))]
        0 <= k < field_modulus() ==> g2_mul_of(k, g2_multiple(a, gen)) == g2_multiple(
            a * k,
            gen,
        )
}

/// Bilinearity of the pairing on multiples of `g` and `h`:
/// `e(a·g, b·h) = e((a·b)·g, h)`.
pub open spec fn pairing_laws(g: G1, h: G2) -> bool {
    forall|a: int, b: int|
        #![trigger pairing_of(g1_multiple(a, g), g2_multiple(b, h))]
        pairing_of(g1_multiple(a, g), g2_multiple(b, h)) == pairing_of(g1_multiple(a * b, g), h)
}

/// The transcript encoding of a G1 point: big-endian x, big-endian y, then one
/// byte that is 1 for the point at infinity and 0 otherwise. In the uncompressed
/// encoding the top three bits of the first byte are flags (bit 6 marks infinity),
/// and the remaining bits are x and y.
pub open spec fn g1_transcript_bytes(b: Seq<u8>) -> Seq<u8> {
    seq![b[0] & 0x1f].add(b.subrange(1, 96)).push(if b[0] & 0x40 != 0 { 1u8 } else { 0u8 })
}

/// The transcript that the Fiat–Shamir challenge hashes: g₁, h, z, n₁, n₂.
pub open spec fn fs_transcript(z: G1, n1: G1, n2: G1, h: G1) -> Seq<u8> {
    g1_transcript_bytes(g1_gen().view_bytes()) + g1_transcript_bytes(h.view_bytes())
        + g1_transcript_bytes(z.view_bytes()) + g1_transcript_bytes(n1.view_bytes())
        + g1_transcript_bytes(n2.view_bytes())
}

/// The Fiat–Shamir challenge: the digest read big-endian, modulo r.
pub open spec fn fs_challenge(z: G1, n1: G1, n2: G1, h: G1) -> int {
    be_value(sha256_of(fs_transcript(z, n1, n2, h))) % field_modulus()
}

impl G1 {
    /// The encoding as a sequence of bytes.
    pub closed spec fn view_bytes(self) -> Seq<u8> {
        self.bytes@
    }

    #[verifier::type_invariant]
    spec fn wf(self) -> bool {
        g1_decodes(self.bytes@)
    }

    /// Whether two points are equal.
    pub fn equals(&self, o: &G1) -> (r: bool)
        ensures
            r == (*self == *o),
    {
        let mut i: usize = 0;
        while i < 96
            invariant
                i <= 96,
                forall|j: int| 0 <= j < i ==> self.bytes@[j] == o.bytes@[j],
            decreases 96 - i,
        {
            if self.bytes[i] != o.bytes[i] {
                return false;
            }
            i = i + 1;
        }
        assert(self.bytes@ =~= o.bytes@);
        assert(self.bytes == o.bytes);
        true
    }

    /// The 96-byte uncompressed encoding of the point.
    pub fn to_bytes(&self) -> (r: [u8; 96])
        ensures
            r@ == self.view_bytes(),
    {
        self.bytes
    }
}

impl G2 {
    #[verifier::type_invariant]
    spec fn wf(self) -> bool {
        g2_decodes(self.bytes@)
    }

    /// The encoding as a sequence of bytes.
    pub closed spec fn view_bytes(self) -> Seq<u8> {
        self.bytes@
    }

    /// The 192-byte uncompressed encoding of the point.
    pub fn to_bytes(&self) -> (r: [u8; 192])
        ensures
            r@ == self.view_bytes(),
    {
        self.bytes
    }
}

impl Gt {
    /// Whether two elements are equal.
    pub fn equals(&self, o: &Gt) -> (r: bool)
        ensures
            r == (self@ == o@),
    {
        if self.text.len() != o.text.len() {
            return false;
        }
        let mut i: usize = 0;
        while i < self.text.len()
            invariant
                i <= self.text.len(),
                self.text.len() == o.text.len(),
                forall|j: int| 0 <= j < i ==> self.text@[j] == o.text@[j],
            decreases self.text.len() - i,
        {
            if self.text[i] != o.text[i] {
                return false;
            }
            i = i + 1;
        }
        assert(self.text@ =~= o.text@);
        true
    }
}

/// Relies on blstrs's `G1Projective::generator` and `to_uncompressed`.
#[verifier::external_body]
fn g1_generator() -> (r: G1)
    ensures
        g1_decodes(r.bytes@),
        r.bytes@ == g1_generator_bytes(),
        g1_laws(r),
{
    G1 { bytes: <blstrs::G1Projective as group::Group>::generator().to_uncompressed() }
}

/// Relies on blstrs's `G2Projective::generator` and `to_uncompressed`.
#[verifier::external_body]
fn g2_generator() -> (r: G2)
    ensures
        g2_decodes(r.bytes@),
        r.bytes@ == g2_generator_bytes(),
        g2_laws(r),
        pairing_laws(g1_gen(), r),
{
    G2 { bytes: <blstrs::G2Projective as group::Group>::generator().to_uncompressed() }
}

/// Relies on blstrs's `G1Projective + G1Projective` (points decoded with
/// `from_uncompressed`, which accepts every encoding that blstrs produced).
#[verifier::external_body]
fn g1_add_raw(p: &G1, q: &G1) -> (r: G1)
    requires
        p.wf(),
        q.wf(),
    ensures
        g1_decodes(r.bytes@),
        r == g1_add_of(*p, *q),
{
    let x = blstrs::G1Projective::from_uncompressed(&p.bytes).unwrap();
    let y = blstrs::G1Projective::from_uncompressed(&q.bytes).unwrap();
    G1 { bytes: (x + y).to_uncompressed() }
}

/// Relies on blstrs's `G1Projective - G1Projective`.
#[verifier::external_body]
fn g1_sub_raw(p: &G1, q: &G1) -> (r: G1)
    requires
        p.wf(),
        q.wf(),
    ensures
        g1_decodes(r.bytes@),
        r == g1_sub_of(*p, *q),
{
    let x = blstrs::G1Projective::from_uncompressed(&p.bytes).unwrap();
    let y = blstrs::G1Projective::from_uncompressed(&q.bytes).unwrap();
    G1 { bytes: (x - y).to_uncompressed() }
}

/// Relies on blstrs's `G1Projective * Scalar` (the scalar decoded with
/// `Scalar::from_bytes_be`, which accepts every canonical encoding).
#[verifier::external_body]
fn g1_mul_raw(k: &[u8; 32], p: &G1) -> (r: G1)
    requires
        be_value(k@) < field_modulus(),
        p.wf(),
    ensures
        g1_decodes(r.bytes@),
        r == g1_mul_of(be_value(k@), *p),
{
    let s = blstrs::Scalar::from_bytes_be(k).unwrap();
    let x = blstrs::G1Projective::from_uncompressed(&p.bytes).unwrap();
    G1 { bytes: (x * s).to_uncompressed() }
}

/// Relies on blstrs's `G2Projective - G2Projective`.
#[verifier::external_body]
fn g2_sub_raw(p: &G2, q: &G2) -> (r: G2)
    requires
        p.wf(),
        q.wf(),
    ensures
        g2_decodes(r.bytes@),
        r == g2_sub_of(*p, *q),
{
    let x = blstrs::G2Projective::from_uncompressed(&p.bytes).unwrap();
    let y = blstrs::G2Projective::from_uncompressed(&q.bytes).unwrap();
    G2 { bytes: (x - y).to_uncompressed() }
}

/// Relies on blstrs's `G2Projective * Scalar`.
#[verifier::external_body]
fn g2_mul_raw(k: &[u8; 32], q: &G2) -> (r: G2)
    requires
        be_value(k@) < field_modulus(),
        q.wf(),
    ensures
        g2_decodes(r.bytes@),
        r == g2_mul_of(be_value(k@), *q),
{
    let s = blstrs::Scalar::from_bytes_be(k).unwrap();
    let x = blstrs::G2Projective::from_uncompressed(&q.bytes).unwrap();
    G2 { bytes: (x * s).to_uncompressed() }
}

/// Relies on blstrs's `pairing`, whose result is printed through its `Display`
/// (the twelve base-field coordinates in fixed-width hexadecimal).
#[verifier::external_body]
fn pairing_raw(p: &G1, q: &G2) -> (r: Gt)
    requires
        p.wf(),
        q.wf(),
    ensures
        r@ == pairing_of(*p, *q),
{
    let x = blstrs::G1Affine::from_uncompressed(&p.bytes).unwrap();
    let y = blstrs::G2Affine::from_uncompressed(&q.bytes).unwrap();
    Gt { text: blstrs::pairing(&x, &y).to_string().into_bytes() }
}

/// Relies on sha2's `Sha256::digest`: the 32-byte SHA-256 digest.
#[verifier::external_body]
fn sha256(b: &Vec<u8>) -> (r: Vec<u8>)
    ensures
        r@ == sha256_of(b@),
        r@.len() == 32,
{
    <sha2::Sha256 as sha2::Digest>::digest(b.as_slice()).to_vec()
}

/// Appends the transcript encoding of `p` to `out`.
fn push_transcript_bytes(out: &mut Vec<u8>, p: &G1)
    ensures
        final(out)@ == old(out)@ + g1_transcript_bytes(p.bytes@),
{
    let first = p.bytes[0];
    out.push(first & 0x1f);
    let mut i: usize = 1;
    while i < 96
        invariant
            1 <= i <= 96,
            out@ == old(out)@ + seq![first & 0x1f].add(p.bytes@.subrange(1, i as int)),
        decreases 96 - i,
    {
        out.push(p.bytes[i]);
        proof {
            assert(p.bytes@.subrange(1, i + 1) =~= p.bytes@.subrange(1, i as int).push(p.bytes@[i as int]));
            assert(out@ =~= old(out)@ + seq![first & 0x1f].add(p.bytes@.subrange(1, i + 1)));
        }
        i = i + 1;
    }
    let flag: u8 = if first & 0x40 != 0 { 1 } else { 0 };
    out.push(flag);
    assert(out@ =~= old(out)@ + g1_transcript_bytes(p.bytes@));
}

/// The BLS12-381 back-end, computed by blstrs.
pub struct FastCurve;

impl FastCurve {
    /// The scalar whose value is `x`.
    pub fn scalar_from_literal(x: &u128) -> (r: Scalar)
        ensures
            r@ == *x as int,
    {
        Scalar::from_u128(*x)
    }

    /// `x` raised to the power `y`.
    pub fn scalar_pow(x: &Scalar, y: &u128) -> (r: Scalar)
        ensures
            r@ == pow(x@, *y as nat) % field_modulus(),
    {
        x.pow(*y)
    }

    /// The standard generator g₁ of G1.
    pub fn g1() -> (r: G1)
        ensures
            r == g1_gen(),
            g1_laws(r),
    {
        let r = g1_generator();
        proof {
            let c = choose|a: [u8; 96]| a@ == g1_generator_bytes();
            assert(c@ == g1_generator_bytes());
            assert(c == r.bytes);
        }
        r
    }

    /// The standard generator g₂ of G2.
    pub fn g2() -> (r: G2)
        ensures
            r == g2_gen(),
            g2_laws(r),
            pairing_laws(g1_gen(), r),
    {
        let r = g2_generator();
        proof {
            let c = choose|a: [u8; 192]| a@ == g2_generator_bytes();
            assert(c@ == g2_generator_bytes());
            assert(c == r.bytes);
        }
        r
    }

    /// `x + y` in G1.
    pub fn g1add(x: &G1, y: &G1) -> (r: G1)
        ensures
            r == g1_add_of(*x, *y),
    {
        proof {
            use_type_invariant(x);
            use_type_invariant(y);
        }
        g1_add_raw(x, y)
    }

    /// `x - y` in G1.
    pub fn g1sub(x: &G1, y: &G1) -> (r: G1)
        ensures
            r == g1_sub_of(*x, *y),
    {
        proof {
            use_type_invariant(x);
            use_type_invariant(y);
        }
        g1_sub_raw(x, y)
    }

    /// `x·y` in G1.
    pub fn g1mul(x: &Scalar, y: &G1) -> (r: G1)
        ensures
            r == g1_mul_of(x@, *y),
    {
        proof {
            use_type_invariant(y);
        }
        let k = x.to_bytes();
        g1_mul_raw(&k, y)
    }

    /// `x - y` in G2.
    pub fn g2sub(x: &G2, y: &G2) -> (r: G2)
        ensures
            r == g2_sub_of(*x, *y),
    {
        proof {
            use_type_invariant(x);
            use_type_invariant(y);
        }
        g2_sub_raw(x, y)
    }

    /// `x·y` in G2.
    pub fn g2mul(x: &Scalar, y: &G2) -> (r: G2)
        ensures
            r == g2_mul_of(x@, *y),
    {
        proof {
            use_type_invariant(y);
        }
        let k = x.to_bytes();
        g2_mul_raw(&k, y)
    }

    /// The pairing `e(x, y)`.
    pub fn pairing(x: &G1, y: &G2) -> (r: Gt)
        ensures
            r@ == pairing_of(*x, *y),
    {
        proof {
            use_type_invariant(x);
            use_type_invariant(y);
        }
        pairing_raw(x, y)
    }

    /// The Fiat–Shamir challenge for the Schnorr transcript `(z, n1, n2)` under the
    /// hiding base `h`: SHA-256 over the encodings of g₁, h, z, n1, n2, read
    /// big-endian modulo r.
    pub fn fiat_shamir_hash(z: G1, n1: G1, n2: G1, h: G1) -> (r: Scalar)
        ensures
            r@ == fs_challenge(z, n1, n2, h),
    {
        let g = Self::g1();
        let mut t: Vec<u8> = Vec::new();
        push_transcript_bytes(&mut t, &g);
        push_transcript_bytes(&mut t, &h);
        push_transcript_bytes(&mut t, &z);
        push_transcript_bytes(&mut t, &n1);
        push_transcript_bytes(&mut t, &n2);
        assert(t@ =~= fs_transcript(z, n1, n2, h));
        let digest = sha256(&t);
        Scalar::from_be_bytes_mod(&digest)
    }
}

} // verus!
