//! The scalar field of BLS12-381, with elements held as canonical big-endian bytes.
use vstd::arithmetic::div_mod::{lemma_add_mod_noop, lemma_mul_mod_noop_left, lemma_small_mod};
use vstd::arithmetic::power::pow;
use vstd::prelude::*;

verus! {

/// The order r of the BLS12-381 scalar field (a prime).
pub open spec fn field_modulus() -> int {
    0x73eda753299d7d483339d80809a1d805int * 0x10000000000000000 * 0x10000000000000000
        + 0x53bda402fffe5bfeffffffff00000001
}

/// The integer that a big-endian byte string denotes.
pub open spec fn be_value(b: Seq<u8>) -> int
    decreases b.len(),
{
    if b.len() == 0 {
        0
    } else {
        be_value(b.drop_last()) * 256 + b.last()
    }
}

/// An element of the scalar field, stored as its canonical 32-byte big-endian encoding.
#[derive(Clone, Copy, Debug, PartialEq, Eq, Hash)]
pub struct Scalar {
    bytes: [u8; 32],
}

impl View for Scalar {
    type V = int;

    /// The element as an integer in `[0, r)`.
    closed spec fn view(&self) -> int {
        be_value(self.bytes@) % field_modulus()
    }
}

/// The value of a byte string is never negative.
pub proof fn lemma_be_value_nonneg(b: Seq<u8>)
    ensures
        be_value(b) >= 0,
    decreases b.len(),
{
    if b.len() > 0 {
        lemma_be_value_nonneg(b.drop_last());
    }
}

/// Two byte strings of one length with the same big-endian value are equal.
proof fn lemma_be_value_injective(a: Seq<u8>, b: Seq<u8>)
    requires
        a.len() == b.len(),
        be_value(a) == be_value(b),
    ensures
        a == b,
    decreases a.len(),
{
    if a.len() > 0 {
        let qa = be_value(a.drop_last());
        let qb = be_value(b.drop_last());
        let ra = a.last() as int;
        let rb = b.last() as int;
        assert(ra == rb && qa == qb) by (nonlinear_arith)
            requires
                qa * 256 + ra == qb * 256 + rb,
                0 <= ra < 256,
                0 <= rb < 256,
        ;
        lemma_be_value_injective(a.drop_last(), b.drop_last());
        assert(a =~= a.drop_last().push(a.last()));
        assert(b =~= b.drop_last().push(b.last()));
    }
}

impl Scalar {
    #[verifier::type_invariant]
    spec fn wf(self) -> bool {
        be_value(self.bytes@) < field_modulus()
    }

    /// Every element's value lies in `[0, r)`.
    pub proof fn lemma_range(self)
        ensures
            0 <= self@ < field_modulus(),
    {
    }

    /// Relies on blstrs's `PrimeField::from_u128`: the element whose value is `x`.
    #[verifier::external_body]
    fn lift_u128(x: u128) -> (r: Scalar)
        ensures
            r.wf(),
            r@ == x as int,
    {
        let s = <blstrs::Scalar as group::ff::PrimeField>::from_u128(x);
        Scalar { bytes: s.to_bytes_be() }
    }

    /// Relies on blstrs's `Scalar + Scalar`: the sum modulo r.
    #[verifier::external_body]
    fn field_add(a: &Scalar, b: &Scalar) -> (r: Scalar)
        requires
            a.wf(),
            b.wf(),
        ensures
            r.wf(),
            r@ == (a@ + b@) % field_modulus(),
    {
        let x = blstrs::Scalar::from_bytes_be(&a.bytes).unwrap();
        let y = blstrs::Scalar::from_bytes_be(&b.bytes).unwrap();
        Scalar { bytes: (x + y).to_bytes_be() }
    }

    /// Relies on blstrs's `Scalar - Scalar`: the difference modulo r.
    #[verifier::external_body]
    fn field_sub(a: &Scalar, b: &Scalar) -> (r: Scalar)
        requires
            a.wf(),
            b.wf(),
        ensures
            r.wf(),
            r@ == (a@ - b@) % field_modulus(),
    {
        let x = blstrs::Scalar::from_bytes_be(&a.bytes).unwrap();
        let y = blstrs::Scalar::from_bytes_be(&b.bytes).unwrap();
        Scalar { bytes: (x - y).to_bytes_be() }
    }

    /// Relies on blstrs's `Scalar * Scalar`: the product modulo r.
    #[verifier::external_body]
    fn field_mul(a: &Scalar, b: &Scalar) -> (r: Scalar)
        requires
            a.wf(),
            b.wf(),
        ensures
            r.wf(),
            r@ == (a@ * b@) % field_modulus(),
    {
        let x = blstrs::Scalar::from_bytes_be(&a.bytes).unwrap();
        let y = blstrs::Scalar::from_bytes_be(&b.bytes).unwrap();
        Scalar { bytes: (x * y).to_bytes_be() }
    }

    /// Relies on ff's `Field::pow` for blstrs's `Scalar`, whose exponent is given as
    /// little-endian 64-bit limbs: the power modulo r.
    #[verifier::external_body]
    fn field_pow(a: &Scalar, e: u128) -> (r: Scalar)
        requires
            a.wf(),
        ensures
            r.wf(),
            r@ == pow(a@, e as nat) % field_modulus(),
    {
        let x = blstrs::Scalar::from_bytes_be(&a.bytes).unwrap();
        let limbs = [e as u64, (e >> 64) as u64];
        Scalar { bytes: <blstrs::Scalar as group::ff::Field>::pow(&x, limbs).to_bytes_be() }
    }

    /// The canonical big-endian encoding of the element.
    pub fn to_bytes(&self) -> (r: [u8; 32])
        ensures
            be_value(r@) == self@,
            be_value(r@) < field_modulus(),
    {
        proof {
            use_type_invariant(self);
            lemma_be_value_nonneg(self.bytes@);
            lemma_small_mod(be_value(self.bytes@) as nat, field_modulus() as nat);
        }
        self.bytes
    }

    /// The element whose value is `x`.
    pub fn from_u128(x: u128) -> (r: Scalar)
        ensures
            r@ == x as int,
    {
        Self::lift_u128(x)
    }

    /// The additive identity.
    pub fn zero() -> (r: Scalar)
        ensures
            r@ == 0,
    {
        Self::lift_u128(0)
    }

    /// The multiplicative identity.
    pub fn one() -> (r: Scalar)
        ensures
            r@ == 1,
    {
        Self::lift_u128(1)
    }

    /// `self + o` in the field.
    pub fn add(&self, o: &Scalar) -> (r: Scalar)
        ensures
            r@ == (self@ + o@) % field_modulus(),
    {
        proof {
            use_type_invariant(self);
            use_type_invariant(o);
        }
        Self::field_add(self, o)
    }

    /// `self - o` in the field.
    pub fn sub(&self, o: &Scalar) -> (r: Scalar)
        ensures
            r@ == (self@ - o@) % field_modulus(),
    {
        proof {
            use_type_invariant(self);
            use_type_invariant(o);
        }
        Self::field_sub(self, o)
    }

    /// `self * o` in the field.
    pub fn mul(&self, o: &Scalar) -> (r: Scalar)
        ensures
            r@ == (self@ * o@) % field_modulus(),
    {
        proof {
            use_type_invariant(self);
            use_type_invariant(o);
        }
        Self::field_mul(self, o)
    }

    /// `self` raised to the power `e` in the field.
    pub fn pow(&self, e: u128) -> (r: Scalar)
        ensures
            r@ == pow(self@, e as nat) % field_modulus(),
    {
        proof {
            use_type_invariant(self);
        }
        Self::field_pow(self, e)
    }

    /// Whether two elements are equal.
    pub fn equals(&self, o: &Scalar) -> (r: bool)
        ensures
            r == (self@ == o@),
    {
        proof {
            use_type_invariant(self);
            use_type_invariant(o);
        }
        let mut i: usize = 0;
        while i < 32
            invariant
                i <= 32,
                self.wf(),
                o.wf(),
                forall|j: int| 0 <= j < i ==> self.bytes@[j] == o.bytes@[j],
            decreases 32 - i,
        {
            if self.bytes[i] != o.bytes[i] {
                proof {
                    if self@ == o@ {
                        lemma_be_value_nonneg(self.bytes@);
                        lemma_small_mod(be_value(self.bytes@) as nat, field_modulus() as nat);
                        lemma_be_value_nonneg(o.bytes@);
                        lemma_small_mod(be_value(o.bytes@) as nat, field_modulus() as nat);
                        lemma_be_value_injective(self.bytes@, o.bytes@);
                    }
                }
                return false;
            }
            i = i + 1;
        }
        assert(self.bytes@ =~= o.bytes@);
        true
    }

    /// The element `be_value(b) mod r` for a big-endian byte string `b`.
    pub fn from_be_bytes_mod(b: &Vec<u8>) -> (r: Scalar)
        ensures
            r@ == be_value(b@) % field_modulus(),
    {
        let radix = Self::from_u128(256);
        let mut acc = Self::zero();
        let mut i: usize = 0;
        proof {
            assert(be_value(b@.take(0)) == 0);
            lemma_small_mod(0, field_modulus() as nat);
        }
        while i < b.len()
            invariant
                i <= b.len(),
                radix@ == 256,
                acc@ == be_value(b@.take(i as int)) % field_modulus(),
            decreases b.len() - i,
        {
            let digit = Self::from_u128(b[i] as u128);
            let shifted = acc.mul(&radix);
            acc = shifted.add(&digit);
            proof {
                let m = field_modulus();
                let prev = be_value(b@.take(i as int));
                assert(b@.take(i + 1).drop_last() =~= b@.take(i as int));
                assert(be_value(b@.take(i + 1)) == prev * 256 + b@[i as int]);
                lemma_mul_mod_noop_left(prev, 256, m);
                lemma_add_mod_noop(prev * 256, b@[i as int] as int, m);
                lemma_small_mod(b@[i as int] as nat, m as nat);
                lemma_add_mod_noop(prev * 256, b@[i as int] as int, m);
            }
            i = i + 1;
        }
        assert(b@.take(b.len() as int) =~= b@);
        acc
    }
}

} // verus!
