//! The membership / non-membership proof protocol: trusted setup, hiding
//! commitment to a set, queries with witnesses, the Schnorr proof with
//! Fiat–Shamir, and verification.
use crate::curve::{
    fs_challenge, g1_add_of, g1_gen, g1_mul_of, g1_multiple, g1_sub_of, g2_gen, g2_mul_of,
    g2_sub_of, pairing_of, FastCurve, G1, G2,
};
use crate::field::{field_modulus, Scalar};
use crate::poly::{
    apply, commit_poly, commitment, create_psi, multiply, poly_value, product_mod, quotient, values,
};
use crate::proofs::{
    lemma_member_answer, lemma_non_member_answer, lemma_schnorr_complete, lemma_zero_detector,
};
use vstd::arithmetic::div_mod::{lemma_small_mod, lemma_sub_mod_noop};
use vstd::arithmetic::power::pow;
use vstd::prelude::*;

verus! {

/// Why a prover-side operation failed.
#[derive(Clone, Copy, Debug, PartialEq, Eq, Hash)]
pub enum KzgError {
    /// The randomness pool ran out before a required draw.
    InsufficientRandomness,
    /// A polynomial is empty or longer than the setup's basis.
    InvalidInput,
}

/// The public parameters produced by the trusted setup.
#[derive(Clone, Debug)]
pub struct Pk {
    /// `[α^d·g, α^(d-1)·g, …, α·g, g]`.
    pub g_powers: Vec<G1>,
    /// `[α^d·h, α^(d-1)·h, …, α·h, h]`.
    pub h_powers: Vec<G1>,
    /// The hiding base `h = λ·g`.
    pub h1: G1,
    /// `α·g₂`.
    pub alpha_g2: G2,
}

/// A non-membership transcript `(Z, N₁, N₂, s₁, s₂)`.
pub type NonMembershipProof = (G1, G1, G1, Scalar, Scalar);

/// What `queryzk` hands out: the queried element, the witness, `φ̂(k)` on the
/// membership branch, and the non-membership transcript on the other.
pub type QueryResult = (Scalar, G1, Option<Scalar>, Option<NonMembershipProof>);

/// The parameters that the setup derives from the secrets `alpha` and `lambda`.
pub open spec fn setup_from(pk: Pk, degree: nat, alpha: u128, lambda: u128) -> bool {
    let h = g1_mul_of(lambda as int, g1_gen());
    &&& pk.g_powers@.len() == degree + 1
    &&& pk.h_powers@.len() == degree + 1
    &&& pk.h1 == h
    &&& pk.alpha_g2 == g2_mul_of(alpha as int, g2_gen())
    &&& forall|i: int|
        0 <= i <= degree ==> #[trigger] pk.g_powers@[i] == g1_mul_of(
            pow(alpha as int, (degree - i) as nat) % field_modulus(),
            g1_gen(),
        )
    &&& forall|i: int|
        0 <= i <= degree ==> #[trigger] pk.h_powers@[i] == g1_mul_of(
            pow(alpha as int, (degree - i) as nat) % field_modulus(),
            h,
        )
}

/// The first `n` words drawn from the end of `pool`, in the order drawn.
pub open spec fn draws(pool: Seq<u128>, n: int) -> Seq<int> {
    Seq::new(n as nat, |i: int| pool[pool.len() - 1 - i] as int)
}

/// `pool` after `n` words were drawn from its end.
pub open spec fn after_draws(pool: Seq<u128>, n: int) -> Seq<u128> {
    pool.subrange(0, pool.len() - n)
}

/// The set polynomial `Π (x - s)` over the elements of `s`, in order, with
/// coefficients reduced modulo r.
pub open spec fn set_poly(s: Seq<int>) -> Seq<int>
    decreases s.len(),
{
    if s.len() == 0 {
        seq![1]
    } else {
        product_mod(set_poly(s.drop_last()), seq![1, (0 - s.last()) % field_modulus()])
    }
}

/// The hiding commitment `commit(φ, g-basis) + commit(φ̂, h-basis)`.
pub open spec fn hiding_commitment(pk: Pk, phi: Seq<int>, phi_hat: Seq<int>) -> G1 {
    g1_add_of(
        commitment(phi, pk.g_powers@, g1_gen()),
        commitment(phi_hat, pk.h_powers@, pk.h1),
    )
}

/// Whether `k` is one of the elements of `set`.
pub open spec fn is_member(set: Seq<Scalar>, k: Scalar) -> bool {
    exists|j: int| 0 <= j < set.len() && #[trigger] set[j]@ == k@
}

/// The witness for `k`: the hiding commitment to the quotients of `φ` and `φ̂`
/// by `(x - k)`.
pub open spec fn witness_for(pk: Pk, phi: Seq<int>, phi_hat: Seq<int>, k: int) -> G1 {
    hiding_commitment(pk, quotient(phi, k), quotient(phi_hat, k))
}

/// `a·g + b·h`.
pub open spec fn two_base_commitment(pk: Pk, a: int, b: int) -> G1 {
    g1_add_of(g1_mul_of(a, g1_gen()), g1_mul_of(b, pk.h1))
}

/// The honest Schnorr transcript for `(a, b)` with nonces `(r1, r2)`.
pub open spec fn schnorr_transcript(pk: Pk, a: int, b: int, r1: int, r2: int) -> (G1, G1, int, int) {
    let n1 = g1_mul_of(r1, g1_gen());
    let n2 = g1_mul_of(r2, pk.h1);
    let c = fs_challenge(two_base_commitment(pk, a, b), n1, n2, pk.h1);
    (n1, n2, (r1 - c * a) % field_modulus(), (r2 - c * b) % field_modulus())
}

/// The Schnorr check `N₁ + N₂ == (s₁·g + s₂·h) + c·Z`.
pub open spec fn schnorr_check(pk: Pk, z: G1, n1: G1, n2: G1, s1: int, s2: int) -> bool {
    let c = fs_challenge(z, n1, n2, pk.h1);
    g1_add_of(n1, n2) == g1_add_of(
        g1_add_of(g1_mul_of(s1, g1_gen()), g1_mul_of(s2, pk.h1)),
        g1_mul_of(c, z),
    )
}

/// The evaluation check `e(W, α·g₂ - k·g₂) == e(C - (φ(k)·g + φ̂(k)·h), g₂)`.
pub open spec fn eval_check(pk: Pk, c: G1, k: int, phi_k: int, phi_hat_k: int, w: G1) -> bool {
    pairing_of(w, g2_sub_of(pk.alpha_g2, g2_mul_of(k, g2_gen()))) == pairing_of(
        g1_sub_of(c, two_base_commitment(pk, phi_k, phi_hat_k)),
        g2_gen(),
    )
}

/// The verifier's decision.
pub open spec fn verdict(
    pk: Pk,
    c: G1,
    pi: Option<NonMembershipProof>,
    k: Scalar,
    w: G1,
    phi_hat_k: Option<Scalar>,
) -> bool {
    match phi_hat_k {
        Some(v) => eval_check(pk, c, k@, 0, v@, w),
        None => match pi {
            None => false,
            Some(t) => {
                &&& t.1 != g1_mul_of(t.3@, g1_gen())
                &&& schnorr_check(pk, t.0, t.1, t.2, t.3@, t.4@)
                &&& pairing_of(g1_sub_of(c, t.0), g2_gen()) == pairing_of(
                    w,
                    g2_sub_of(pk.alpha_g2, g2_mul_of(k@, g2_gen())),
                )
            },
        },
    }
}

/// Runs the trusted setup for polynomials of degree up to `degree`. Draws α, then
/// λ, from the end of `random`; α and λ are not kept.
pub fn setup(degree: u128, random: &mut Vec<u128>) -> (r: Result<Pk, KzgError>)
    requires
        degree < usize::MAX,
    ensures
        old(random)@.len() < 2 ==> r == Err::<Pk, KzgError>(KzgError::InsufficientRandomness)
            && final(random)@ == old(random)@,
        old(random)@.len() >= 2 ==> r is Ok && setup_from(
            r->Ok_0,
            degree as nat,
            old(random)@[old(random)@.len() - 1],
            old(random)@[old(random)@.len() - 2],
        ) && final(random)@ == after_draws(old(random)@, 2),
{
    if random.len() < 2 {
        return Err(KzgError::InsufficientRandomness);
    }
    let ghost pool = random@;
    let a = random.pop().unwrap();
    let l = random.pop().unwrap();
    assert(random@ =~= after_draws(pool, 2));
    let alpha = Scalar::from_u128(a);
    let g = FastCurve::g1();
    let h = FastCurve::g1mul(&Scalar::from_u128(l), &g);
    let mut setup_g1: Vec<G1> = Vec::new();
    let mut setup_h1: Vec<G1> = Vec::new();
    let mut i: u128 = 0;
    while i <= degree
        invariant
            degree < usize::MAX,
            i <= degree + 1,
            setup_g1.len() == i,
            setup_h1.len() == i,
            g == g1_gen(),
            alpha@ == a,
            forall|j: int|
                0 <= j < i ==> #[trigger] setup_g1@[j] == g1_mul_of(
                    pow(a as int, (degree - j) as nat) % field_modulus(),
                    g1_gen(),
                ),
            forall|j: int|
                0 <= j < i ==> #[trigger] setup_h1@[j] == g1_mul_of(
                    pow(a as int, (degree - j) as nat) % field_modulus(),
                    h,
                ),
        decreases degree + 1 - i,
    {
        let power: u128 = degree - i;
        let alpha_power = alpha.pow(power);
        setup_g1.push(FastCurve::g1mul(&alpha_power, &g));
        setup_h1.push(FastCurve::g1mul(&alpha_power, &h));
        i = i + 1;
    }
    let alpha_g2 = FastCurve::g2mul(&alpha, &FastCurve::g2());
    Ok(Pk { g_powers: setup_g1, h_powers: setup_h1, h1: h, alpha_g2 })
}

/// Commits to `set`: builds `φ = Π (x - s)` by multiplying `[1, -s]` into `[1]`
/// for each element in turn, draws the hiding polynomial `φ̂` (one word per
/// coefficient, leading coefficient first), and returns `(C, φ, φ̂)`.
pub fn commitzk(pk: &Pk, set: &Vec<Scalar>, random: &mut Vec<u128>) -> (r: Result<
    (G1, Vec<Scalar>, Vec<Scalar>),
    KzgError,
>)
    ensures
        set.len() >= pk.g_powers.len() || set.len() >= pk.h_powers.len() ==> r == Err::<
            (G1, Vec<Scalar>, Vec<Scalar>),
            KzgError,
        >(KzgError::InvalidInput) && final(random)@ == old(random)@,
        set.len() < pk.g_powers.len() && set.len() < pk.h_powers.len() && old(random)@.len()
            < set.len() + 1 ==> r == Err::<(G1, Vec<Scalar>, Vec<Scalar>), KzgError>(
            KzgError::InsufficientRandomness,
        ) && final(random)@ == old(random)@,
        set.len() < pk.g_powers.len() && set.len() < pk.h_powers.len() && old(random)@.len()
            >= set.len() + 1 ==> r is Ok && {
            let (c, phi, phi_hat) = r->Ok_0;
            &&& values(phi@) == set_poly(values(set@))
            &&& values(phi_hat@) == draws(old(random)@, set.len() + 1)
            &&& c == hiding_commitment(*pk, values(phi@), values(phi_hat@))
            &&& final(random)@ == after_draws(old(random)@, set.len() + 1)
        },
{
    if set.len() >= pk.g_powers.len() || set.len() >= pk.h_powers.len() {
        return Err(KzgError::InvalidInput);
    }
    if random.len() < set.len() + 1 {
        return Err(KzgError::InsufficientRandomness);
    }
    let ghost sv = values(set@);
    let one = Scalar::one();
    let zero = Scalar::zero();
    let mut phi: Vec<Scalar> = Vec::new();
    phi.push(one);
    assert(values(phi@) =~= set_poly(sv.take(0)));
    let mut i: usize = 0;
    while i < set.len()
        invariant
            i <= set.len(),
            set.len() < pk.g_powers.len(),
            sv == values(set@),
            one@ == 1,
            zero@ == 0,
            phi.len() == i + 1,
            values(phi@) == set_poly(sv.take(i as int)),
        decreases set.len() - i,
    {
        let mut factor: Vec<Scalar> = Vec::new();
        factor.push(one);
        factor.push(zero.sub(&set[i]));
        phi = multiply(&phi, &factor);
        proof {
            assert(values(phi@).len() == phi@.len());
            assert(sv.take(i + 1).drop_last() =~= sv.take(i as int));
            assert(values(factor@) =~= seq![1, (0 - sv.take(i + 1).last()) % field_modulus()]);
        }
        i = i + 1;
    }
    assert(sv.take(set.len() as int) =~= sv);
    let ghost pool = random@;
    let mut phi_hat: Vec<Scalar> = Vec::new();
    while phi_hat.len() < phi.len()
        invariant
            phi.len() == set.len() + 1,
            phi_hat.len() <= phi.len(),
            pool.len() >= phi.len(),
            random@ == after_draws(pool, phi_hat.len() as int),
            values(phi_hat@) == draws(pool, phi_hat.len() as int),
        decreases phi.len() - phi_hat.len(),
    {
        let ghost before = phi_hat.len() as int;
        let ghost earlier = phi_hat@;
        let word = random.pop().unwrap();
        assert(word == pool[pool.len() - 1 - before]);
        let coefficient = Scalar::from_u128(word);
        phi_hat.push(coefficient);
        assert(phi_hat@ =~= earlier.push(coefficient));
        assert(values(phi_hat@) =~= values(earlier).push(word as int));
        assert(draws(pool, before + 1) =~= draws(pool, before).push(word as int));
        assert(random@ =~= after_draws(pool, before + 1));
        assert(values(phi_hat@) =~= draws(pool, before + 1));
    }
    let g = FastCurve::g1();
    let committed = commit_poly(&phi, &pk.g_powers, g);
    let hiding = commit_poly(&phi_hat, &pk.h_powers, pk.h1);
    Ok((FastCurve::g1add(&committed, &hiding), phi, phi_hat))
}

/// Evaluates `φ` and `φ̂` at `i` and builds the witness from their quotients by
/// `(x - i)`. Returns `(i, φ(i), φ̂(i), W)`.
fn create_witness(phi: &Vec<Scalar>, phi_hat: &Vec<Scalar>, i: Scalar, pk: &Pk) -> (r: (
    Scalar,
    Scalar,
    Scalar,
    G1,
))
    requires
        phi.len() >= 1,
        phi_hat.len() >= 1,
        phi.len() - 1 <= pk.g_powers.len(),
        phi_hat.len() - 1 <= pk.h_powers.len(),
    ensures
        r.0 == i,
        r.1@ == poly_value(values(phi@), i@) % field_modulus(),
        r.2@ == poly_value(values(phi_hat@), i@) % field_modulus(),
        r.3 == witness_for(*pk, values(phi@), values(phi_hat@), i@),
{
    let phi_i = apply(phi, &i);
    let phi_hat_i = apply(phi_hat, &i);
    let psi = create_psi(phi, phi_i, i);
    let psi_hat = create_psi(phi_hat, phi_hat_i, i);
    assert(values(psi@).len() == psi.len());
    assert(values(psi_hat@).len() == psi_hat.len());
    let committed = commit_poly(&psi, &pk.g_powers, FastCurve::g1());
    let hiding = commit_poly(&psi_hat, &pk.h_powers, pk.h1);
    (i, phi_i, phi_hat_i, FastCurve::g1add(&committed, &hiding))
}

/// Whether `k` is one of the elements of `set`.
fn contains(set: &Vec<Scalar>, k: &Scalar) -> (r: bool)
    ensures
        r == is_member(set@, *k),
{
    let mut j: usize = 0;
    while j < set.len()
        invariant
            j <= set.len(),
            forall|t: int| 0 <= t < j ==> #[trigger] set@[t]@ != k@,
        decreases set.len() - j,
    {
        if set[j].equals(k) {
            return true;
        }
        j = j + 1;
    }
    false
}

/// Proves knowledge of `(a, b)` with `Z = a·g + b·h`: draws the nonces r₁, then
/// r₂, and returns `(N₁, N₂, s₁, s₂)` with `N₁ = r₁·g`, `N₂ = r₂·h`,
/// `s₁ = r₁ - c·a`, `s₂ = r₂ - c·b` for the Fiat–Shamir challenge c.
pub fn schnorr_proof(pk: &Pk, a: Scalar, b: Scalar, random: &mut Vec<u128>) -> (r: Result<
    (G1, G1, Scalar, Scalar),
    KzgError,
>)
    ensures
        old(random)@.len() < 2 ==> r == Err::<(G1, G1, Scalar, Scalar), KzgError>(
            KzgError::InsufficientRandomness,
        ) && final(random)@ == old(random)@,
        old(random)@.len() >= 2 ==> r is Ok && {
            let (n1, n2, s1, s2) = r->Ok_0;
            let t = schnorr_transcript(
                *pk,
                a@,
                b@,
                draws(old(random)@, 2)[0],
                draws(old(random)@, 2)[1],
            );
            &&& n1 == t.0
            &&& n2 == t.1
            &&& s1@ == t.2
            &&& s2@ == t.3
            &&& final(random)@ == after_draws(old(random)@, 2)
            &&& (n1 == g1_mul_of(s1@, g1_gen())) == ((fs_challenge(
                two_base_commitment(*pk, a@, b@),
                n1,
                n2,
                pk.h1,
            ) * a@) % field_modulus() == 0)
            &&& (exists|l: int| pk.h1 == g1_multiple(l, g1_gen())) ==> schnorr_check(
                *pk,
                two_base_commitment(*pk, a@, b@),
                n1,
                n2,
                s1@,
                s2@,
            )
        },
{
    if random.len() < 2 {
        return Err(KzgError::InsufficientRandomness);
    }
    let ghost pool = random@;
    let r1 = Scalar::from_u128(random.pop().unwrap());
    let r2 = Scalar::from_u128(random.pop().unwrap());
    assert(random@ =~= after_draws(pool, 2));
    let g = FastCurve::g1();
    let n1 = FastCurve::g1mul(&r1, &g);
    let n2 = FastCurve::g1mul(&r2, &pk.h1);
    let z1 = FastCurve::g1mul(&a, &g);
    let z2 = FastCurve::g1mul(&b, &pk.h1);
    let z = FastCurve::g1add(&z1, &z2);
    let c = FastCurve::fiat_shamir_hash(z, n1, n2, pk.h1);
    let s1 = r1.sub(&c.mul(&a));
    let s2 = r2.sub(&c.mul(&b));
    proof {
        let m = field_modulus();
        lemma_sub_mod_noop(r1@, c@ * a@, m);
        lemma_sub_mod_noop(r2@, c@ * b@, m);
        r1.lemma_range();
        r2.lemma_range();
        lemma_small_mod(r1@ as nat, m as nat);
        lemma_small_mod(r2@ as nat, m as nat);
        lemma_zero_detector(*pk, a@, b@, r1@, r2@);
        if exists|l: int| pk.h1 == g1_multiple(l, g1_gen()) {
            let l = choose|l: int| pk.h1 == g1_multiple(l, g1_gen());
            a.lemma_range();
            b.lemma_range();
            lemma_schnorr_complete(*pk, a@, b@, r1@, r2@, l);
        }
    }
    Ok((n1, n2, s1, s2))
}

/// Checks a Schnorr transcript: `N₁ + N₂ == (s₁·g + s₂·h) + c·Z`.
pub fn schnorr_verify(pk: &Pk, z: G1, n1: G1, n2: G1, s1: Scalar, s2: Scalar) -> (r: bool)
    ensures
        r == schnorr_check(*pk, z, n1, n2, s1@, s2@),
{
    let c = FastCurve::fiat_shamir_hash(z, n1, n2, pk.h1);
    let left = FastCurve::g1add(&n1, &n2);
    let g = FastCurve::g1();
    let s1_g = FastCurve::g1mul(&s1, &g);
    let s2_h = FastCurve::g1mul(&s2, &pk.h1);
    let c_z = FastCurve::g1mul(&c, &z);
    let right = FastCurve::g1add(&FastCurve::g1add(&s1_g, &s2_h), &c_z);
    left.equals(&right)
}

/// Checks the opening of `commitment` at `kj` to `φ(kj) = phi_kj`, `φ̂(kj) = phi_hat_kj`.
fn verifyeval(
    pk: &Pk,
    commitment: G1,
    kj: Scalar,
    phi_kj: Scalar,
    phi_hat_kj: Scalar,
    witness: G1,
) -> (r: bool)
    ensures
        r == eval_check(*pk, commitment, kj@, phi_kj@, phi_hat_kj@, witness),
{
    let g = FastCurve::g1();
    let g2 = FastCurve::g2();
    let shift = FastCurve::g2sub(&pk.alpha_g2, &FastCurve::g2mul(&kj, &g2));
    let left = FastCurve::pairing(&witness, &shift);
    let ys = FastCurve::g1add(&FastCurve::g1mul(&phi_kj, &g), &FastCurve::g1mul(&phi_hat_kj, &pk.h1));
    let right = FastCurve::pairing(&FastCurve::g1sub(&commitment, &ys), &g2);
    left.equals(&right)
}

/// Answers the query `kj`: on the membership branch `(kj, W, Some(φ̂(kj)), None)`;
/// otherwise `(kj, W, None, Some((Z, N₁, N₂, s₁, s₂)))` with `Z = φ(kj)·g + φ̂(kj)·h`
/// and a Schnorr proof of knowledge of `(φ(kj), φ̂(kj))`.
pub fn queryzk(
    pk: &Pk,
    set: &Vec<Scalar>,
    phi: &Vec<Scalar>,
    phi_hat: &Vec<Scalar>,
    kj: Scalar,
    random: &mut Vec<u128>,
) -> (r: Result<QueryResult, KzgError>)
    ensures
        ({
            let bad_input = phi.len() == 0 || phi_hat.len() == 0 || phi.len() - 1
                > pk.g_powers.len() || phi_hat.len() - 1 > pk.h_powers.len();
            let member = is_member(set@, kj);
            let phi_k = poly_value(values(phi@), kj@) % field_modulus();
            let phi_hat_k = poly_value(values(phi_hat@), kj@) % field_modulus();
            &&& bad_input ==> r == Err::<QueryResult, KzgError>(KzgError::InvalidInput)
                && final(random)@ == old(random)@
            &&& !bad_input && !member && old(random)@.len() < 2 ==> r == Err::<
                QueryResult,
                KzgError,
            >(KzgError::InsufficientRandomness) && final(random)@ == old(random)@
            &&& !bad_input && (member || old(random)@.len() >= 2) ==> r is Ok && {
                let (k, w, opening, proof) = r->Ok_0;
                &&& k == kj
                &&& w == witness_for(*pk, values(phi@), values(phi_hat@), kj@)
                &&& member ==> opening is Some && opening->Some_0@ == phi_hat_k && proof is None
                    && final(random)@ == old(random)@
                &&& !member ==> opening is None && proof is Some && {
                    let (z, n1, n2, s1, s2) = proof->Some_0;
                    let t = schnorr_transcript(
                        *pk,
                        phi_k,
                        phi_hat_k,
                        draws(old(random)@, 2)[0],
                        draws(old(random)@, 2)[1],
                    );
                    &&& z == two_base_commitment(*pk, phi_k, phi_hat_k)
                    &&& n1 == t.0
                    &&& n2 == t.1
                    &&& s1@ == t.2
                    &&& s2@ == t.3
                    &&& final(random)@ == after_draws(old(random)@, 2)
                }
            }
            &&& forall|d: nat, alpha: u128, lambda: u128|
                #[trigger] setup_from(*pk, d, alpha, lambda) && values(phi@) == set_poly(
                    values(set@),
                ) && phi.len() <= pk.g_powers.len() && phi_hat.len() <= pk.h_powers.len()
                    && r is Ok ==> {
                    let (k, w, opening, proof) = r->Ok_0;
                    let c = hiding_commitment(*pk, values(phi@), values(phi_hat@));
                    &&& member ==> verdict(*pk, c, proof, k, w, opening)
                    &&& !member ==> (verdict(*pk, c, proof, k, w, opening) <==> proof->Some_0.1
                        != g1_mul_of(proof->Some_0.3@, g1_gen()))
                    &&& !member ==> (verdict(*pk, c, proof, k, w, opening) <==> (fs_challenge(
                        proof->Some_0.0,
                        proof->Some_0.1,
                        proof->Some_0.2,
                        pk.h1,
                    ) * phi_k) % field_modulus() != 0)
                }
        }),
{
    if phi.len() == 0 || phi_hat.len() == 0 || phi.len() - 1 > pk.g_powers.len() || phi_hat.len()
        - 1 > pk.h_powers.len() {
        return Err(KzgError::InvalidInput);
    }
    let member = contains(set, &kj);
    if !member && random.len() < 2 {
        return Err(KzgError::InsufficientRandomness);
    }
    // The generators carry the group laws that the completeness argument uses.
    let g = FastCurve::g1();
    let _ = FastCurve::g2();
    let ghost pool = random@;
    let (kj, phi_kj, phi_hat_kj, witness) = create_witness(phi, phi_hat, kj, pk);
    if member {
        proof {
            assert forall|d: nat, alpha: u128, lambda: u128|
                #[trigger] setup_from(*pk, d, alpha, lambda) && values(phi@) == set_poly(
                    values(set@),
                ) && phi.len() <= pk.g_powers.len() && phi_hat.len() <= pk.h_powers.len() implies eval_check(
                *pk,
                hiding_commitment(*pk, values(phi@), values(phi_hat@)),
                kj@,
                0,
                phi_hat_kj@,
                witness,
            ) by {
                lemma_member_answer(*pk, set@, phi@, phi_hat@, kj, d, alpha, lambda);
            }
        }
        return Ok((kj, witness, Some(phi_hat_kj), None));
    }
    let p1 = FastCurve::g1mul(&phi_kj, &g);
    let p2 = FastCurve::g1mul(&phi_hat_kj, &pk.h1);
    let proof = FastCurve::g1add(&p1, &p2);
    match schnorr_proof(pk, phi_kj, phi_hat_kj, random) {
        Ok((n1, n2, s1, s2)) => {
            proof {
                let r1 = pool[pool.len() - 1];
                let r2 = pool[pool.len() - 2];
                assert forall|d: nat, alpha: u128, lambda: u128|
                    #[trigger] setup_from(*pk, d, alpha, lambda) && phi.len() <= pk.g_powers.len()
                        && phi_hat.len() <= pk.h_powers.len() implies verdict(
                    *pk,
                    hiding_commitment(*pk, values(phi@), values(phi_hat@)),
                    Some((proof, n1, n2, s1, s2)),
                    kj,
                    witness,
                    None,
                ) == (n1 != g1_mul_of(s1@, g1_gen())) && (n1 == g1_mul_of(s1@, g1_gen())) == ((
                fs_challenge(proof, n1, n2, pk.h1) * phi_kj@) % field_modulus() == 0) by {
                    lemma_non_member_answer(
                        *pk,
                        phi@,
                        phi_hat@,
                        kj,
                        d,
                        alpha,
                        lambda,
                        r1,
                        r2,
                        n1,
                        n2,
                        s1,
                        s2,
                    );
                }
            }
            Ok((kj, witness, None, Some((proof, n1, n2, s1, s2))))
        },
        Err(e) => Err(e),
    }
}

/// Verifies a query answer against the commitment. With `phi_hat_kj = Some(v)` it
/// checks the opening of the commitment at `kj` to `φ(kj) = 0`, `φ̂(kj) = v`;
/// otherwise it needs the non-membership transcript, and accepts when
/// `N₁ ≠ s₁·g`, the Schnorr check holds, and `e(C - Z, g₂) == e(W, α·g₂ - kj·g₂)`.
pub fn verifyzk(
    pk: &Pk,
    commitment: G1,
    pi_sj: Option<NonMembershipProof>,
    kj: Scalar,
    witness: G1,
    phi_hat_kj: Option<Scalar>,
) -> (r: bool)
    ensures
        r == verdict(*pk, commitment, pi_sj, kj, witness, phi_hat_kj),
{
    if let Some(v) = phi_hat_kj {
        return verifyeval(pk, commitment, kj, Scalar::zero(), v, witness);
    }
    let (proof, n1, n2, s1, s2) = match pi_sj {
        Some(t) => t,
        None => return false,
    };
    let g = FastCurve::g1();
    if n1.equals(&FastCurve::g1mul(&s1, &g)) {
        return false;
    }
    if !schnorr_verify(pk, proof, n1, n2, s1, s2) {
        return false;
    }
    let g2 = FastCurve::g2();
    let left = FastCurve::pairing(&FastCurve::g1sub(&commitment, &proof), &g2);
    let shift = FastCurve::g2sub(&pk.alpha_g2, &FastCurve::g2mul(&kj, &g2));
    let right = FastCurve::pairing(&witness, &shift);
    left.equals(&right)
}

} // verus!
