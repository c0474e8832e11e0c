//! Proofs about the protocol: the set polynomial vanishes on the set, the
//! setup's bases are powers of the secret, commitments evaluate the committed
//! polynomial at the secret, and hence honest answers pass verification.
use crate::curve::{
    fs_challenge, g1_add_of, g1_gen, g1_laws, g1_mul_of, g1_multiple, g1_sub_of, g2_gen, g2_laws,
    g2_mul_of, g2_multiple, g2_sub_of, lemma_g1_multiple_congruent, lemma_g1_multiple_of,
    lemma_g2_multiple_of, pairing_laws, pairing_of, G1,
};
use crate::field::{field_modulus, Scalar};
use crate::poly::{
    commit_acc, commitment, congruent, lemma_congruent_add, lemma_congruent_mul,
    lemma_congruent_reduce, lemma_congruent_sub, lemma_linear_product_value, lemma_quotient_value,
    poly_value, product_coeff, quotient, quotient_coeff, values,
};
use crate::protocol::{
    eval_check, hiding_commitment, is_member, schnorr_check, schnorr_transcript, set_poly,
    setup_from, two_base_commitment, verdict, witness_for, Pk,
};
use vstd::arithmetic::div_mod::lemma_small_mod;
use vstd::arithmetic::power::pow;
use vstd::prelude::*;

verus! {

/// The set polynomial has one coefficient more than the set has elements, each
/// reduced modulo r.
pub(crate) proof fn lemma_set_poly_shape(s: Seq<int>)
    ensures
        set_poly(s).len() == s.len() + 1,
        forall|j: int| 0 <= j < set_poly(s).len() ==> 0 <= #[trigger] set_poly(s)[j] < field_modulus(),
    decreases s.len(),
{
    if s.len() > 0 {
        lemma_set_poly_shape(s.drop_last());
        let f = set_poly(s.drop_last());
        let g = seq![1, (0 - s.last()) % field_modulus()];
        assert forall|j: int| 0 <= j < set_poly(s).len() implies 0 <= #[trigger] set_poly(s)[j]
            < field_modulus() by {
            lemma_congruent_reduce(product_coeff(f, g, j));
        }
    }
}

/// The set polynomial vanishes (modulo r) on every element of the set.
pub proof fn lemma_set_poly_vanishes(s: Seq<int>, j: int)
    requires
        0 <= j < s.len(),
    ensures
        congruent(poly_value(set_poly(s), s[j]), 0),
    decreases s.len(),
{
    let x = s[j];
    let f = set_poly(s.drop_last());
    let c = (0 - s.last()) % field_modulus();
    lemma_set_poly_shape(s.drop_last());
    lemma_linear_product_value(f, c, x);
    let v = poly_value(f, x);
    assert(v * 0 == 0 && 0 * v == 0) by (nonlinear_arith);
    if j == s.len() - 1 {
        lemma_congruent_reduce(0 - x);
        lemma_congruent_add(x, x, c, 0 - x);
        lemma_congruent_mul(x + c, 0, v);
    } else {
        lemma_set_poly_vanishes(s.drop_last(), j);
        lemma_congruent_mul(v, 0, x + c);
    }
}

/// Quotient coefficients are reduced modulo r.
pub(crate) proof fn lemma_quotient_range(f: Seq<int>, x0: int)
    ensures
        forall|j: int| 0 <= j < quotient(f, x0).len() ==> 0 <= #[trigger] quotient(f, x0)[j] < field_modulus(),
{
    assert forall|j: int| 0 <= j < quotient(f, x0).len() implies 0 <= #[trigger] quotient(f, x0)[j]
        < field_modulus() by {
        if j == 0 {
            lemma_congruent_reduce(f[0]);
        } else {
            lemma_congruent_reduce(quotient_coeff(f, x0, j - 1) * x0 + f[j]);
        }
    }
}

/// The bases of the setup are the multiples `α^(d-j)·g` and `λ·α^(d-j)·g`.
pub(crate) proof fn lemma_setup_bases(pk: Pk, d: nat, alpha: u128, lambda: u128)
    requires
        g1_laws(g1_gen()),
        setup_from(pk, d, alpha, lambda),
    ensures
        pk.h1 == g1_multiple(lambda as int, g1_gen()),
        g1_gen() == g1_multiple(1, g1_gen()),
        forall|j: int|
            0 <= j < pk.g_powers@.len() ==> #[trigger] pk.g_powers@[j] == g1_multiple(
                1 * pow(alpha as int, (pk.g_powers@.len() - 1 - j) as nat),
                g1_gen(),
            ),
        forall|j: int|
            0 <= j < pk.h_powers@.len() ==> #[trigger] pk.h_powers@[j] == g1_multiple(
                lambda * pow(alpha as int, (pk.h_powers@.len() - 1 - j) as nat),
                g1_gen(),
            ),
{
    let m = field_modulus();
    let g = g1_gen();
    lemma_g1_multiple_of(lambda as int, g);
    assert forall|j: int| 0 <= j < pk.g_powers@.len() implies #[trigger] pk.g_powers@[j]
        == g1_multiple(1 * pow(alpha as int, (pk.g_powers@.len() - 1 - j) as nat), g) by {
        let e = pow(alpha as int, (d - j) as nat);
        lemma_congruent_reduce(e);
        lemma_g1_multiple_of(e % m, g);
        assert(1 * e == e);
        lemma_g1_multiple_congruent(e % m, 1 * e, g);
    }
    assert forall|j: int| 0 <= j < pk.h_powers@.len() implies #[trigger] pk.h_powers@[j]
        == g1_multiple(lambda * pow(alpha as int, (pk.h_powers@.len() - 1 - j) as nat), g) by {
        let e = pow(alpha as int, (d - j) as nat);
        lemma_congruent_reduce(e);
        lemma_congruent_mul(e % m, e, lambda as int);
        assert(g1_mul_of(e % m, g1_multiple(lambda as int, g)) == g1_multiple(lambda * (e % m), g));
        lemma_g1_multiple_congruent(lambda * (e % m), lambda * e, g);
    }
}

/// Under a basis of multiples `t·α^(|basis|-1-j)·g`, committing to `p` gives
/// `(t·p(α))·g`; here for the first `i` terms.
pub(crate) proof fn lemma_commitment_value(
    p: Seq<int>,
    basis: Seq<G1>,
    gen: G1,
    t: int,
    alpha: int,
    i: int,
)
    requires
        g1_laws(g1_gen()),
        0 <= i <= p.len() <= basis.len(),
        gen == g1_multiple(t, g1_gen()),
        forall|j: int|
            0 <= j < basis.len() ==> #[trigger] basis[j] == g1_multiple(
                t * pow(alpha, (basis.len() - 1 - j) as nat),
                g1_gen(),
            ),
        forall|j: int| 0 <= j < p.len() ==> 0 <= #[trigger] p[j] < field_modulus(),
    ensures
        commit_acc(p, basis, gen, i) == g1_multiple(
            t * poly_value(p.take(i), alpha) * pow(alpha, (p.len() - i) as nat),
            g1_gen(),
        ),
    decreases i,
{
    let g = g1_gen();
    if i == 0 {
        assert(poly_value(p.take(0), alpha) == 0);
        let e = pow(alpha, p.len());
        assert(t * 0 == 0 && t * 0 * e == 0) by (nonlinear_arith);
        assert(g1_mul_of(0, g1_multiple(t, g)) == g1_multiple(t * 0, g));
        lemma_g1_multiple_congruent(t * 0, t * 0 * e, g);
    } else {
        lemma_commitment_value(p, basis, gen, t, alpha, i - 1);
        let n = p.len() as int;
        let idx = basis.len() - n + i - 1;
        let e = pow(alpha, (n - i) as nat);
        assert(basis[idx] == g1_multiple(t * e, g));
        let coeff = p[i - 1];
        assert(g1_mul_of(coeff, g1_multiple(t * e, g)) == g1_multiple(t * e * coeff, g));
        assert(p.take(i).drop_last() =~= p.take(i - 1));
        let prev = poly_value(p.take(i - 1), alpha);
        assert(pow(alpha, (n - i + 1) as nat) == alpha * e) by {
            reveal(pow);
        }
        let acc = commit_acc(p, basis, gen, i - 1);
        assert(acc == g1_multiple(t * prev * (alpha * e), g));
        assert(g1_add_of(g1_multiple(t * prev * (alpha * e), g), g1_multiple(t * e * coeff, g))
            == g1_multiple(t * prev * (alpha * e) + t * e * coeff, g));
        assert(t * prev * (alpha * e) + t * e * coeff == t * (prev * alpha + coeff) * e)
            by (nonlinear_arith);
        lemma_g1_multiple_congruent(t * prev * (alpha * e) + t * e * coeff, t * poly_value(p.take(i), alpha) * e, g);
    }
}

/// A full commitment under the setup's g-basis or h-basis.
pub(crate) proof fn lemma_commitment_full(p: Seq<int>, basis: Seq<G1>, gen: G1, t: int, alpha: int)
    requires
        g1_laws(g1_gen()),
        p.len() <= basis.len(),
        gen == g1_multiple(t, g1_gen()),
        forall|j: int|
            0 <= j < basis.len() ==> #[trigger] basis[j] == g1_multiple(
                t * pow(alpha, (basis.len() - 1 - j) as nat),
                g1_gen(),
            ),
        forall|j: int| 0 <= j < p.len() ==> 0 <= #[trigger] p[j] < field_modulus(),
    ensures
        commitment(p, basis, gen) == g1_multiple(t * poly_value(p, alpha), g1_gen()),
{
    lemma_commitment_value(p, basis, gen, t, alpha, p.len() as int);
    assert(p.take(p.len() as int) =~= p);
    assert(pow(alpha, 0) == 1) by {
        reveal(pow);
    }
    let v = poly_value(p, alpha);
    assert(t * v * 1 == t * v) by (nonlinear_arith);
    lemma_g1_multiple_congruent(t * v * 1, t * v, g1_gen());
}

/// The hiding commitment to `(u, v)` under the setup is `(u(α) + λ·v(α))·g`.
pub(crate) proof fn lemma_hiding_commitment(
    pk: Pk,
    d: nat,
    alpha: u128,
    lambda: u128,
    u: Seq<int>,
    v: Seq<int>,
)
    requires
        g1_laws(g1_gen()),
        setup_from(pk, d, alpha, lambda),
        u.len() <= pk.g_powers@.len(),
        v.len() <= pk.h_powers@.len(),
        forall|j: int| 0 <= j < u.len() ==> 0 <= #[trigger] u[j] < field_modulus(),
        forall|j: int| 0 <= j < v.len() ==> 0 <= #[trigger] v[j] < field_modulus(),
    ensures
        hiding_commitment(pk, u, v) == g1_multiple(
            poly_value(u, alpha as int) + lambda * poly_value(v, alpha as int),
            g1_gen(),
        ),
{
    lemma_setup_bases(pk, d, alpha, lambda);
    lemma_commitment_full(u, pk.g_powers@, g1_gen(), 1, alpha as int);
    lemma_commitment_full(v, pk.h_powers@, pk.h1, lambda as int, alpha as int);
    let a = poly_value(u, alpha as int);
    assert(1 * a == a);
    lemma_g1_multiple_congruent(1 * a, a, g1_gen());
}

/// `a·g + b·h` under the setup is `(a + λ·b)·g`.
pub(crate) proof fn lemma_two_base(pk: Pk, d: nat, alpha: u128, lambda: u128, a: int, b: int)
    requires
        g1_laws(g1_gen()),
        setup_from(pk, d, alpha, lambda),
        0 <= a < field_modulus(),
        0 <= b < field_modulus(),
    ensures
        two_base_commitment(pk, a, b) == g1_multiple(a + lambda * b, g1_gen()),
{
    let g = g1_gen();
    lemma_setup_bases(pk, d, alpha, lambda);
    assert(g1_mul_of(a, g1_multiple(1, g)) == g1_multiple(1 * a, g));
    assert(g1_mul_of(b, g1_multiple(lambda as int, g)) == g1_multiple(lambda * b, g));
    assert(1 * a == a);
    lemma_g1_multiple_congruent(1 * a, a, g);
}

/// The pairing identity behind both verification equations: for `a ≡ u(k)` and
/// `b ≡ v(k)`, `e(W, α·g₂ - k·g₂) = e(C - (a·g + b·h), g₂)` where `C` commits to
/// `(u, v)` and `W` to their quotients by `(x - k)`.
pub(crate) proof fn lemma_opening_pairing(
    pk: Pk,
    d: nat,
    alpha: u128,
    lambda: u128,
    u: Seq<int>,
    v: Seq<int>,
    k: int,
    a: int,
    b: int,
)
    requires
        g1_laws(g1_gen()),
        g2_laws(g2_gen()),
        pairing_laws(g1_gen(), g2_gen()),
        setup_from(pk, d, alpha, lambda),
        1 <= u.len() <= pk.g_powers@.len(),
        1 <= v.len() <= pk.h_powers@.len(),
        forall|j: int| 0 <= j < u.len() ==> 0 <= #[trigger] u[j] < field_modulus(),
        forall|j: int| 0 <= j < v.len() ==> 0 <= #[trigger] v[j] < field_modulus(),
        0 <= k < field_modulus(),
        0 <= a < field_modulus(),
        0 <= b < field_modulus(),
        congruent(a, poly_value(u, k)),
        congruent(b, poly_value(v, k)),
    ensures
        pairing_of(witness_for(pk, u, v, k), g2_sub_of(pk.alpha_g2, g2_mul_of(k, g2_gen())))
            == pairing_of(
            g1_sub_of(hiding_commitment(pk, u, v), two_base_commitment(pk, a, b)),
            g2_gen(),
        ),
{
    let m = field_modulus();
    let g = g1_gen();
    let g2 = g2_gen();
    let al = alpha as int;
    let la = lambda as int;
    let psi = quotient(u, k);
    let psi_hat = quotient(v, k);
    lemma_quotient_range(u, k);
    lemma_quotient_range(v, k);
    lemma_hiding_commitment(pk, d, alpha, lambda, u, v);
    lemma_hiding_commitment(pk, d, alpha, lambda, psi, psi_hat);
    lemma_two_base(pk, d, alpha, lambda, a, b);
    let x = poly_value(psi, al) + la * poly_value(psi_hat, al);
    let y = (poly_value(u, al) + la * poly_value(v, al)) - (a + la * b);
    assert(g1_sub_of(g1_multiple(poly_value(u, al) + la * poly_value(v, al), g), g1_multiple(
        a + la * b,
        g,
    )) == g1_multiple(y, g));
    lemma_g2_multiple_of(al, g2);
    lemma_g2_multiple_of(k, g2);
    assert(pk.alpha_g2 == g2_multiple(al, g2));
    assert(g2_mul_of(k, g2) == g2_multiple(k, g2));
    assert(g2_sub_of(g2_multiple(al, g2), g2_multiple(k, g2)) == g2_multiple(al - k, g2));
    assert(pairing_of(g1_multiple(x, g), g2_multiple(al - k, g2)) == pairing_of(
        g1_multiple(x * (al - k), g),
        g2,
    ));
    assert(g2 == g2_multiple(1, g2));
    assert(pairing_of(g1_multiple(y, g), g2_multiple(1, g2)) == pairing_of(g1_multiple(y * 1, g), g2));
    assert(y * 1 == y);
    lemma_g1_multiple_congruent(y * 1, y, g);
    // x·(α - k) ≡ y
    lemma_quotient_value(u, k, al);
    lemma_quotient_value(v, k, al);
    let p1 = poly_value(psi, al) * (al - k);
    let p2 = poly_value(psi_hat, al) * (al - k);
    lemma_congruent_mul(p2, poly_value(v, al) - poly_value(v, k), la);
    lemma_congruent_add(p1, poly_value(u, al) - poly_value(u, k), la * p2, la * (poly_value(
        v,
        al,
    ) - poly_value(v, k)));
    lemma_congruent_mul(b, poly_value(v, k), la);
    lemma_congruent_add(a, poly_value(u, k), la * b, la * poly_value(v, k));
    lemma_congruent_sub(
        poly_value(u, al) + la * poly_value(v, al),
        poly_value(u, al) + la * poly_value(v, al),
        a + la * b,
        poly_value(u, k) + la * poly_value(v, k),
    );
    assert(x * (al - k) == p1 + la * p2) by (nonlinear_arith)
        requires
            x == poly_value(psi, al) + la * poly_value(psi_hat, al),
            p1 == poly_value(psi, al) * (al - k),
            p2 == poly_value(psi_hat, al) * (al - k),
    ;
    assert(poly_value(u, al) - poly_value(u, k) + la * (poly_value(v, al) - poly_value(v, k))
        == poly_value(u, al) + la * poly_value(v, al) - (poly_value(u, k) + la * poly_value(v, k)))
        by (nonlinear_arith);
    lemma_g1_multiple_congruent(x * (al - k), y, g);
}

/// An honest Schnorr transcript passes the Schnorr check whenever the hiding base
/// is a multiple of g.
pub(crate) proof fn lemma_schnorr_complete(pk: Pk, a: int, b: int, r1: int, r2: int, l: int)
    requires
        g1_laws(g1_gen()),
        pk.h1 == g1_multiple(l, g1_gen()),
        0 <= a < field_modulus(),
        0 <= b < field_modulus(),
        0 <= r1 < field_modulus(),
        0 <= r2 < field_modulus(),
    ensures
        ({
            let t = schnorr_transcript(pk, a, b, r1, r2);
            schnorr_check(pk, two_base_commitment(pk, a, b), t.0, t.1, t.2, t.3)
        }),
{
    let m = field_modulus();
    let g = g1_gen();
    let t = schnorr_transcript(pk, a, b, r1, r2);
    let z = two_base_commitment(pk, a, b);
    let c = fs_challenge(z, t.0, t.1, pk.h1);
    let s1 = t.2;
    let s2 = t.3;
    lemma_congruent_reduce(r1 - c * a);
    lemma_congruent_reduce(r2 - c * b);
    lemma_g1_multiple_of(a, g);
    lemma_g1_multiple_of(r1, g);
    lemma_g1_multiple_of(s1, g);
    assert(g1_mul_of(b, g1_multiple(l, g)) == g1_multiple(l * b, g));
    assert(g1_mul_of(r2, g1_multiple(l, g)) == g1_multiple(l * r2, g));
    assert(g1_mul_of(s2, g1_multiple(l, g)) == g1_multiple(l * s2, g));
    assert(z == g1_multiple(a + l * b, g));
    assert(g1_mul_of(c, g1_multiple(a + l * b, g)) == g1_multiple((a + l * b) * c, g));
    assert(g1_add_of(t.0, t.1) == g1_multiple(r1 + l * r2, g));
    let lhs = s1 + l * s2 + (a + l * b) * c;
    assert(g1_add_of(g1_add_of(g1_mul_of(s1, g), g1_mul_of(s2, pk.h1)), g1_mul_of(c, z))
        == g1_multiple(lhs, g));
    lemma_congruent_mul(s2, r2 - c * b, l);
    lemma_congruent_add(s1, r1 - c * a, l * s2, l * (r2 - c * b));
    lemma_congruent_add(s1 + l * s2, r1 - c * a + l * (r2 - c * b), (a + l * b) * c, (a + l * b) * c);
    assert(r1 - c * a + l * (r2 - c * b) + (a + l * b) * c == r1 + l * r2) by (nonlinear_arith);
    lemma_g1_multiple_congruent(lhs, r1 + l * r2, g);
}

/// A non-membership transcript built honestly for an element of the set trips the
/// zero detector: `N₁ = s₁·g`, because `s₁ = r₁ - c·φ(k) = r₁`. The verifier
/// therefore rejects it, whatever the other components are.
pub proof fn lemma_false_non_membership_detected(
    pk: Pk,
    set: Seq<Scalar>,
    phi_hat: Seq<int>,
    k: Scalar,
    r1: u128,
    r2: u128,
    c: G1,
    w: G1,
    z: G1,
    s1: Scalar,
    s2: Scalar,
)
    requires
        is_member(set, k),
        s1@ == schnorr_transcript(
            pk,
            poly_value(set_poly(values(set)), k@) % field_modulus(),
            poly_value(phi_hat, k@) % field_modulus(),
            r1 as int,
            r2 as int,
        ).2,
    ensures
        ({
            let t = schnorr_transcript(
                pk,
                poly_value(set_poly(values(set)), k@) % field_modulus(),
                poly_value(phi_hat, k@) % field_modulus(),
                r1 as int,
                r2 as int,
            );
            &&& t.0 == g1_mul_of(s1@, g1_gen())
            &&& !verdict(pk, c, Some((z, t.0, t.1, s1, s2)), k, w, None)
        }),
{
    let m = field_modulus();
    let sv = values(set);
    let j = choose|j: int| 0 <= j < set.len() && #[trigger] set[j]@ == k@;
    assert(sv[j] == k@);
    lemma_set_poly_vanishes(sv, j);
    lemma_small_mod(0, m as nat);
    let phi_k = poly_value(set_poly(sv), k@) % m;
    assert(phi_k == 0);
    let t = schnorr_transcript(pk, phi_k, poly_value(phi_hat, k@) % m, r1 as int, r2 as int);
    let ch = fs_challenge(two_base_commitment(pk, phi_k, poly_value(phi_hat, k@) % m), t.0, t.1, pk.h1);
    assert(ch * phi_k == 0) by (nonlinear_arith)
        requires
            phi_k == 0,
    ;
    lemma_small_mod(r1 as nat, m as nat);
    assert(s1@ == r1);
}

/// On an honest Schnorr transcript the zero detector `N₁ = s₁·g` fires exactly
/// when `c·a ≡ 0`, for the Fiat–Shamir challenge `c`.
pub(crate) proof fn lemma_zero_detector(pk: Pk, a: int, b: int, r1: int, r2: int)
    requires
        g1_laws(g1_gen()),
        0 <= r1 < field_modulus(),
    ensures
        ({
            let t = schnorr_transcript(pk, a, b, r1, r2);
            (t.0 == g1_mul_of(t.2, g1_gen())) == ((fs_challenge(
                two_base_commitment(pk, a, b),
                t.0,
                t.1,
                pk.h1,
            ) * a) % field_modulus() == 0)
        }),
{
    let m = field_modulus();
    let g = g1_gen();
    let t = schnorr_transcript(pk, a, b, r1, r2);
    let ch = fs_challenge(two_base_commitment(pk, a, b), t.0, t.1, pk.h1);
    lemma_g1_multiple_of(r1, g);
    lemma_congruent_reduce(r1 - ch * a);
    lemma_g1_multiple_of(t.2, g);
    lemma_small_mod(0, m as nat);
    if t.0 == g1_mul_of(t.2, g) {
        lemma_congruent_sub(r1, r1, r1 - ch * a, r1);
        assert(r1 - (r1 - ch * a) == ch * a);
    }
    if (ch * a) % m == 0 {
        lemma_congruent_sub(r1, r1, ch * a, 0);
        lemma_g1_multiple_congruent(t.2, r1, g);
    }
}

/// The coefficient values of a sequence of scalars are reduced.
pub(crate) proof fn lemma_values_range(p: Seq<Scalar>)
    ensures
        forall|j: int| 0 <= j < p.len() ==> 0 <= #[trigger] values(p)[j] < field_modulus(),
{
    assert forall|j: int| 0 <= j < p.len() implies 0 <= #[trigger] values(p)[j] < field_modulus() by {
        p[j].lemma_range();
    }
}

/// The honest membership answer passes the evaluation check.
pub(crate) proof fn lemma_member_answer(
    pk: Pk,
    set: Seq<Scalar>,
    phi: Seq<Scalar>,
    phi_hat: Seq<Scalar>,
    k: Scalar,
    d: nat,
    alpha: u128,
    lambda: u128,
)
    requires
        g1_laws(g1_gen()),
        g2_laws(g2_gen()),
        pairing_laws(g1_gen(), g2_gen()),
        setup_from(pk, d, alpha, lambda),
        values(phi) == set_poly(values(set)),
        1 <= phi.len() <= pk.g_powers@.len(),
        1 <= phi_hat.len() <= pk.h_powers@.len(),
        is_member(set, k),
    ensures
        eval_check(
            pk,
            hiding_commitment(pk, values(phi), values(phi_hat)),
            k@,
            0,
            poly_value(values(phi_hat), k@) % field_modulus(),
            witness_for(pk, values(phi), values(phi_hat), k@),
        ),
{
    let sv = values(set);
    let j = choose|j: int| 0 <= j < set.len() && #[trigger] set[j]@ == k@;
    assert(sv[j] == k@);
    lemma_set_poly_vanishes(sv, j);
    lemma_small_mod(0, field_modulus() as nat);
    lemma_values_range(phi);
    lemma_values_range(phi_hat);
    k.lemma_range();
    lemma_congruent_reduce(poly_value(values(phi_hat), k@));
    lemma_opening_pairing(
        pk,
        d,
        alpha,
        lambda,
        values(phi),
        values(phi_hat),
        k@,
        0,
        poly_value(values(phi_hat), k@) % field_modulus(),
    );
}

/// On the honest non-membership answer, the verifier's decision comes down to
/// the zero detector: the Schnorr check and the pairing check both hold.
pub(crate) proof fn lemma_non_member_answer(
    pk: Pk,
    phi: Seq<Scalar>,
    phi_hat: Seq<Scalar>,
    k: Scalar,
    d: nat,
    alpha: u128,
    lambda: u128,
    r1: u128,
    r2: u128,
    n1: G1,
    n2: G1,
    s1: Scalar,
    s2: Scalar,
)
    requires
        g1_laws(g1_gen()),
        g2_laws(g2_gen()),
        pairing_laws(g1_gen(), g2_gen()),
        setup_from(pk, d, alpha, lambda),
        1 <= phi.len() <= pk.g_powers@.len(),
        1 <= phi_hat.len() <= pk.h_powers@.len(),
        ({
            let t = schnorr_transcript(
                pk,
                poly_value(values(phi), k@) % field_modulus(),
                poly_value(values(phi_hat), k@) % field_modulus(),
                r1 as int,
                r2 as int,
            );
            &&& n1 == t.0
            &&& n2 == t.1
            &&& s1@ == t.2
            &&& s2@ == t.3
        }),
    ensures
        ({
            let a = poly_value(values(phi), k@) % field_modulus();
            let b = poly_value(values(phi_hat), k@) % field_modulus();
            let c = hiding_commitment(pk, values(phi), values(phi_hat));
            let w = witness_for(pk, values(phi), values(phi_hat), k@);
            let z = two_base_commitment(pk, a, b);
            &&& verdict(pk, c, Some((z, n1, n2, s1, s2)), k, w, None) == (n1 != g1_mul_of(
                s1@,
                g1_gen(),
            ))
            &&& (n1 == g1_mul_of(s1@, g1_gen())) == ((fs_challenge(z, n1, n2, pk.h1) * a)
                % field_modulus() == 0)
        }),
{
    let m = field_modulus();
    let a = poly_value(values(phi), k@) % m;
    let b = poly_value(values(phi_hat), k@) % m;
    lemma_values_range(phi);
    lemma_values_range(phi_hat);
    k.lemma_range();
    lemma_congruent_reduce(poly_value(values(phi), k@));
    lemma_congruent_reduce(poly_value(values(phi_hat), k@));
    lemma_small_mod(r1 as nat, m as nat);
    lemma_small_mod(r2 as nat, m as nat);
    lemma_setup_bases(pk, d, alpha, lambda);
    lemma_schnorr_complete(pk, a, b, r1 as int, r2 as int, lambda as int);
    lemma_opening_pairing(pk, d, alpha, lambda, values(phi), values(phi_hat), k@, a, b);
    lemma_zero_detector(pk, a, b, r1 as int, r2 as int);
}

/// The setup's parameters are determined by the degree and the two draws.
pub proof fn lemma_setup_determined(pk1: Pk, pk2: Pk, degree: nat, alpha: u128, lambda: u128)
    requires
        setup_from(pk1, degree, alpha, lambda),
        setup_from(pk2, degree, alpha, lambda),
    ensures
        pk1.g_powers@ == pk2.g_powers@,
        pk1.h_powers@ == pk2.h_powers@,
        pk1.h1 == pk2.h1,
        pk1.alpha_g2 == pk2.alpha_g2,
{
    assert(pk1.g_powers@ =~= pk2.g_powers@);
    assert(pk1.h_powers@ =~= pk2.h_powers@);
}

} // verus!
