use kzg::{
    apply, commit_poly, commitzk, queryzk, schnorr_proof, schnorr_verify, setup, verifyzk,
    FastCurve, KzgError, Scalar,
};

// Deterministic stand-in for a source of uniform words (nonzero, as the protocol
// expects fresh nonzero draws).
fn pool(seed: u128, n: usize) -> Vec<u128> {
    let mut state = seed.wrapping_mul(0x9e3779b97f4a7c15f39cc0605cedc835) | 1;
    let mut out = Vec::with_capacity(n);
    for _ in 0..n {
        state = state
            .wrapping_mul(0x2360ed051fc65da44385df649fccf645)
            .wrapping_add(0x5851f42d4c957f2d14057b7ef767814f);
        let w = state ^ (state >> 67);
        out.push(if w == 0 { 1 } else { w });
    }
    out
}

fn scalars(xs: &[u128]) -> Vec<Scalar> {
    xs.iter().map(|x| FastCurve::scalar_from_literal(x)).collect()
}

fn run_query(degree: u128, set: &[u128], k: u128, seed: u128) -> bool {
    let mut random = pool(seed, set.len() + 8);
    let pk = setup(degree, &mut random).unwrap();
    let set = scalars(set);
    let (c, phi, phi_hat) = commitzk(&pk, &set, &mut random).unwrap();
    let k = FastCurve::scalar_from_literal(&k);
    let (kj, w, opening, proof) = queryzk(&pk, &set, &phi, &phi_hat, k, &mut random).unwrap();
    verifyzk(&pk, c, proof, kj, w, opening)
}

#[test]
fn non_member_is_accepted() {
    assert!(run_query(4, &[1, 2, 3], 4, 1));
}

#[test]
fn member_is_accepted_on_membership_branch() {
    let mut random = pool(2, 16);
    let pk = setup(4, &mut random).unwrap();
    let set = scalars(&[7, 11, 13]);
    let (c, phi, phi_hat) = commitzk(&pk, &set, &mut random).unwrap();
    let k = FastCurve::scalar_from_literal(&11);
    let (kj, w, opening, proof) = queryzk(&pk, &set, &phi, &phi_hat, k, &mut random).unwrap();
    assert!(opening.is_some());
    assert!(proof.is_none());
    assert!(verifyzk(&pk, c, proof, kj, w, opening));
}

#[test]
fn false_non_membership_claim_is_rejected() {
    let mut random = pool(3, 16);
    let pk = setup(4, &mut random).unwrap();
    let set = scalars(&[7, 11, 13]);
    let (c, phi, phi_hat) = commitzk(&pk, &set, &mut random).unwrap();
    let k = FastCurve::scalar_from_literal(&11);
    let (kj, w, _, _) = queryzk(&pk, &set, &phi, &phi_hat, k, &mut random).unwrap();
    let phi_k = apply(&phi, &kj);
    let phi_hat_k = apply(&phi_hat, &kj);
    assert!(phi_k.equals(&Scalar::zero()));
    let g = FastCurve::g1();
    let z = FastCurve::g1add(&FastCurve::g1mul(&phi_k, &g), &FastCurve::g1mul(&phi_hat_k, &pk.h1));
    let (n1, n2, s1, s2) = schnorr_proof(&pk, phi_k, phi_hat_k, &mut random).unwrap();
    assert!(n1.equals(&FastCurve::g1mul(&s1, &g)));
    assert!(!verifyzk(&pk, c, Some((z, n1, n2, s1, s2)), kj, w, None));
}

#[test]
fn forged_witness_is_rejected() {
    let degree: usize = 10;
    let elements = pool(40, degree);
    let mut random = pool(41, degree + 8);
    let pk = setup(degree as u128, &mut random).unwrap();
    let set = scalars(&elements);
    let (c, phi, phi_hat) = commitzk(&pk, &set, &mut random).unwrap();
    let k = FastCurve::scalar_from_literal(&pool(42, 1)[0]);
    let (kj, _, opening, proof) = queryzk(&pk, &set, &phi, &phi_hat, k, &mut random).unwrap();
    assert!(proof.is_some());
    let forged_poly = scalars(&pool(43, degree));
    let forged = commit_poly(&forged_poly, &pk.g_powers, FastCurve::g1());
    assert!(!verifyzk(&pk, c, proof, kj, forged, opening));
}

#[test]
fn forged_witness_from_evaluation_is_rejected() {
    for (is_in_set, seed) in [(true, 50u128), (false, 51), (true, 52), (false, 53)] {
        let degree: usize = 5;
        let elements = pool(seed, degree + 1);
        let set = scalars(&elements[..degree]);
        let k = if is_in_set { set[degree - 1] } else { FastCurve::scalar_from_literal(&elements[degree]) };
        let mut random = pool(seed + 100, degree + 8);
        let pk = setup(degree as u128, &mut random).unwrap();
        let (c, phi, phi_hat) = commitzk(&pk, &set, &mut random).unwrap();
        let (kj, _, opening, proof) = queryzk(&pk, &set, &phi, &phi_hat, k, &mut random).unwrap();
        let forged_poly = scalars(&pool(seed + 200, degree));
        let witness = FastCurve::g1mul(&apply(&forged_poly, &kj), &FastCurve::g1());
        assert!(!verifyzk(&pk, c, proof, kj, witness, opening));
    }
}

#[test]
fn honest_queries_verify_for_several_degrees() {
    for degree in 1..6usize {
        for is_in_set in [true, false] {
            let elements = pool(degree as u128 + 60, degree + 1);
            let set = scalars(&elements[..degree]);
            let k = if is_in_set { set[0] } else { FastCurve::scalar_from_literal(&elements[degree]) };
            let mut random = pool(degree as u128 + 70, degree + 8);
            let pk = setup(degree as u128, &mut random).unwrap();
            let (c, phi, phi_hat) = commitzk(&pk, &set, &mut random).unwrap();
            let (kj, w, opening, proof) = queryzk(&pk, &set, &phi, &phi_hat, k, &mut random).unwrap();
            assert_eq!(opening.is_some(), is_in_set);
            assert!(verifyzk(&pk, c, proof, kj, w, opening));
        }
    }
}

#[test]
fn schnorr_round_trip_with_nonzero_witness() {
    let mut random = pool(5, 8);
    let pk = setup(1, &mut random).unwrap();
    let a = FastCurve::scalar_from_literal(&200);
    let b = FastCurve::scalar_from_literal(&200);
    let g = FastCurve::g1();
    let z = FastCurve::g1add(&FastCurve::g1mul(&a, &g), &FastCurve::g1mul(&b, &pk.h1));
    let (n1, n2, s1, s2) = schnorr_proof(&pk, a, b, &mut random).unwrap();
    assert!(schnorr_verify(&pk, z, n1, n2, s1, s2));
    assert!(!n1.equals(&FastCurve::g1mul(&s1, &g)));
}

#[test]
fn schnorr_with_zero_witness_trips_the_zero_detector() {
    let mut random = pool(6, 8);
    let pk = setup(1, &mut random).unwrap();
    let a = FastCurve::scalar_from_literal(&0);
    let b = FastCurve::scalar_from_literal(&123456789);
    let g = FastCurve::g1();
    let z = FastCurve::g1add(&FastCurve::g1mul(&a, &g), &FastCurve::g1mul(&b, &pk.h1));
    let (n1, n2, s1, s2) = schnorr_proof(&pk, a, b, &mut random).unwrap();
    assert!(schnorr_verify(&pk, z, n1, n2, s1, s2));
    assert!(n1.equals(&FastCurve::g1mul(&s1, &g)));
    let w = FastCurve::g1();
    assert!(!verifyzk(&pk, z, Some((z, n1, n2, s1, s2)), FastCurve::scalar_from_literal(&5), w, None));
}

#[test]
fn schnorr_with_guessed_witness_fails() {
    for (a, b, seed) in [(3u128, 4u128, 7u128), (99, 0, 8), (1, 1, 9)] {
        let mut random = pool(seed, 20);
        let pk = setup(1, &mut random).unwrap();
        let a = FastCurve::scalar_from_literal(&a);
        let b = FastCurve::scalar_from_literal(&b);
        let g = FastCurve::g1();
        let z = FastCurve::g1add(&FastCurve::g1mul(&a, &g), &FastCurve::g1mul(&b, &pk.h1));
        let guess = FastCurve::scalar_from_literal(&random.pop().unwrap());
        let (n1, n2, s1, s2) = schnorr_proof(&pk, guess, b, &mut random).unwrap();
        assert!(!schnorr_verify(&pk, z, n1, n2, s1, s2));
    }
}

#[test]
fn setup_lengths_match_degree() {
    for degree in [0u128, 1, 4, 10] {
        let mut random = pool(degree + 11, 2);
        let pk = setup(degree, &mut random).unwrap();
        assert_eq!(pk.g_powers.len() as u128, degree + 1);
        assert_eq!(pk.h_powers.len() as u128, degree + 1);
        assert!(random.is_empty());
        assert!(pk.g_powers[degree as usize].equals(&FastCurve::g1()));
        assert!(pk.h_powers[degree as usize].equals(&pk.h1));
    }
}

#[test]
fn setup_uses_the_last_two_words() {
    let mut random = vec![9, 5, 3];
    let pk = setup(2, &mut random).unwrap();
    assert_eq!(random, vec![9]);
    let g = FastCurve::g1();
    let alpha = FastCurve::scalar_from_literal(&3);
    assert!(pk.h1.equals(&FastCurve::g1mul(&FastCurve::scalar_from_literal(&5), &g)));
    assert!(pk.g_powers[1].equals(&FastCurve::g1mul(&alpha, &g)));
    assert!(pk.g_powers[0].equals(&FastCurve::g1mul(&FastCurve::scalar_from_literal(&9), &g)));
    let alpha_g2 = FastCurve::g2mul(&alpha, &FastCurve::g2());
    assert!(pk.alpha_g2.to_bytes() == alpha_g2.to_bytes());
}

#[test]
fn setup_without_enough_randomness_fails() {
    let mut random = vec![42];
    assert_eq!(setup(3, &mut random).err(), Some(KzgError::InsufficientRandomness));
    assert_eq!(random, vec![42]);
    let mut empty: Vec<u128> = Vec::new();
    assert_eq!(setup(0, &mut empty).err(), Some(KzgError::InsufficientRandomness));
}

#[test]
fn commit_rejects_a_set_larger_than_the_degree() {
    let mut random = pool(12, 10);
    let pk = setup(2, &mut random).unwrap();
    let set = scalars(&[1, 2, 3]);
    let before = random.clone();
    assert_eq!(commitzk(&pk, &set, &mut random).err(), Some(KzgError::InvalidInput));
    assert_eq!(random, before);
}

#[test]
fn commit_without_enough_randomness_fails() {
    let mut random = pool(13, 2);
    let pk = setup(4, &mut random).unwrap();
    let set = scalars(&[1, 2, 3]);
    let mut short = vec![1, 2, 3];
    assert_eq!(commitzk(&pk, &set, &mut short).err(), Some(KzgError::InsufficientRandomness));
    assert_eq!(short, vec![1, 2, 3]);
}

#[test]
fn commit_draws_hiding_coefficients_from_the_end() {
    let mut random = pool(14, 2);
    let pk = setup(3, &mut random).unwrap();
    let set = scalars(&[2, 5]);
    let mut words = vec![100, 10, 20, 30];
    let (c, phi, phi_hat) = commitzk(&pk, &set, &mut words).unwrap();
    assert_eq!(words, vec![100]);
    let expected_hat = scalars(&[30, 20, 10]);
    for i in 0..3 {
        assert!(phi_hat[i].equals(&expected_hat[i]));
    }
    // (x - 2)(x - 5) = x^2 - 7x + 10
    let seven = FastCurve::scalar_from_literal(&7);
    let expected_phi = vec![Scalar::one(), Scalar::zero().sub(&seven), FastCurve::scalar_from_literal(&10)];
    for i in 0..3 {
        assert!(phi[i].equals(&expected_phi[i]));
    }
    let g = FastCurve::g1();
    let expected = FastCurve::g1add(
        &commit_poly(&phi, &pk.g_powers, g),
        &commit_poly(&phi_hat, &pk.h_powers, pk.h1),
    );
    assert!(c.equals(&expected));
}

#[test]
fn query_rejects_malformed_polynomials() {
    let mut random = pool(15, 10);
    let pk = setup(2, &mut random).unwrap();
    let set = scalars(&[1]);
    let k = FastCurve::scalar_from_literal(&4);
    let empty: Vec<Scalar> = Vec::new();
    let ok = scalars(&[1, 2]);
    assert_eq!(queryzk(&pk, &set, &empty, &ok, k, &mut random).err(), Some(KzgError::InvalidInput));
    let long = scalars(&[1, 2, 3, 4, 5]);
    assert_eq!(queryzk(&pk, &set, &long, &ok, k, &mut random).err(), Some(KzgError::InvalidInput));
}

#[test]
fn non_member_query_without_enough_randomness_fails() {
    let mut random = pool(16, 6);
    let pk = setup(2, &mut random).unwrap();
    let set = scalars(&[1, 2]);
    let (_, phi, phi_hat) = commitzk(&pk, &set, &mut random).unwrap();
    let mut short = vec![8];
    let k = FastCurve::scalar_from_literal(&4);
    assert_eq!(
        queryzk(&pk, &set, &phi, &phi_hat, k, &mut short).err(),
        Some(KzgError::InsufficientRandomness)
    );
    assert_eq!(short, vec![8]);
    let member = FastCurve::scalar_from_literal(&2);
    let mut none: Vec<u128> = Vec::new();
    assert!(queryzk(&pk, &set, &phi, &phi_hat, member, &mut none).is_ok());
}

#[test]
fn verifier_rejects_a_missing_transcript() {
    let mut random = pool(17, 12);
    let pk = setup(3, &mut random).unwrap();
    let set = scalars(&[1, 2]);
    let (c, phi, phi_hat) = commitzk(&pk, &set, &mut random).unwrap();
    let k = FastCurve::scalar_from_literal(&9);
    let (kj, w, _, _) = queryzk(&pk, &set, &phi, &phi_hat, k, &mut random).unwrap();
    assert!(!verifyzk(&pk, c, None, kj, w, None));
}

#[test]
fn protocol_is_deterministic_for_fixed_pools() {
    let run = || {
        let mut random = pool(18, 20);
        let pk = setup(4, &mut random).unwrap();
        let set = scalars(&[3, 1, 4]);
        let (c, phi, phi_hat) = commitzk(&pk, &set, &mut random).unwrap();
        let k = FastCurve::scalar_from_literal(&5);
        let (kj, w, opening, proof) = queryzk(&pk, &set, &phi, &phi_hat, k, &mut random).unwrap();
        (c, phi, phi_hat, kj, w, opening, proof, random)
    };
    let first = run();
    let second = run();
    assert_eq!(first, second);
    assert!(verifyzk(&setup(4, &mut pool(18, 20)).unwrap(), first.0, first.6, first.3, first.4, first.5));
}

#[test]
fn membership_answer_with_wrong_opening_is_rejected() {
    let mut random = pool(19, 12);
    let pk = setup(3, &mut random).unwrap();
    let set = scalars(&[5, 6]);
    let (c, phi, phi_hat) = commitzk(&pk, &set, &mut random).unwrap();
    let k = FastCurve::scalar_from_literal(&6);
    let (kj, w, opening, _) = queryzk(&pk, &set, &phi, &phi_hat, k, &mut random).unwrap();
    let wrong = opening.unwrap().add(&Scalar::one());
    assert!(!verifyzk(&pk, c, None, kj, w, Some(wrong)));
}
