use group::ff::{Field, PrimeField};
use group::Group;
use kzg::{apply, create_psi, multiply, FastCurve, Scalar};
use sha2::Digest;

fn s(x: u128) -> Scalar {
    FastCurve::scalar_from_literal(&x)
}

fn modulus_minus(x: u128) -> Scalar {
    Scalar::zero().sub(&s(x))
}

#[test]
fn scalar_arithmetic_is_exact() {
    assert!(s(7).add(&s(5)).equals(&s(12)));
    assert!(s(7).sub(&s(5)).equals(&s(2)));
    assert!(s(7).mul(&s(5)).equals(&s(35)));
    assert!(FastCurve::scalar_pow(&s(3), &4).equals(&s(81)));
    assert!(FastCurve::scalar_pow(&s(0), &0).equals(&s(1)));
    assert!(FastCurve::scalar_pow(&s(2), &128).equals(&s(1 << 127).mul(&s(2))));
    assert!(!s(1).equals(&s(2)));
}

#[test]
fn scalar_encoding_matches_blstrs() {
    let big = u128::MAX;
    let ours = s(big).to_bytes();
    let theirs = blstrs::Scalar::from_u128(big).to_bytes_be();
    assert_eq!(ours, theirs);
    let minus_one = modulus_minus(1).to_bytes();
    assert_eq!(minus_one, (-blstrs::Scalar::ONE).to_bytes_be());
    assert!(modulus_minus(1).add(&s(1)).equals(&Scalar::zero()));
}

#[test]
fn scalar_pow_matches_blstrs() {
    let base = 0x1234_5678_9abc_def0_1122_3344_5566_7788u128;
    let exp = 0xffff_0000_1111_2222_3333_4444_5555_6666u128;
    let ours = FastCurve::scalar_pow(&s(base), &exp).to_bytes();
    let theirs = blstrs::Scalar::from_u128(base).pow([exp as u64, (exp >> 64) as u64]).to_bytes_be();
    assert_eq!(ours, theirs);
}

#[test]
fn reduction_of_wide_bytes_is_modular() {
    let modulus = blstrs::Scalar::char();
    let mut be: Vec<u8> = modulus.iter().rev().cloned().collect();
    assert!(Scalar::from_be_bytes_mod(&be).equals(&Scalar::zero()));
    let last = be.len() - 1;
    be[last] += 5;
    assert!(Scalar::from_be_bytes_mod(&be).equals(&s(5)));
    assert!(Scalar::from_be_bytes_mod(&vec![1, 0]).equals(&s(256)));
    assert!(Scalar::from_be_bytes_mod(&Vec::new()).equals(&Scalar::zero()));
}

#[test]
fn generators_are_the_standard_ones() {
    assert_eq!(FastCurve::g1().to_bytes(), blstrs::G1Projective::generator().to_uncompressed());
    assert_eq!(FastCurve::g1().to_bytes()[0], 0x17);
    assert_eq!(FastCurve::g2().to_bytes()[0], 0x13);
}

#[test]
fn group_operations_follow_the_group_law() {
    let g = FastCurve::g1();
    let two_g = FastCurve::g1add(&g, &g);
    assert!(two_g.equals(&FastCurve::g1mul(&s(2), &g)));
    assert!(!two_g.equals(&g));
    assert!(FastCurve::g1sub(&two_g, &g).equals(&g));
    let zero = FastCurve::g1mul(&s(0), &g);
    assert!(FastCurve::g1sub(&g, &g).equals(&zero));
    assert_eq!(zero.to_bytes()[0], 0x40);
    let g2 = FastCurve::g2();
    let three = FastCurve::g2mul(&s(3), &g2);
    let two = FastCurve::g2mul(&s(2), &g2);
    assert!(FastCurve::g2sub(&three, &g2).to_bytes() == two.to_bytes());
}

#[test]
fn pairing_is_bilinear() {
    let g = FastCurve::g1();
    let g2 = FastCurve::g2();
    let left = FastCurve::pairing(&FastCurve::g1mul(&s(6), &g), &FastCurve::g2mul(&s(7), &g2));
    let right = FastCurve::pairing(&FastCurve::g1mul(&s(42), &g), &g2);
    assert!(left.equals(&right));
    let other = FastCurve::pairing(&FastCurve::g1mul(&s(41), &g), &g2);
    assert!(!left.equals(&other));
}

fn transcript_bytes(b: &[u8; 96]) -> Vec<u8> {
    let mut out = vec![b[0] & 0x1f];
    out.extend_from_slice(&b[1..]);
    out.push(if b[0] & 0x40 != 0 { 1 } else { 0 });
    out
}

#[test]
fn fiat_shamir_hash_is_sha256_of_the_transcript() {
    let g = FastCurve::g1();
    let h = FastCurve::g1mul(&s(11), &g);
    let z = FastCurve::g1mul(&s(12), &g);
    let n1 = FastCurve::g1mul(&s(0), &g);
    let n2 = FastCurve::g1mul(&s(14), &g);
    let mut bytes = Vec::new();
    for p in [g, h, z, n1, n2] {
        bytes.extend(transcript_bytes(&p.to_bytes()));
    }
    assert_eq!(bytes.len(), 5 * 97);
    assert_eq!(bytes[97 * 3 + 96], 1);
    let digest = sha2::Sha256::digest(&bytes).to_vec();
    let expected = Scalar::from_be_bytes_mod(&digest);
    let c = FastCurve::fiat_shamir_hash(z, n1, n2, h);
    assert!(c.equals(&expected));
    assert!(c.equals(&FastCurve::fiat_shamir_hash(z, n1, n2, h)));
    assert!(!c.equals(&FastCurve::fiat_shamir_hash(n2, n1, z, h)));
}

#[test]
fn apply_evaluates_high_degree_first() {
    // 2x^2 + x + 1 at x = 2
    let p = vec![s(2), s(1), s(1)];
    assert!(apply(&p, &s(2)).equals(&s(11)));
    assert!(apply(&Vec::new(), &s(2)).equals(&Scalar::zero()));
    assert!(apply(&vec![s(9)], &s(1000)).equals(&s(9)));
}

#[test]
fn multiply_is_the_convolution() {
    // (x + 1)(x - 1) = x^2 - 1
    let f = vec![s(1), s(1)];
    let g = vec![s(1), modulus_minus(1)];
    let h = multiply(&f, &g);
    assert_eq!(h.len(), 3);
    assert!(h[0].equals(&s(1)));
    assert!(h[1].equals(&Scalar::zero()));
    assert!(h[2].equals(&modulus_minus(1)));
    // (2x + 3)(4x^2 + 5) = 8x^3 + 12x^2 + 10x + 15
    let h = multiply(&vec![s(2), s(3)], &vec![s(4), s(0), s(5)]);
    let expected = [8u128, 12, 10, 15];
    for i in 0..4 {
        assert!(h[i].equals(&s(expected[i])));
    }
}

#[test]
fn create_psi_divides_by_the_linear_factor() {
    // (x^2 - 1) / (x - 1) = x + 1
    let f = vec![s(1), s(0), modulus_minus(1)];
    let q = create_psi(&f, s(0), s(1));
    assert_eq!(q.len(), 2);
    assert!(q[0].equals(&s(1)));
    assert!(q[1].equals(&s(1)));
    // (x^2 + 3x + 5 - 15) / (x - 2) = x + 5
    let f = vec![s(1), s(3), s(5)];
    let q = create_psi(&f, apply(&f, &s(2)), s(2));
    assert!(q[0].equals(&s(1)));
    assert!(q[1].equals(&s(5)));
    assert!(create_psi(&vec![s(4)], s(4), s(9)).is_empty());
}

fn hex(s: &str) -> Vec<u8> {
    (0..s.len()).step_by(2).map(|i| u8::from_str_radix(&s[i..i + 2], 16).unwrap()).collect()
}

#[test]
fn generator_encodings_are_the_standard_coordinates() {
    let x = "17f1d3a73197d7942695638c4fa9ac0fc3688c4f9774b905a14e3a3f171bac586c55e83ff97a1aeffb3af00adb22c6bb";
    let y = "08b3f481e3aaa0f1a09e30ed741d8ae4fcf5e095d5d00af600db18cb2c04b3edd03cc744a2888ae40caa232946c5e7e1";
    let mut expected = hex(x);
    expected.extend(hex(y));
    assert_eq!(FastCurve::g1().to_bytes().to_vec(), expected);
    let x0 = "024aa2b2f08f0a91260805272dc51051c6e47ad4fa403b02b4510b647ae3d1770bac0326a805bbefd48056c8c121bdb8";
    let x1 = "13e02b6052719f607dacd3a088274f65596bd0d09920b61ab5da61bbdc7f5049334cf11213945d57e5ac7d055d042b7e";
    let y0 = "0ce5d527727d6e118cc9cdc6da2e351aadfd9baa8cbdd3a76d429a695160d12c923ac9cc3baca289e193548608b82801";
    let y1 = "0606c4a02ea734cc32acd2b02bc28b99cb3e287e85a763af267492ab572e99ab3f370d275cec1da1aaa9075ff05f79be";
    let mut expected2 = hex(x1);
    expected2.extend(hex(x0));
    expected2.extend(hex(y1));
    expected2.extend(hex(y0));
    assert_eq!(FastCurve::g2().to_bytes().to_vec(), expected2);
}

#[test]
fn empty_set_commits_to_the_constant_polynomial() {
    let mut random = vec![3u128, 4, 5, 6, 7];
    let pk = kzg::setup(2, &mut random).unwrap();
    let (c, phi, phi_hat) = kzg::commitzk(&pk, &Vec::new(), &mut random).unwrap();
    assert_eq!(phi.len(), 1);
    assert!(phi[0].equals(&Scalar::one()));
    assert!(phi_hat[0].equals(&s(5)));
    // C = 1·g + 5·h
    let expected = FastCurve::g1add(&FastCurve::g1(), &FastCurve::g1mul(&s(5), &pk.h1));
    assert!(c.equals(&expected));
}
