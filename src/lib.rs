//! Zero-knowledge set membership and non-membership proofs built on hiding
//! KZG polynomial commitments over BLS12-381.
//!
//! A prover commits once to a set of scalars and later answers queries "is k in
//! the set?" with a witness that the verifier checks against the commitment by a
//! pairing equation; a "no" answer carries a Schnorr proof, made non-interactive
//! with a Fiat–Shamir challenge, that the committed polynomial does not vanish at
//! k. All randomness enters as a caller-owned pool of 128-bit words drawn from
//! its end.
pub mod curve;
pub mod field;
pub mod poly;
pub mod proofs;
pub mod protocol;

pub use curve::{FastCurve, Gt, G1, G2};
pub use field::Scalar;
pub use poly::{apply, commit_poly, create_psi, multiply};
pub use protocol::{
    commitzk, queryzk, schnorr_proof, schnorr_verify, setup, verifyzk, KzgError,
    NonMembershipProof, Pk, QueryResult,
};
