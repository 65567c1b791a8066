//! Polynomial commitments for data availability sampling: commitments to
//! blobs, proofs for the cells of their erasure-coded extension, the
//! verification of those proofs one by one and in batches, and the recovery
//! of a blob from half of its cells.
//!
//! The arithmetic of the curve is done by the `bls12_381` crate; what this
//! crate computes with it is stated in the contracts of its functions.

pub mod algebra;
pub mod batch_toeplitz;
pub mod context;
pub mod domain;
pub mod errors;
pub mod evaluation;
pub mod field;
pub mod group;
pub mod laws;
pub mod permutation;
pub mod polynomial;
pub mod prover;
pub mod recovery;
pub mod serialization;
pub mod toeplitz;
pub mod transcript;
pub mod validation;
pub mod verification;
