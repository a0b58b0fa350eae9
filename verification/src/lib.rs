//! A small STARK proving engine: trace arithmetization, constraint
//! composition, hash-based vector commitments, a Fiat-Shamir public coin,
//! the FRI low-degree test, and the prover/verifier orchestration that
//! ties them together.

pub mod field;
pub mod hashing;
pub mod merkle;
pub mod coin;
pub mod domain;
pub mod utils;
pub mod matrix;
pub mod constraint;
pub mod fri;
pub mod options;
pub mod air;
pub mod composer;
pub mod prover;
pub mod verification;

pub use field::Felt;
pub use options::ProofOptions;
pub use matrix::Matrix;
pub use constraint::{Constraint, Element, Term};
pub use air::{Air, TraceInfo};
pub use prover::{prove, Proof, ProvingError};
pub use verification::{verify, VerificationError};
