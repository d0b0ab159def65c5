//! Sumcheck interactive-proof core for verifiable SQL query results.
//!
//! A server commits to database columns and proves, via the sumcheck
//! protocol made non-interactive with a Fiat-Shamir transcript, that a
//! composite multilinear polynomial sums to a claimed value over the
//! boolean hypercube.  The verifier's output is a [`sumcheck::Subclaim`]:
//! an evaluation point together with the expected evaluation there,
//! still to be checked against commitment openings downstream.

pub mod composite;
pub mod expr;
pub mod interpolate;
pub mod scalar;
pub mod sumcheck;
pub mod transcript;

pub use composite::{CompositePolynomial, CompositePolynomialInfo, ProverState};
pub use expr::ConstBoolExpr;
pub use sumcheck::{ProofError, Subclaim, SumcheckProof};
pub use scalar::Scalar;
pub use transcript::Transcript;
