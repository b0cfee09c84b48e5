//! The Sum-Check interactive proof: a prover convinces a verifier that a claimed
//! value is the sum of a multivariate polynomial over the Boolean hypercube.

pub mod field;
pub mod poly;
pub mod reduce;
pub mod prover;
pub mod verifying;
pub mod laws;
