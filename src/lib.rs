//! Age attestation: a threshold circuit over the BLS12-381 scalar field,
//! Groth16 proof checking, and a ledger that issues one attestation token
//! per verified identity.
pub mod field;
pub mod circuit;
pub mod account;
pub mod zk_verifier;
pub mod age_token;
