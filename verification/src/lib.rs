//! Prover-side core of a PLONK-family polynomial IOP: field and polynomial
//! algebra over the proof field, the plookup grand-product argument, the
//! Fiat-Shamir transcript, and the proof-construction orchestration.
pub mod acceptance;
pub mod circuit;
pub mod domain;
pub mod errors;
pub mod field;
pub mod oracles;
pub mod poly;
pub mod prover;
pub mod rng;
pub mod sorting;
pub mod tbllkp;
pub mod transcript;
