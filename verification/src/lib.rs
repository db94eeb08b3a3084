//! DEEP-FRI low-degree test engine over the 64-bit Goldilocks prime field.
//!
//! The crate provides the prime field with its two-adic structure, a radix-2
//! number-theoretic transform, a sponge-style Fiat-Shamir transcript with
//! pluggable hash backends, a domain-separated Merkle commitment tree, the
//! DEEP-ALI merge that turns four evaluation vectors into a low-rate
//! codeword, and the multi-folding DEEP-FRI prover and verifier.

pub mod field;
pub mod fp3;
pub mod hash;
pub mod ntt;
pub mod poseidon;
pub mod transcript;
pub mod merkle;
pub mod channel;
pub mod merge;
pub mod fri;
pub mod tags;
