//! Epoch randomness for proof-of-stake duty assignment.
//!
//! The crate accumulates verified per-epoch entropy contributions into a
//! bounded ring of mixes, derives domain-separated seeds from historical
//! mixes, and turns a seed into a deterministic permutation of validator
//! indices from which proposer, sync-committee and attestation-committee
//! assignments are sliced.

pub mod constants;
pub mod encoding;
pub mod hash;
pub mod accumulator;
pub mod shuffle;
