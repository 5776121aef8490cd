//! Off-chain validator-election worker.
//!
//! A node periodically computes a stake-weighted assignment of nominators to
//! elected validators, compresses it into an index-based compact form, scores
//! it, signs the result and hands it to a submission channel. This crate holds
//! the verified core of that worker: the rate-limiting guard, the signing-key
//! search, the assignment pipeline and the orchestration that ties them
//! together. The election solver, the edge-reduction pass and the wire codec
//! are outside collaborators reached through narrow trusted calls.

pub mod types;
pub mod guard;
pub mod keys;
pub mod staked;
pub mod support;
pub mod compact;
pub mod wire;
pub mod worker;
