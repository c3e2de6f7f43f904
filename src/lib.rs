//! A binary Merkle tree over an ordered sequence of byte blocks, kept as one
//! flat sequence of SHA-256 digests, with a recomputation-based verifier.
pub mod hashing;
pub mod model;
pub mod theorems;
pub mod tree;

pub use tree::{Data, HashDirection, MerkleTree, Proof};
