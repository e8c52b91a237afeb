//! Inclusion proofs for one block of a tiered commitment tree: a quaternary
//! Merkle tree of depth eight whose leaves are commitments.

pub mod binding;
pub mod block;
pub mod hash;
pub mod path;
pub mod tree;
