//! The values that the store records.
use vstd::prelude::*;

verus! {

/// A 32-byte hash: a leaf hash or a Merkle root.
pub type H256 = [u8; 32];

/// Depth of the Merkle tree whose inclusion proofs are stored.
pub const TREE_DEPTH: usize = 32;

/// A message committed to a home's tree, with its leaf index.
pub struct RawCommittedMessage {
    pub leaf_index: u32,
    pub committed_root: H256,
    pub message: Vec<u8>,
}

/// A root transition of a home.
pub struct Update {
    pub home_domain: u32,
    pub previous_root: H256,
    pub new_root: H256,
}

/// A recoverable signature: `r`, `s` and the recovery byte `v`.
pub struct Signature {
    pub r: H256,
    pub s: H256,
    pub v: u8,
}

/// An update with its signature.
pub struct SignedUpdate {
    pub update: Update,
    pub signature: Signature,
}

/// A Merkle inclusion proof of `leaf` at `index`.
pub struct Proof {
    pub leaf: H256,
    pub index: u64,
    pub path: [H256; TREE_DEPTH],
}

/// Why stored bytes could not be read back.
#[derive(Debug, PartialEq, Eq, Structural)]
pub enum DecodeError {
    /// The bytes end before the value does.
    UnexpectedEnd,
}

} // verus!
