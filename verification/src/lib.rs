//! A binary hash tree over an ordered list of data blocks.
//!
//! Every block is hashed with SHA-256 into a leaf digest. Each further level
//! is made of the digests of adjacent pairs of the level below, until at most
//! one digest is left: the root.

use vstd::prelude::*;

pub mod hashing;
pub mod laws;
pub mod model;
pub mod path;
pub mod tree;

pub use hashing::{hash_concat, DIGEST_LEN};
pub use path::{HashDirection, Proof};
pub use tree::{recursive_merkle_tree, reduce_level, MerkleTree, MerkleTreeView};

verus! {

/// A block of caller data. The tree only reads it.
pub type Data = Vec<u8>;

/// A digest, as raw bytes.
pub type Hash = Vec<u8>;

} // verus!
