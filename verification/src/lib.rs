//! A privacy-preserving resource machine: an append-only ledger of
//! resources committed to a fixed-depth Merkle commitment tree, consumed
//! by revealing nullifiers, and guarded by externally verified proofs.

pub mod adapter;
pub mod backend;
pub mod digest;
pub mod instance;
pub mod keygen;
pub mod ledger;
pub mod logic;
pub mod merkle_path;
pub mod resource;
pub mod transaction;
pub mod tree;

use vstd::prelude::*;

verus! {

/// Depth of the ledger's commitment tree.
pub const COMMITMENT_TREE_DEPTH: usize = 32;

} // verus!
