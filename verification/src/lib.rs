//! Tree-based incrementally constrained pseudorandom function.
//!
//! A 32-byte master key is the root of a perfect binary tree of secrets:
//! each node's two children are the halves of a length-doubling generator
//! applied to the node. `evaluate` derives the secret of any index,
//! `constrain` packs the minimal set of nodes (a spine) that reconstructs
//! every secret up to a constraint index, `constrained_eval` reads such a
//! key, and `increment` advances it one index at a time from disclosed
//! secrets, rejecting disclosures that are inconsistent with the spine.

pub mod laws;
pub mod prf;
pub mod prg;
pub mod tree;

pub use prf::ConstrainedKey;
pub use prf::IncrementallyConstrainedPrf;
pub use prf::SecretKey;
pub use prg::ChaCha20;
pub use prg::Prg32To64;
pub use prg::Sha512;
pub use tree::ROOT;
