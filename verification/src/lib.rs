//! A ratchet-tree group key agreement engine over the secp256k1 curve.
//!
//! The tree keeps a left-balanced binary tree of keypairs. Each internal
//! node is derived from an elliptic-curve Diffie-Hellman reduction of its
//! two children, and the root keypair is the shared group secret. Changes
//! are prepared as uncommitted branches and applied atomically on commit.

pub mod ecdh;
pub mod errors;
pub mod mem;
pub mod tree;
