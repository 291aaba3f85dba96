//! Deterministic state-transition engine for a minimal transfer ledger:
//! a fixed-layout transaction codec with Ed25519 signatures, a sparse
//! Merkle-tree account store, a speculative apply/revert state machine,
//! a block processor and a fixed-size data-availability share packer.
pub mod block;
pub mod errors;
pub mod laws;
pub mod state;
pub mod transaction;
pub mod tree;
pub mod utils;
