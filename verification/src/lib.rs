//! Block execution core of a BFT ledger node.
//!
//! The crate models the subsystem that takes an ordered block of
//! transactions from consensus, executes it against a versioned ledger,
//! produces a commitment (transaction-accumulator root, state root and an
//! optional next-epoch descriptor) that consensus can vote on, and, once
//! consensus commits, durably persists the resulting transactions.
//!
//! Layout, leaves first:
//! - [`hashing`]: the commitment arithmetic (a fold over leaf hashes);
//! - [`types`]: plain data carried across the interfaces;
//! - [`accumulator`]: the append-only transaction accumulator and ledger view;
//! - [`chunk`]: the pure execute/apply pipeline turning transactions into an
//!   executed chunk;
//! - [`storage`]: the persistent ledger behind the five storage operations;
//! - [`block_tree`]: the in-memory tree of speculatively executed blocks;
//! - [`block_executor`]: the public face driven by consensus;
//! - [`db_bootstrapper`]: the genesis waypoint and bootstrap pipeline;
//! - [`laws`]: proofs of the crate-wide invariants.

pub mod accumulator;
pub mod block_executor;
pub mod block_tree;
pub mod chunk;
pub mod db_bootstrapper;
pub mod hashing;
pub mod laws;
pub mod storage;
pub mod types;
