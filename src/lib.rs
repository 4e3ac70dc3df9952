//! Admission rules, mempool and reputation bookkeeping for an ERC-4337
//! user-operation pool.
//!
//! The pool and the reputation are held in memory. A durable store behind
//! the same operations is not part of this library: the key-value database
//! it would sit on is not among the crates it builds on.

pub mod uint;
pub mod primitives;
pub mod encoding;
pub mod reputation;
pub mod mempool;
pub mod overhead;
pub mod sanity;
