//! Chains of linked, numbered blocks for exercising code that consumes a ledger.
//!
//! A [`generator::ChainGenerator`] produces blocks one after another. Stages wrap a
//! producer to lower the difficulty of a side branch, to stamp a bloom filter or to
//! add a transaction, and a completion stage links each block to its predecessor by
//! hash and turns it into bytes.
//!
//! Contracts speak of a producer as the sequence of blocks still to come, and of a
//! block as its [`block::BlockView`]. What holds of every chain is proved in
//! [`laws`].

pub mod block;
pub mod bloom;
pub mod complete;
pub mod endian;
pub mod fork;
pub mod generator;
pub mod hash;
pub mod laws;
pub mod rlp;
pub mod take;
pub mod transaction;
pub mod uint;
