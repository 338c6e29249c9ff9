//! Storage layer: tiers, blocks, the block index, block decomposition and
//! pruned-value storage.

pub mod block;
pub mod decompose;
pub mod disk;
pub mod index;
pub mod pruned;
pub mod tier;

pub use block::{Block, BlockData, BlockLocation};
pub use pruned::{PrunedLocation, PrunedStorage};
pub use tier::Tier;
