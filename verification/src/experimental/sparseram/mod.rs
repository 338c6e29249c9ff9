//! Tiered memory management for sparse weights: only active (non-zero)
//! data occupies fast memory, pruned data is kept in RAM, on disk, or
//! deleted.

pub mod error;
pub mod lifecycle;
pub mod residency;
pub mod storage;
pub mod config;
pub mod convert;
pub mod weight;

use vstd::prelude::*;
pub use config::{PrunedStorageConfig, SparsePolicy, SparseRAMBuilder, SparseRAMConfig};
pub use error::{SparseRAMError, SparseRAMResult};
pub use storage::{Block, BlockLocation, Tier};

verus! {

/// Entry point of the tiered sparse-weight API.
pub struct SparseRAM;

impl SparseRAM {
    /// Starts building a configuration from the defaults.
    pub fn enable<B>() -> (b: SparseRAMBuilder<B>)
        ensures
            config::is_default_config(b.spec_config()),
    {
        SparseRAMBuilder::new()
    }
}

} // verus!
