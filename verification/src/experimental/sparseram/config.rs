//! Configuration and builder of tiered sparse weights.

use vstd::prelude::*;
use core::marker::PhantomData;
use std::path::PathBuf;
use super::storage::tier::{Tier, tier_name};

verus! {

/// A filesystem path, carried through unchanged.
#[verifier::external_type_specification]
#[verifier::external_body]
pub struct ExPathBuf(PathBuf);

/// `PathBuf::clone` of std: copies the path. Nothing is stated of the copy,
/// since a path has no model here; configurations only carry it through.
pub assume_specification[ <PathBuf as Clone>::clone ](p: &PathBuf) -> PathBuf;

/// Residency policy of active blocks.
#[derive(Debug, Clone, PartialEq, Eq, Structural)]
pub enum SparsePolicy {
    /// All active blocks on the GPU at all times
    Eager,
    /// LRU cache of `cache_size` blocks with on-demand loading
    Paged {
        /// Maximum number of blocks in the GPU cache
        cache_size: usize,
    },
    /// Sequential streaming from disk with `prefetch` blocks read ahead
    Streaming {
        /// Number of blocks prefetched ahead of the current position
        prefetch: usize,
    },
}

/// The name of a residency policy.
pub open spec fn policy_name(p: SparsePolicy) -> Seq<char> {
    match p {
        SparsePolicy::Eager => "Eager"@,
        SparsePolicy::Paged { .. } => "Paged"@,
        SparsePolicy::Streaming { .. } => "Streaming"@,
    }
}

impl Default for SparsePolicy {
    fn default() -> (p: Self)
        ensures
            p == SparsePolicy::Eager,
    {
        SparsePolicy::Eager
    }
}

impl SparsePolicy {
    /// The policy's name.
    pub fn name(&self) -> (s: &'static str)
        ensures
            s@ == policy_name(*self),
    {
        match self {
            SparsePolicy::Eager => "Eager",
            SparsePolicy::Paged { .. } => "Paged",
            SparsePolicy::Streaming { .. } => "Streaming",
        }
    }

    /// Whether the policy needs a RAM backing store (only paging does).
    pub fn requires_ram(&self) -> (r: bool)
        ensures
            r == (*self is Paged),
    {
        matches!(self, SparsePolicy::Paged { .. })
    }

    /// Whether the policy needs disk storage (only streaming does).
    pub fn requires_disk(&self) -> (r: bool)
        ensures
            r == (*self is Streaming),
    {
        matches!(self, SparsePolicy::Streaming { .. })
    }
}

/// Where pruned values are stored.
#[derive(Debug, Clone)]
pub enum PrunedStorageConfig {
    /// Pruned values are discarded
    Discard,
    /// Pruned values are kept in RAM
    Ram,
    /// Pruned values are kept in a file at `path`
    Disk { path: PathBuf },
}

/// Complete configuration of a tiered sparse weight.
#[derive(Debug, Clone)]
pub struct SparseRAMConfig {
    /// Where active blocks reside
    pub active_tier: Tier,
    /// Storage of pruned values
    pub pruned_storage: PrunedStorageConfig,
    /// Residency policy of active blocks
    pub policy: SparsePolicy,
    /// Block side length
    pub block_size: usize,
}

/// The default configuration: GPU, pruned values discarded, eager, blocks of 16.
pub open spec fn is_default_config(c: SparseRAMConfig) -> bool {
    &&& c.active_tier == Tier::GPU
    &&& c.pruned_storage is Discard
    &&& c.policy == SparsePolicy::Eager
    &&& c.block_size == 16
}

impl Default for SparseRAMConfig {
    fn default() -> (c: Self)
        ensures
            is_default_config(c),
    {
        SparseRAMConfig {
            active_tier: Tier::GPU,
            pruned_storage: PrunedStorageConfig::Discard,
            policy: SparsePolicy::Eager,
            block_size: 16,
        }
    }
}

/// The message of a configuration whose active tier is not the GPU.
pub open spec fn active_tier_message(t: Tier) -> Seq<char> {
    "Active tier must be GPU, got "@ + tier_name(t)
}

impl SparseRAMConfig {
    /// Validates the configuration: only the GPU may hold active blocks.
    pub fn validate(&self) -> (r: Result<(), String>)
        ensures
            r is Ok <==> self.active_tier == Tier::GPU,
            r matches Err(m) ==> m@ == active_tier_message(self.active_tier),
    {
        if self.active_tier != Tier::GPU {
            let s = String::from_str("Active tier must be GPU, got ");
            return Err(s.concat(self.active_tier.name()));
        }
        Ok(())
    }
}

/// Fluent builder of a tiered sparse weight's configuration.
pub struct SparseRAMBuilder<B> {
    config: SparseRAMConfig,
    _phantom: PhantomData<B>,
}

impl<B> SparseRAMBuilder<B> {
    /// The configuration built so far.
    pub closed spec fn spec_config(&self) -> SparseRAMConfig {
        self.config
    }

    /// A builder holding the default configuration.
    pub fn new() -> (b: Self)
        ensures
            is_default_config(b.spec_config()),
    {
        SparseRAMBuilder { config: SparseRAMConfig::default(), _phantom: PhantomData }
    }

    /// Sets the tier of active blocks.
    pub fn active_in(self, tier: Tier) -> (b: Self)
        ensures
            b.spec_config() == (SparseRAMConfig { active_tier: tier, ..self.spec_config() }),
    {
        let mut s = self;
        s.config.active_tier = tier;
        s
    }

    /// Sets the storage of pruned values.
    pub fn pruned_storage(self, storage: PrunedStorageConfig) -> (b: Self)
        ensures
            b.spec_config() == (SparseRAMConfig { pruned_storage: storage, ..self.spec_config() }),
    {
        let mut s = self;
        s.config.pruned_storage = storage;
        s
    }

    /// Sets the residency policy.
    pub fn policy(self, policy: SparsePolicy) -> (b: Self)
        ensures
            b.spec_config() == (SparseRAMConfig { policy: policy, ..self.spec_config() }),
    {
        let mut s = self;
        s.config.policy = policy;
        s
    }

    /// Sets the block size.
    pub fn block_size(self, size: usize) -> (b: Self)
        ensures
            b.spec_config() == (SparseRAMConfig { block_size: size, ..self.spec_config() }),
    {
        let mut s = self;
        s.config.block_size = size;
        s
    }

    /// The configuration built so far.
    pub fn config(&self) -> (c: &SparseRAMConfig)
        ensures
            *c == self.spec_config(),
    {
        &self.config
    }

    /// Consumes the builder and returns its configuration.
    pub fn build(self) -> (c: SparseRAMConfig)
        ensures
            c == self.spec_config(),
    {
        self.config
    }
}

impl<B> Default for SparseRAMBuilder<B> {
    fn default() -> (b: Self)
        ensures
            is_default_config(b.spec_config()),
    {
        Self::new()
    }
}

} // verus!
