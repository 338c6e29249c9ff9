//! Conversion of a dense weight and its mask into a sparse tensor of the
//! kept values and storage of the pruned ones.

use vstd::prelude::*;
use crate::sparse::convert::is_csr_result;
use crate::sparse::mask::SparseMask;
use crate::sparse::tensor::{SparseTensor, masked_entries};
use super::config::{PrunedStorageConfig, SparseRAMConfig, active_tier_message};
use super::error::{SparseRAMError, SparseRAMResult};
use super::storage::pruned::PrunedStorage;
use super::storage::tier::Tier;

verus! {

/// The pruned entries `(row, col, value)` of a row-major dense matrix with
/// `n_cols` columns, in the order of the pruned flat indices.
pub open spec fn pruned_triples<V>(dense: Seq<V>, n_cols: usize, pruned: Seq<usize>) -> Seq<(usize, usize, V)> {
    Seq::new(
        pruned.len(),
        |k: int| ((pruned[k] / n_cols) as usize, (pruned[k] % n_cols) as usize, dense[pruned[k] as int]),
    )
}

/// Converts dense weights and their mask following a configuration.
pub struct ConversionPipeline {
    config: SparseRAMConfig,
}

impl ConversionPipeline {
    /// The configuration followed.
    pub closed spec fn spec_config(&self) -> SparseRAMConfig {
        self.config
    }

    /// A pipeline following `config`.
    pub fn new(config: SparseRAMConfig) -> (p: Self)
        ensures
            p.spec_config() == config,
    {
        ConversionPipeline { config }
    }

    /// The configuration followed.
    pub fn config(&self) -> (c: &SparseRAMConfig)
        ensures
            *c == self.spec_config(),
    {
        &self.config
    }

    /// The pruned entries of `dense` (of the mask's shape), with their
    /// coordinates.
    pub fn extract_pruned_values<V: Copy>(&self, dense: &Vec<V>, mask: &SparseMask) -> (r: SparseRAMResult<
        Vec<(usize, usize, V)>,
    >)
        requires
            mask.wf(),
            dense@.len() == mask.spec_mask().len(),
        ensures
            r matches Ok(v) && v@ == pruned_triples(dense@, mask.spec_shape()[1], mask.spec_pruned()),
    {
        let n_cols = mask.shape()[1];
        let pruned_indices = mask.pruned_indices();
        let ghost target = pruned_triples(dense@, n_cols, pruned_indices@);
        let mut pruned: Vec<(usize, usize, V)> = Vec::with_capacity(pruned_indices.len());
        let mut k: usize = 0;
        while k < pruned_indices.len()
            invariant
                k <= pruned_indices@.len(),
                mask.wf(),
                pruned_indices@ == mask.spec_pruned(),
                n_cols == mask.spec_shape()[1],
                dense@.len() == mask.spec_mask().len(),
                target == pruned_triples(dense@, n_cols, pruned_indices@),
                pruned@ == target.take(k as int),
            decreases pruned_indices@.len() - k,
        {
            let flat_idx = pruned_indices[k];
            assert(flat_idx < mask.spec_mask().len());
            if n_cols == 0 {
                assert(mask.spec_shape()[0] * mask.spec_shape()[1] == 0) by (nonlinear_arith)
                    requires
                        mask.spec_shape()[1] == 0,
                ;
            }
            let row = flat_idx / n_cols;
            let col = flat_idx % n_cols;
            pruned.push((row, col, dense[flat_idx]));
            proof {
                assert(pruned@ =~= target.take(k + 1));
            }
            k += 1;
        }
        proof {
            assert(target.take(pruned_indices@.len() as int) =~= target);
        }
        Ok(pruned)
    }

    /// Builds the storage of the pruned values: discarded, kept in memory, or
    /// a file of one entry per pruned position, which its owner fills.
    pub fn build_pruned_storage<V: Copy>(&self, dense: &Vec<V>, mask: &SparseMask) -> (r: SparseRAMResult<
        PrunedStorage<V>,
    >)
        requires
            mask.wf(),
            dense@.len() == mask.spec_mask().len(),
        ensures
            self.spec_config().pruned_storage is Discard ==> (r matches Ok(s) && s is Discard),
            self.spec_config().pruned_storage is Ram ==> (r matches Ok(s) && s is Ram && s.entries()
                == pruned_triples(dense@, mask.spec_shape()[1], mask.spec_pruned())),
            self.spec_config().pruned_storage is Disk ==> (r matches Ok(s) && s matches PrunedStorage::Disk {
                num_values,
            } && num_values == mask.spec_pruned().len()),
    {
        match &self.config.pruned_storage {
            PrunedStorageConfig::Discard => Ok(PrunedStorage::Discard),
            PrunedStorageConfig::Ram => {
                let pruned_values = match self.extract_pruned_values(dense, mask) {
                    Ok(v) => v,
                    Err(e) => {
                        return Err(e);
                    },
                };
                let mut storage = PrunedStorage::new_ram();
                let _ = storage.set_values(pruned_values);
                Ok(storage)
            },
            PrunedStorageConfig::Disk { .. } => Ok(PrunedStorage::new_disk(mask.n_pruned())),
        }
    }

    /// Converts dense weights of `shape` and their mask: the configuration
    /// must keep active data on the GPU and the shapes must agree; the kept
    /// values become a CSR tensor and the pruned ones are stored as
    /// configured.
    pub fn convert<V: Copy>(&self, dense: &Vec<V>, shape: [usize; 2], mask: &SparseMask) -> (r: SparseRAMResult<
        (SparseTensor<V>, PrunedStorage<V>, [usize; 2]),
    >)
        requires
            mask.wf(),
            dense@.len() == shape[0] * shape[1],
            mask.spec_shape()[0] < usize::MAX,
            mask.spec_shape()[0] * mask.spec_shape()[1] <= i64::MAX,
        ensures
            self.spec_config().active_tier != Tier::GPU ==> (r matches Err(SparseRAMError::InvalidConfig { reason })
                && reason@ == active_tier_message(self.spec_config().active_tier)),
            self.spec_config().active_tier == Tier::GPU && shape != mask.spec_shape() ==> r == Err::<
                (SparseTensor<V>, PrunedStorage<V>, [usize; 2]),
                SparseRAMError,
            >(SparseRAMError::DimensionMismatch { expected: mask.spec_shape(), actual: shape }),
            self.spec_config().active_tier == Tier::GPU && shape == mask.spec_shape() ==> (r matches Ok(res)
                && res.2 == shape && res.0.spec_nnz() <= shape[0] * shape[1] && is_csr_result(
                Ok::<SparseTensor<V>, crate::sparse::error::SparseError>(res.0),
                shape,
                masked_entries(mask.spec_mask(), dense@, shape),
            ) && (self.spec_config().pruned_storage is Discard ==> res.1 is Discard) && (
            self.spec_config().pruned_storage is Ram ==> res.1 is Ram && res.1.entries() == pruned_triples(
                dense@,
                shape[1],
                mask.spec_pruned(),
            )) && (self.spec_config().pruned_storage is Disk ==> (res.1 matches PrunedStorage::Disk { num_values }
                && num_values == mask.spec_pruned().len()))),
    {
        match self.config.validate() {
            Ok(()) => {},
            Err(e) => {
                return Err(SparseRAMError::InvalidConfig { reason: e });
            },
        }
        let mask_shape = mask.shape();
        if shape[0] != mask_shape[0] || shape[1] != mask_shape[1] {
            return Err(SparseRAMError::DimensionMismatch { expected: mask_shape, actual: shape });
        }
        assert(shape =~= mask_shape);
        let pruned_storage = match self.build_pruned_storage(dense, mask) {
            Ok(s) => s,
            Err(e) => {
                return Err(e);
            },
        };
        let sparse = match SparseTensor::from_mask(mask, dense, shape) {
            Ok(t) => t,
            Err(e) => {
                return Err(
                    SparseRAMError::ConversionError {
                        reason: String::from_str("Failed to convert to sparse tensor"),
                    },
                );
            },
        };
        Ok((sparse, pruned_storage, shape))
    }
}

} // verus!
