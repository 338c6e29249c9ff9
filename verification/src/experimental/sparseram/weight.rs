//! A tiered sparse weight: the kept values live in a sparse tensor held by a
//! residency engine, the pruned values are discarded or kept in memory and
//! can be loaded next to the kept ones and offloaded again.

use vstd::prelude::*;
use crate::sparse::convert::is_csr_result;
use crate::sparse::mask::SparseMask;
use crate::sparse::tensor::{SparseTensor, masked_entries, dense_of, filled_vec, copy_vec};
use crate::sparse::dense::lemma_cell_position;
use super::config::{PrunedStorageConfig, SparseRAMBuilder, SparseRAMConfig, SparsePolicy, active_tier_message};
use super::convert::{ConversionPipeline, pruned_triples};
use super::error::{SparseRAMError, SparseRAMResult};
use super::lifecycle::{check_lifecycle, LifecycleMode, LifecycleOperation, spec_allows, mode_name, operation_name};
use super::residency::eager::{EagerEngine, eager_vram_bytes};
use super::storage::pruned::{PrunedLocation, PrunedStorage};
use super::storage::tier::Tier;

verus! {

/// The flat position of a pruned entry in a matrix with `n_cols` columns.
pub open spec fn entry_position<V>(e: (usize, usize, V), n_cols: usize) -> int {
    e.0 * n_cols + e.1
}

/// The entries lie inside a matrix of `shape`, at distinct positions.
pub open spec fn entries_placed<V>(entries: Seq<(usize, usize, V)>, shape: [usize; 2]) -> bool {
    &&& forall|k: int| 0 <= k < entries.len() ==> (#[trigger] entries[k]).0 < shape[0] && entries[k].1 < shape[1]
    &&& forall|k1: int, k2: int|
        0 <= k1 < k2 < entries.len() ==> entry_position(#[trigger] entries[k1], shape[1]) != entry_position(
            #[trigger] entries[k2],
            shape[1],
        )
}

/// A row-major matrix of `shape` with each entry's value at its position and
/// `zero` elsewhere.
pub open spec fn scattered_entries<V>(entries: Seq<(usize, usize, V)>, shape: [usize; 2], zero: V) -> Seq<V> {
    Seq::new(
        (shape[0] * shape[1]) as nat,
        |p: int|
            if exists|k: int| 0 <= k < entries.len() && entry_position(#[trigger] entries[k], shape[1]) == p {
                entries[choose|k: int| 0 <= k < entries.len() && entry_position(#[trigger] entries[k], shape[1]) == p].2
            } else {
                zero
            },
    )
}

/// The residency engine a policy asks for; only eager residency is
/// available yet.
pub fn create_residency_engine<V>(config: &SparseRAMConfig, sparse: SparseTensor<V>) -> (r: SparseRAMResult<
    EagerEngine<V>,
>)
    requires
        sparse.wf(),
        sparse.spec_nnz() * 12 <= usize::MAX,
    ensures
        config.policy is Eager ==> (r matches Ok(e) && e.spec_sparse() == sparse && e.spec_vram() == eager_vram_bytes(
            sparse.spec_nnz(),
        )),
        config.policy is Paged ==> (r matches Err(SparseRAMError::InvalidConfig { reason }) && reason@
            == "Paged policy not yet implemented in R4"@),
        config.policy is Streaming ==> (r matches Err(SparseRAMError::InvalidConfig { reason }) && reason@
            == "Streaming policy not yet implemented in R4"@),
{
    match &config.policy {
        SparsePolicy::Eager => Ok(EagerEngine::new(sparse)),
        SparsePolicy::Paged { .. } => Err(
            SparseRAMError::InvalidConfig { reason: String::from_str("Paged policy not yet implemented in R4") },
        ),
        SparsePolicy::Streaming { .. } => Err(
            SparseRAMError::InvalidConfig { reason: String::from_str("Streaming policy not yet implemented in R4") },
        ),
    }
}

/// What `from_config` gives for a configuration, dense weights of `shape`
/// and their mask: the configuration's errors, or an eager weight holding
/// the kept values, with the pruned values discarded, stored in memory, or
/// counted for a file as configured.
pub open spec fn config_outcome<V: Copy>(
    config: SparseRAMConfig,
    dense: Seq<V>,
    shape: [usize; 2],
    mask: SparseMask,
    r: SparseRAMResult<SparseRAMWeight<V>>,
) -> bool {
    &&& (config.active_tier != Tier::GPU ==> (r matches Err(SparseRAMError::InvalidConfig { reason }) && reason@
                == active_tier_message(config.active_tier)))
    &&& (config.active_tier == Tier::GPU && shape != mask.spec_shape() ==> (r matches Err(
                SparseRAMError::DimensionMismatch { expected, actual },
            ) && expected == mask.spec_shape() && actual == shape))
    &&& (config.active_tier == Tier::GPU && shape == mask.spec_shape() && config.policy is Paged ==> (r matches Err(
                SparseRAMError::InvalidConfig { reason },
            ) && reason@ == "Paged policy not yet implemented in R4"@))
    &&& (config.active_tier == Tier::GPU && shape == mask.spec_shape() && config.policy is Streaming ==> (r matches Err(
                SparseRAMError::InvalidConfig { reason },
            ) && reason@ == "Streaming policy not yet implemented in R4"@))
    &&& (config.active_tier == Tier::GPU && shape == mask.spec_shape() && config.policy is Eager ==> (r matches Ok(w)
                && w.wf() && w.spec_shape() == shape && w.spec_sparse().spec_format()
                == crate::sparse::format::SparseFormat::CSR && w.spec_sparse().entries() == masked_entries(
                mask.spec_mask(),
                dense,
                shape,
            ) && w.spec_loaded() is None && (config.pruned_storage is Discard ==> w.spec_pruned() is Discard
                && w.spec_mode() == LifecycleMode::Inference && w.spec_location() == PrunedLocation::Discarded) && (
            config.pruned_storage is Ram ==> w.spec_pruned() is Ram && w.spec_pruned().entries() == pruned_triples(
                dense,
                shape[1],
                mask.spec_pruned(),
            ) && w.spec_mode() == LifecycleMode::Training && w.spec_location() == PrunedLocation::Ram) && (
            config.pruned_storage is Disk ==> (w.spec_pruned() matches PrunedStorage::Disk { num_values }
                && num_values == mask.spec_pruned().len() && w.spec_mode() == LifecycleMode::Training
                && w.spec_location() == PrunedLocation::Disk))))
}

/// A tiered sparse weight over values of type `V`.
#[derive(Debug)]
pub struct SparseRAMWeight<V> {
    shape: [usize; 2],
    pruned: PrunedStorage<V>,
    current_location: PrunedLocation,
    pruned_gpu: Option<Vec<V>>,
    residency: EagerEngine<V>,
    mode: LifecycleMode,
}

impl<V: Copy> SparseRAMWeight<V> {
    /// The shape `[n_rows, n_cols]`.
    pub closed spec fn spec_shape(&self) -> [usize; 2] {
        self.shape
    }

    /// The storage of the pruned values.
    pub closed spec fn spec_pruned(&self) -> PrunedStorage<V> {
        self.pruned
    }

    /// Where the pruned values currently live.
    pub closed spec fn spec_location(&self) -> PrunedLocation {
        self.current_location
    }

    /// The pruned values loaded next to the kept ones, as a dense matrix.
    pub closed spec fn spec_loaded(&self) -> Option<Seq<V>> {
        match self.pruned_gpu {
            Some(v) => Some(v@),
            None => None,
        }
    }

    /// The lifecycle mode.
    pub closed spec fn spec_mode(&self) -> LifecycleMode {
        self.mode
    }

    /// The sparse tensor of the kept values.
    pub closed spec fn spec_sparse(&self) -> SparseTensor<V> {
        self.residency.spec_sparse()
    }

    /// The fast-memory bytes of the kept values.
    pub closed spec fn spec_vram(&self) -> nat {
        self.residency.spec_vram()
    }

    /// The pruned values lie in a file and are not loaded: loading them
    /// takes the entries read from the file.
    pub open spec fn needs_disk_read(&self) -> bool {
        self.spec_pruned() is Disk && self.spec_location() != PrunedLocation::Gpu
    }

    /// The kept values form a valid tensor of the weight's shape, the pruned
    /// entries lie at distinct positions inside it, and the footprints fit in
    /// a `usize`.
    pub open spec fn wf(&self) -> bool {
        let shape = self.spec_shape();
        &&& self.spec_sparse().wf()
        &&& self.spec_sparse().spec_shape() == shape
        &&& !(self.spec_sparse().spec_format() is BlockCSR || self.spec_sparse().spec_format() is NInM)
        &&& shape[0] * shape[1] <= usize::MAX
        &&& entries_placed(self.spec_pruned().entries(), shape)
        &&& self.spec_pruned().entries().len() * 20 <= usize::MAX
        &&& self.spec_location() == PrunedLocation::Gpu <==> self.spec_loaded() is Some
        &&& self.spec_loaded() matches Some(d) ==> d.len() == shape[0] * shape[1]
    }

    /// A weight from a configuration, dense weights of `shape` and their
    /// mask: the kept values go to a sparse tensor under the configured
    /// residency, the pruned ones are stored as configured; keeping them
    /// starts in training mode, discarding them in inference mode.
    pub fn from_config(config: SparseRAMConfig, dense: &Vec<V>, shape: [usize; 2], mask: &SparseMask) -> (r: SparseRAMResult<
        Self,
    >)
        requires
            mask.wf(),
            dense@.len() == shape[0] * shape[1],
            mask.spec_shape()[0] < usize::MAX,
            mask.spec_shape()[0] * mask.spec_shape()[1] <= i64::MAX,
            mask.spec_shape()[0] * mask.spec_shape()[1] * 20 <= usize::MAX,
        ensures
            config_outcome(config, dense@, shape, *mask, r),
    {
        let pipeline = ConversionPipeline::new(config);
        let (sparse, pruned_storage, shape) = match pipeline.convert(dense, shape, mask) {
            Ok(res) => res,
            Err(e) => {
                return Err(e);
            },
        };
        proof {
            lemma_pruned_triples_placed(dense@, *mask);
            crate::sparse::mask::lemma_mask_partition(*mask);
            assert(mask.spec_pruned().len() * 20 <= usize::MAX) by (nonlinear_arith)
                requires
                    mask.spec_pruned().len() <= shape[0] * shape[1],
                    shape[0] * shape[1] * 20 <= usize::MAX,
            ;
            assert(sparse.spec_nnz() * 12 <= usize::MAX) by (nonlinear_arith)
                requires
                    sparse.spec_nnz() <= shape[0] * shape[1],
                    shape[0] * shape[1] * 20 <= usize::MAX,
            ;
        }
        let mode = match &pruned_storage {
            PrunedStorage::Discard => LifecycleMode::Inference,
            _ => LifecycleMode::Training,
        };
        let residency = match create_residency_engine(pipeline.config(), sparse) {
            Ok(e) => e,
            Err(e) => {
                return Err(e);
            },
        };
        let current_location = pruned_storage.initial_location();
        Ok(
            SparseRAMWeight {
                shape,
                pruned: pruned_storage,
                current_location,
                pruned_gpu: None,
                residency,
                mode,
            },
        )
    }

    /// A weight from a builder's configuration (see `from_config`).
    pub fn from_builder<B>(builder: SparseRAMBuilder<B>, dense: &Vec<V>, shape: [usize; 2], mask: &SparseMask) -> (r: SparseRAMResult<
        Self,
    >)
        requires
            mask.wf(),
            dense@.len() == shape[0] * shape[1],
            mask.spec_shape()[0] < usize::MAX,
            mask.spec_shape()[0] * mask.spec_shape()[1] <= i64::MAX,
            mask.spec_shape()[0] * mask.spec_shape()[1] * 20 <= usize::MAX,
        ensures
            config_outcome(builder.spec_config(), dense@, shape, *mask, r),
    {
        let config = builder.build();
        Self::from_config(config, dense, shape, mask)
    }

    /// The shape `[n_rows, n_cols]`.
    pub fn shape(&self) -> (s: [usize; 2])
        ensures
            s == self.spec_shape(),
    {
        self.shape
    }

    /// The lifecycle mode.
    pub fn mode(&self) -> (m: LifecycleMode)
        ensures
            m == self.spec_mode(),
    {
        self.mode
    }

    /// Where the pruned values currently live.
    pub fn pruned_location(&self) -> (l: PrunedLocation)
        ensures
            l == self.spec_location(),
    {
        self.current_location
    }

    /// The number of kept values.
    pub fn nnz(&self) -> (n: usize)
        requires
            self.wf(),
        ensures
            n == self.spec_sparse().spec_nnz(),
    {
        self.residency.sparse().nnz()
    }

    /// Fast-memory bytes of the kept values.
    pub fn vram_bytes(&self) -> (n: usize)
        ensures
            n == self.spec_vram(),
    {
        self.residency.vram_usage()
    }

    /// Fast-memory bytes of the kept values (see `vram_bytes`).
    pub fn vram_usage(&self) -> (n: usize)
        ensures
            n == self.spec_vram(),
    {
        self.vram_bytes()
    }

    /// Host-memory bytes: those of the residency engine and of the stored
    /// pruned values.
    pub fn ram_bytes(&self) -> (n: usize)
        requires
            self.wf(),
        ensures
            n == self.spec_pruned().spec_memory_bytes(),
    {
        self.residency.ram_usage() + self.pruned.memory_bytes()
    }

    /// Host-memory bytes (see `ram_bytes`).
    pub fn ram_usage(&self) -> (n: usize)
        requires
            self.wf(),
        ensures
            n == self.spec_pruned().spec_memory_bytes(),
    {
        self.ram_bytes()
    }

    /// The residency policy's name.
    pub fn policy_name(&self) -> (s: &'static str)
        ensures
            s@ == "Eager"@,
    {
        self.residency.name()
    }

    /// Prefetches blocks through the residency engine.
    pub fn prefetch(&mut self, block_ids: &[usize])
        ensures
            *final(self) == *old(self),
    {
        self.residency.prefetch(block_ids);
    }

    /// The pruned values loaded next to the kept ones, if any.
    pub fn pruned_gpu_tensor(&self) -> (r: Option<&Vec<V>>)
        ensures
            r is None <==> self.spec_loaded() is None,
            r matches Some(v) ==> self.spec_loaded() == Some(v@),
    {
        match &self.pruned_gpu {
            Some(v) => Some(v),
            None => None,
        }
    }

    /// The sparse tensor to multiply with in a forward pass, if the mode
    /// allows sparse inference.
    pub fn inference_operand(&mut self) -> (r: SparseRAMResult<&SparseTensor<V>>)
        ensures
            *final(self) == *old(self),
            r matches Ok(t) ==> *t == old(self).spec_sparse(),
            r is Ok <==> spec_allows(old(self).spec_mode(), LifecycleOperation::SparseInference),
    {
        match check_lifecycle(self.mode, LifecycleOperation::SparseInference) {
            Ok(()) => {},
            Err(e) => {
                return Err(e);
            },
        }
        self.residency.get_sparse()
    }

    /// The dense form of the weight, in two parts to be added: the kept values
    /// (with `zero` elsewhere) and, when loaded, the pruned values. Refused
    /// outside training mode, and while kept pruned values are not loaded.
    pub fn to_dense_parts(&mut self, zero: V) -> (r: SparseRAMResult<(Vec<V>, Option<Vec<V>>)>)
        requires
            old(self).wf(),
        ensures
            *final(self) == *old(self),
            dense_parts_outcome(*old(self), r, zero),
    {
        match check_lifecycle(self.mode, LifecycleOperation::ToDense) {
            Ok(()) => {},
            Err(e) => {
                return Err(e);
            },
        }
        let active_dense = self.residency.sparse().to_dense(zero);
        match &self.pruned_gpu {
            Some(p) => Ok((active_dense, Some(copy_vec(p)))),
            None => {
                if self.pruned.has_storage() {
                    Err(
                        SparseRAMError::InvalidConfig {
                            reason: String::from_str(
                                "Pruned values exist but not loaded to GPU. Call load_pruned_to_gpu() first.",
                            ),
                        },
                    )
                } else {
                    Ok((active_dense, None))
                }
            },
        }
    }

    /// Switches to inference mode for good, discarding the pruned values; a
    /// weight already in inference mode is refused.
    pub fn finalize_inference(self) -> (r: SparseRAMResult<Self>)
        requires
            self.wf(),
        ensures
            finalize_outcome(self, r),
            r matches Ok(w) ==> w.wf(),
    {
        if self.mode == LifecycleMode::Inference {
            return Err(
                SparseRAMError::LifecycleViolation {
                    operation: String::from_str("finalize_inference"),
                    mode: String::from_str("Inference (already finalized)"),
                },
            );
        }
        let mut w = self;
        w.pruned = PrunedStorage::Discard;
        w.mode = LifecycleMode::Inference;
        Ok(w)
    }

    /// Loads the pruned values stored in memory next to the kept ones, as a
    /// dense matrix with `zero` at the other positions; already loaded values
    /// stay, and discarded ones cannot be loaded. Values in a file are loaded
    /// with `load_pruned_from_disk`.
    pub fn load_pruned_to_gpu(&mut self, zero: V) -> (r: SparseRAMResult<()>)
        requires
            old(self).wf(),
            !old(self).needs_disk_read(),
        ensures
            final(self).wf(),
            load_outcome(*old(self), *final(self), r, zero),
    {
        if !self.pruned.has_storage() {
            return Err(
                SparseRAMError::PrunedStorageUnavailable { operation: String::from_str("load_pruned_to_gpu") },
            );
        }
        if self.current_location == PrunedLocation::Gpu {
            return Ok(());
        }
        let flat = match &self.pruned {
            PrunedStorage::Ram { values } => scatter_entries(values, self.shape, zero),
            _ => {
                return Err(
                    SparseRAMError::PrunedStorageUnavailable { operation: String::from_str("load_pruned_to_gpu") },
                );
            },
        };
        self.pruned_gpu = Some(flat);
        self.current_location = PrunedLocation::Gpu;
        Ok(())
    }

    /// Whether the pruned values lie in a file and are not loaded, so that
    /// loading them takes the entries read from the file.
    pub fn reads_from_disk(&self) -> (r: bool)
        ensures
            r == self.needs_disk_read(),
    {
        match self.pruned {
            PrunedStorage::Disk { .. } => self.current_location != PrunedLocation::Gpu,
            _ => false,
        }
    }

    /// Loads the pruned values read from their file, `entries`, next to the
    /// kept ones, as a dense matrix with `zero` at the other positions.
    pub fn load_pruned_from_disk(&mut self, entries: Vec<(usize, usize, V)>, zero: V) -> (r: SparseRAMResult<()>)
        requires
            old(self).wf(),
            old(self).needs_disk_read(),
            entries_placed(entries@, old(self).spec_shape()),
        ensures
            final(self).wf(),
            disk_load_outcome(*old(self), *final(self), entries@, r, zero),
    {
        let flat = scatter_entries(&entries, self.shape, zero);
        self.pruned_gpu = Some(flat);
        self.current_location = PrunedLocation::Gpu;
        Ok(())
    }

    /// Drops the loaded pruned values; they live where they were first stored
    /// again. Refused when they are not loaded.
    pub fn offload_pruned(&mut self) -> (r: SparseRAMResult<()>)
        requires
            old(self).wf(),
        ensures
            final(self).wf(),
            offload_outcome(*old(self), *final(self), r),
    {
        if self.current_location != PrunedLocation::Gpu {
            return Err(
                SparseRAMError::InvalidConfig {
                    reason: String::from_str("Pruned values are not on GPU, cannot offload"),
                },
            );
        }
        self.pruned_gpu = None;
        self.current_location = self.pruned.initial_location();
        Ok(())
    }
}

impl<B> SparseRAMBuilder<B> {
    /// Builds the configuration and applies it to dense weights of `shape`
    /// and their mask (see `SparseRAMWeight::from_config`).
    pub fn apply<V: Copy>(self, dense: &Vec<V>, shape: [usize; 2], mask: &SparseMask) -> (r: SparseRAMResult<
        SparseRAMWeight<V>,
    >)
        requires
            mask.wf(),
            dense@.len() == shape[0] * shape[1],
            mask.spec_shape()[0] < usize::MAX,
            mask.spec_shape()[0] * mask.spec_shape()[1] <= i64::MAX,
            mask.spec_shape()[0] * mask.spec_shape()[1] * 20 <= usize::MAX,
        ensures
            config_outcome(self.spec_config(), dense@, shape, *mask, r),
    {
        SparseRAMWeight::from_builder(self, dense, shape, mask)
    }
}

/// What `to_dense_parts` gives for a weight `w`: refused outside training
/// mode and while stored pruned values are not loaded; otherwise the kept
/// values as a dense matrix with `zero` elsewhere, and the loaded pruned
/// values if any.
pub open spec fn dense_parts_outcome<V: Copy>(
    w: SparseRAMWeight<V>,
    r: SparseRAMResult<(Vec<V>, Option<Vec<V>>)>,
    zero: V,
) -> bool {
    &&& !spec_allows(w.spec_mode(), LifecycleOperation::ToDense) ==> (r matches Err(
        SparseRAMError::LifecycleViolation { operation, mode },
    ) && operation@ == operation_name(LifecycleOperation::ToDense) && mode@ == mode_name(w.spec_mode()))
    &&& spec_allows(w.spec_mode(), LifecycleOperation::ToDense) && w.spec_loaded() is None && !(w.spec_pruned() is Discard)
        ==> (r matches Err(SparseRAMError::InvalidConfig { reason })
        && reason@ == "Pruned values exist but not loaded to GPU. Call load_pruned_to_gpu() first."@)
    &&& spec_allows(w.spec_mode(), LifecycleOperation::ToDense) && (w.spec_loaded() is Some
        || w.spec_pruned() is Discard) ==> (r matches Ok(parts) && (w.spec_sparse().spec_data() is Mask
        ==> parts.0@ == w.spec_sparse().spec_data()->Mask_values@) && (!(w.spec_sparse().spec_data() is Mask)
        ==> parts.0@ == dense_of(w.spec_sparse().entries(), w.spec_shape(), zero)) && (match w.spec_loaded() {
        Some(d) => parts.1 matches Some(p) && p@ == d,
        None => parts.1 is None,
    }))
}

/// The row-major matrix of `shape` with each entry's value at its position
/// and `zero` elsewhere.
fn scatter_entries<V: Copy>(entries: &Vec<(usize, usize, V)>, shape: [usize; 2], zero: V) -> (r: Vec<V>)
    requires
        entries_placed(entries@, shape),
        shape[0] * shape[1] <= usize::MAX,
    ensures
        r@ == scattered_entries(entries@, shape, zero),
{
    let n_rows = shape[0];
    let n_cols = shape[1];
    let total = n_rows * n_cols;
    let num_pruned = entries.len();
    if num_pruned == 0 {
        let zeros = filled_vec(zero, total);
        proof {
            let target = scattered_entries(entries@, shape, zero);
            assert(zeros@ =~= target);
        }
        return zeros;
    }
    let ghost es = entries@;
    let mut flat = filled_vec(zero, total);
    let mut i: usize = 0;
    while i < num_pruned
        invariant
            i <= num_pruned,
            num_pruned == es.len(),
            es == entries@,
            n_rows == shape[0],
            n_cols == shape[1],
            total == n_rows * n_cols,
            total <= usize::MAX,
            entries_placed(es, shape),
            flat@.len() == total,
            forall|k: int| 0 <= k < i ==> #[trigger] flat@[entry_position(es[k], n_cols)] == es[k].2,
            forall|p: int|
                0 <= p < total && !(exists|k: int| 0 <= k < i && entry_position(#[trigger] es[k], n_cols) == p)
                    ==> #[trigger] flat@[p] == zero,
        decreases num_pruned - i,
    {
        let (row, col, val) = entries[i];
        proof {
            assert(es[i as int].0 < n_rows && es[i as int].1 < n_cols);
            lemma_cell_position(row as int, col as int, n_rows as int, n_cols as int);
        }
        let linear_idx = row * n_cols + col;
        let ghost before = flat@;
        flat.set(linear_idx, val);
        proof {
            assert forall|k: int| 0 <= k < i + 1 implies #[trigger] flat@[entry_position(es[k], n_cols)]
                == es[k].2 by {
                if k < i {
                    assert(entry_position(es[k], n_cols) != entry_position(es[i as int], n_cols));
                    assert(es[k].0 < n_rows && es[k].1 < n_cols);
                    lemma_cell_position(es[k].0 as int, es[k].1 as int, n_rows as int, n_cols as int);
                    assert(before[entry_position(es[k], n_cols)] == es[k].2);
                }
            }
            assert forall|p: int|
                0 <= p < total && !(exists|k: int| 0 <= k < i + 1 && entry_position(#[trigger] es[k], n_cols)
                    == p) implies #[trigger] flat@[p] == zero by {
                assert(entry_position(es[i as int], n_cols) != p);
                assert(!(exists|k: int| 0 <= k < i && entry_position(#[trigger] es[k], n_cols) == p));
                assert(before[p] == zero);
            }
        }
        i += 1;
    }
    proof {
        let target = scattered_entries(es, shape, zero);
        assert forall|p: int| 0 <= p < total implies flat@[p] == target[p] by {
            if exists|k: int| 0 <= k < es.len() && entry_position(#[trigger] es[k], n_cols) == p {
                let k = choose|k: int| 0 <= k < es.len() && entry_position(#[trigger] es[k], n_cols) == p;
                assert(flat@[entry_position(es[k], n_cols)] == es[k].2);
            }
        }
        assert(flat@ =~= target);
    }
    flat
}

/// What `load_pruned_to_gpu` does to a weight `w0`, giving `w1` and `r`:
/// discarded values cannot be loaded, loaded ones stay, and ones kept in
/// memory are loaded as a dense matrix with `zero` elsewhere.
pub open spec fn load_outcome<V: Copy>(w0: SparseRAMWeight<V>, w1: SparseRAMWeight<V>, r: SparseRAMResult<()>, zero: V) -> bool {
    &&& w1.spec_shape() == w0.spec_shape()
    &&& w1.spec_sparse() == w0.spec_sparse()
    &&& w1.spec_pruned() == w0.spec_pruned()
    &&& w1.spec_mode() == w0.spec_mode()
    &&& w0.spec_pruned() is Discard ==> (r matches Err(SparseRAMError::PrunedStorageUnavailable { operation })
        && operation@ == "load_pruned_to_gpu"@) && w1 == w0
    &&& !(w0.spec_pruned() is Discard) && w0.spec_location() == PrunedLocation::Gpu ==> r is Ok && w1 == w0
    &&& w0.spec_pruned() is Ram && w0.spec_location() != PrunedLocation::Gpu ==> r is Ok
        && w1.spec_location() == PrunedLocation::Gpu && w1.spec_loaded() == Some(
        scattered_entries(w0.spec_pruned().entries(), w0.spec_shape(), zero),
    )
}

/// What `load_pruned_from_disk` does to a weight `w0` whose pruned values
/// lie in a file, given the `entries` read from it: they are loaded as a
/// dense matrix with `zero` elsewhere, and all else stays.
pub open spec fn disk_load_outcome<V: Copy>(
    w0: SparseRAMWeight<V>,
    w1: SparseRAMWeight<V>,
    entries: Seq<(usize, usize, V)>,
    r: SparseRAMResult<()>,
    zero: V,
) -> bool {
    &&& r is Ok
    &&& w1.spec_shape() == w0.spec_shape()
    &&& w1.spec_sparse() == w0.spec_sparse()
    &&& w1.spec_pruned() == w0.spec_pruned()
    &&& w1.spec_mode() == w0.spec_mode()
    &&& w1.spec_location() == PrunedLocation::Gpu
    &&& w1.spec_loaded() == Some(scattered_entries(entries, w0.spec_shape(), zero))
}

/// What `offload_pruned` does to a weight `w0`, giving `w1` and `r`: loaded
/// values are dropped and live where they were first stored again; values
/// not loaded cannot be offloaded.
pub open spec fn offload_outcome<V: Copy>(w0: SparseRAMWeight<V>, w1: SparseRAMWeight<V>, r: SparseRAMResult<()>) -> bool {
    &&& w1.spec_shape() == w0.spec_shape()
    &&& w1.spec_sparse() == w0.spec_sparse()
    &&& w1.spec_pruned() == w0.spec_pruned()
    &&& w1.spec_mode() == w0.spec_mode()
    &&& w0.spec_location() != PrunedLocation::Gpu ==> (r matches Err(SparseRAMError::InvalidConfig { reason })
        && reason@ == "Pruned values are not on GPU, cannot offload"@) && w1 == w0
    &&& w0.spec_location() == PrunedLocation::Gpu ==> r is Ok && w1.spec_loaded() is None && w1.spec_location()
        == initial_location_of(w0.spec_pruned())
}

/// What `finalize_inference` does to a weight `w`: a weight in inference
/// mode is refused; one in training mode moves to inference mode with its
/// pruned values discarded and all else kept.
pub open spec fn finalize_outcome<V: Copy>(w: SparseRAMWeight<V>, r: SparseRAMResult<SparseRAMWeight<V>>) -> bool {
    &&& w.spec_mode() == LifecycleMode::Inference ==> (r matches Err(
        SparseRAMError::LifecycleViolation { operation, mode },
    ) && operation@ == "finalize_inference"@ && mode@ == "Inference (already finalized)"@)
    &&& w.spec_mode() == LifecycleMode::Training ==> (r matches Ok(w1) && w1.spec_mode() == LifecycleMode::Inference
        && w1.spec_pruned() is Discard && w1.spec_shape() == w.spec_shape() && w1.spec_sparse() == w.spec_sparse()
        && w1.spec_location() == w.spec_location() && w1.spec_loaded() == w.spec_loaded())
}

/// Loading stored pruned values that need no file read, and offloading
/// them again, succeeds and leaves them where they were first stored, with
/// nothing loaded.
pub proof fn lemma_load_offload_round_trip<V: Copy>(
    w0: SparseRAMWeight<V>,
    w1: SparseRAMWeight<V>,
    w2: SparseRAMWeight<V>,
    r1: SparseRAMResult<()>,
    r2: SparseRAMResult<()>,
    zero: V,
)
    requires
        !(w0.spec_pruned() is Discard),
        !w0.needs_disk_read(),
        load_outcome(w0, w1, r1, zero),
        offload_outcome(w1, w2, r2),
    ensures
        r1 is Ok,
        r2 is Ok,
        w2.spec_loaded() is None,
        w2.spec_location() == initial_location_of(w0.spec_pruned()),
        w2.spec_pruned() == w0.spec_pruned(),
        w2.spec_sparse() == w0.spec_sparse(),
        w2.spec_mode() == w0.spec_mode(),
{
    if w0.spec_location() == PrunedLocation::Gpu {
        assert(w1 == w0);
    }
}

/// Loading twice is loading once: the second load changes nothing.
pub proof fn lemma_load_idempotent<V: Copy>(
    w0: SparseRAMWeight<V>,
    w1: SparseRAMWeight<V>,
    w2: SparseRAMWeight<V>,
    r1: SparseRAMResult<()>,
    r2: SparseRAMResult<()>,
    zero: V,
)
    requires
        !w0.needs_disk_read(),
        load_outcome(w0, w1, r1, zero),
        load_outcome(w1, w2, r2, zero),
    ensures
        w2 == w1,
        r2 is Ok <==> r1 is Ok,
{
}

/// Finalizing is irreversible and happens once: after a successful
/// finalization the weight is in inference mode, and finalizing it again is
/// refused.
pub proof fn lemma_finalize_once<V: Copy>(
    w0: SparseRAMWeight<V>,
    r1: SparseRAMResult<SparseRAMWeight<V>>,
    r2: SparseRAMResult<SparseRAMWeight<V>>,
)
    requires
        finalize_outcome(w0, r1),
        r1 matches Ok(w1) && finalize_outcome(w1, r2),
    ensures
        r1 matches Ok(w1) && w1.spec_mode() == LifecycleMode::Inference && w1.spec_pruned() is Discard,
        r2 is Err,
{
}

/// Where stored pruned values live when first stored.
pub open spec fn initial_location_of<V>(s: PrunedStorage<V>) -> PrunedLocation {
    match s {
        PrunedStorage::Discard => PrunedLocation::Discarded,
        PrunedStorage::Ram { .. } => PrunedLocation::Ram,
        PrunedStorage::Disk { .. } => PrunedLocation::Disk,
    }
}

/// The pruned values of dense weights, scattered back to their positions,
/// fill exactly the pruned positions and hold `zero` at the kept ones.
pub proof fn lemma_pruned_scatter<V>(dense: Seq<V>, mask: SparseMask, zero: V)
    requires
        mask.wf(),
        dense.len() == mask.spec_mask().len(),
    ensures
        scattered_entries(pruned_triples(dense, mask.spec_shape()[1], mask.spec_pruned()), mask.spec_shape(), zero)
            == Seq::new(dense.len(), |p: int| if mask.spec_mask()[p] { zero } else { dense[p] }),
{
    let shape = mask.spec_shape();
    let n_cols = shape[1];
    let pr = mask.spec_pruned();
    let t = pruned_triples(dense, n_cols, pr);
    let lhs = scattered_entries(t, shape, zero);
    let rhs = Seq::new(dense.len(), |p: int| if mask.spec_mask()[p] { zero } else { dense[p] });
    lemma_pruned_triples_placed(dense, mask);
    assert forall|p: int| 0 <= p < dense.len() implies lhs[p] == rhs[p] by {
        assert(n_cols > 0) by {
            if n_cols == 0 {
                assert(shape[0] * shape[1] == 0) by (nonlinear_arith)
                    requires
                        shape[1] == 0,
                ;
            }
        }
        assert forall|k: int| 0 <= k < t.len() implies entry_position(#[trigger] t[k], n_cols) == pr[k] as int by {
            let x = pr[k] as int;
            assert(x < shape[0] * shape[1]);
            crate::sparse::dense::lemma_position_cell(x, shape[0] as int, n_cols as int);
        }
        if mask.spec_mask()[p] {
            if exists|k: int| 0 <= k < t.len() && entry_position(#[trigger] t[k], n_cols) == p {
                let k = choose|k: int| 0 <= k < t.len() && entry_position(#[trigger] t[k], n_cols) == p;
                assert(!mask.spec_mask()[pr[k] as int]);
            }
        } else {
            assert(pr.contains(p as usize));
            let k0 = choose|k: int| 0 <= k < pr.len() && pr[k] == p as usize;
            assert(entry_position(t[k0], n_cols) == p);
            let k = choose|k: int| 0 <= k < t.len() && entry_position(#[trigger] t[k], n_cols) == p;
            assert(pr[k] == pr[k0]);
        }
    }
    assert(lhs =~= rhs);
}

/// Reconstruction of the dense weight (training mode is reversible): for a
/// weight built from `dense` and `mask` with its pruned values kept in RAM,
/// once they are loaded, `to_dense_parts` gives a kept part holding the kept
/// values and `zero` elsewhere and a pruned part holding the pruned values
/// and `zero` elsewhere; at every position one part holds the dense value
/// and the other `zero`, so adding the parts gives back `dense`.
pub proof fn lemma_dense_reconstruction<V: Copy>(
    config: SparseRAMConfig,
    dense: Seq<V>,
    mask: SparseMask,
    w0: SparseRAMWeight<V>,
    w1: SparseRAMWeight<V>,
    r: SparseRAMResult<()>,
    parts: SparseRAMResult<(Vec<V>, Option<Vec<V>>)>,
    zero: V,
)
    requires
        mask.wf(),
        dense.len() == mask.spec_mask().len(),
        config.active_tier == Tier::GPU,
        config.policy is Eager,
        config.pruned_storage is Ram,
        config_outcome(config, dense, mask.spec_shape(), mask, Ok(w0)),
        load_outcome(w0, w1, r, zero),
        dense_parts_outcome(w1, parts, zero),
    ensures
        r is Ok,
        w1.spec_loaded() == Some(Seq::new(dense.len(), |p: int| if mask.spec_mask()[p] { zero } else { dense[p] })),
        dense_of(w1.spec_sparse().entries(), w1.spec_shape(), zero) == crate::sparse::tensor::kept_values(
            dense,
            mask.spec_mask(),
            zero,
        ),
        parts matches Ok(pp) && pp.1 is Some && pp.0@.len() == dense.len() && pp.1->0@.len() == dense.len(),
        parts matches Ok(pp) && forall|p: int|
            0 <= p < dense.len() ==> (#[trigger] pp.0@[p] == if mask.spec_mask()[p] { dense[p] } else { zero })
                && pp.1->0@[p] == if mask.spec_mask()[p] { zero } else { dense[p] },
{
    lemma_pruned_scatter(dense, mask, zero);
    crate::sparse::convert::lemma_masked_dense(mask.spec_mask(), dense, mask.spec_shape(), zero);
}

/// Pruned values read from their file, loaded and offloaded again, live in
/// the file again, with nothing loaded and all else unchanged.
pub proof fn lemma_disk_load_offload_round_trip<V: Copy>(
    w0: SparseRAMWeight<V>,
    w1: SparseRAMWeight<V>,
    w2: SparseRAMWeight<V>,
    entries: Seq<(usize, usize, V)>,
    r1: SparseRAMResult<()>,
    r2: SparseRAMResult<()>,
    zero: V,
)
    requires
        w0.needs_disk_read(),
        disk_load_outcome(w0, w1, entries, r1, zero),
        offload_outcome(w1, w2, r2),
    ensures
        r1 is Ok,
        r2 is Ok,
        w2.spec_loaded() is None,
        w2.spec_location() == PrunedLocation::Disk,
        w2.spec_pruned() == w0.spec_pruned(),
        w2.spec_sparse() == w0.spec_sparse(),
        w2.spec_mode() == w0.spec_mode(),
{
}

/// Reconstruction of the dense weight with the pruned values in a file: a
/// weight built with file storage, once the entries written for it are read
/// back and loaded, gives through `to_dense_parts` a kept part holding the
/// kept values and `zero` elsewhere and a pruned part holding the pruned
/// values and `zero` elsewhere, so adding the parts gives back `dense`.
pub proof fn lemma_disk_dense_reconstruction<V: Copy>(
    config: SparseRAMConfig,
    dense: Seq<V>,
    mask: SparseMask,
    w0: SparseRAMWeight<V>,
    w1: SparseRAMWeight<V>,
    r: SparseRAMResult<()>,
    parts: SparseRAMResult<(Vec<V>, Option<Vec<V>>)>,
    zero: V,
)
    requires
        mask.wf(),
        dense.len() == mask.spec_mask().len(),
        config.active_tier == Tier::GPU,
        config.policy is Eager,
        config.pruned_storage is Disk,
        config_outcome(config, dense, mask.spec_shape(), mask, Ok(w0)),
        disk_load_outcome(w0, w1, pruned_triples(dense, mask.spec_shape()[1], mask.spec_pruned()), r, zero),
        dense_parts_outcome(w1, parts, zero),
    ensures
        parts matches Ok(pp) && pp.1 is Some && pp.0@.len() == dense.len() && pp.1->0@.len() == dense.len(),
        parts matches Ok(pp) && forall|p: int|
            0 <= p < dense.len() ==> (#[trigger] pp.0@[p] == if mask.spec_mask()[p] { dense[p] } else { zero })
                && pp.1->0@[p] == if mask.spec_mask()[p] { zero } else { dense[p] },
        w0.spec_location() == PrunedLocation::Disk,
        w0.spec_mode() == LifecycleMode::Training,
        w1.spec_loaded() == Some(Seq::new(dense.len(), |p: int| if mask.spec_mask()[p] { zero } else { dense[p] })),
        dense_of(w1.spec_sparse().entries(), w1.spec_shape(), zero) == crate::sparse::tensor::kept_values(
            dense,
            mask.spec_mask(),
            zero,
        ),
{
    lemma_pruned_scatter(dense, mask, zero);
    crate::sparse::convert::lemma_masked_dense(mask.spec_mask(), dense, mask.spec_shape(), zero);
}

proof fn lemma_pruned_triples_placed<V>(dense: Seq<V>, mask: SparseMask)
    requires
        mask.wf(),
        dense.len() == mask.spec_mask().len(),
    ensures
        entries_placed(pruned_triples(dense, mask.spec_shape()[1], mask.spec_pruned()), mask.spec_shape()),
{
    let shape = mask.spec_shape();
    let n_cols = shape[1];
    let pr = mask.spec_pruned();
    let t = pruned_triples(dense, n_cols, pr);
    assert forall|k: int| 0 <= k < t.len() implies (#[trigger] t[k]).0 < shape[0] && t[k].1 < shape[1] by {
        let x = pr[k] as int;
        assert(x < shape[0] * shape[1]);
        if n_cols == 0 {
            assert(shape[0] * shape[1] == 0) by (nonlinear_arith)
                requires
                    shape[1] == 0,
            ;
        }
        crate::sparse::dense::lemma_position_cell(x, shape[0] as int, n_cols as int);
    }
    assert forall|k1: int, k2: int| 0 <= k1 < k2 < t.len() implies entry_position(#[trigger] t[k1], n_cols)
        != entry_position(#[trigger] t[k2], n_cols) by {
        let x1 = pr[k1] as int;
        let x2 = pr[k2] as int;
        assert(x1 < shape[0] * shape[1] && x2 < shape[0] * shape[1]);
        if n_cols == 0 {
            assert(shape[0] * shape[1] == 0) by (nonlinear_arith)
                requires
                    shape[1] == 0,
            ;
        }
        crate::sparse::dense::lemma_position_cell(x1, shape[0] as int, n_cols as int);
        crate::sparse::dense::lemma_position_cell(x2, shape[0] as int, n_cols as int);
        assert(pr[k1] != pr[k2]);
    }
}


} // verus!
