//! Lifecycle of a tiered sparse weight: training (reversible, pruned values
//! kept) versus inference (irreversible, pruned values deleted).

use vstd::prelude::*;
use super::error::SparseRAMError;

verus! {

/// Lifecycle mode of a tiered sparse weight.
#[derive(Debug, Clone, Copy, PartialEq, Eq, Hash, Structural)]
pub enum LifecycleMode {
    /// Training mode: pruned values available
    Training,
    /// Inference mode: pruned values deleted
    Inference,
}

/// Operations that may be restricted by the lifecycle mode.
#[derive(Debug, Clone, Copy, PartialEq, Eq, Hash, Structural)]
pub enum LifecycleOperation {
    /// Sparse inference (forward pass)
    SparseInference,
    /// Conversion to a dense tensor
    ToDense,
    /// Regrowth of pruned weights
    Regrowth,
    /// Optimisation of pruned coordinates
    ResuOptimization,
    /// Update of the sparsity mask
    MaskUpdate,
    /// Saving or loading the model
    SaveLoad,
}

/// Whether `op` may run in `mode`: training allows everything, inference
/// allows only sparse inference and saving/loading.
pub open spec fn spec_allows(mode: LifecycleMode, op: LifecycleOperation) -> bool {
    match mode {
        LifecycleMode::Training => true,
        LifecycleMode::Inference => op == LifecycleOperation::SparseInference
            || op == LifecycleOperation::SaveLoad,
    }
}

/// The name of a lifecycle mode.
pub open spec fn mode_name(mode: LifecycleMode) -> Seq<char> {
    match mode {
        LifecycleMode::Training => "Training"@,
        LifecycleMode::Inference => "Inference"@,
    }
}

/// The name of a lifecycle operation.
pub open spec fn operation_name(op: LifecycleOperation) -> Seq<char> {
    match op {
        LifecycleOperation::SparseInference => "sparse_inference"@,
        LifecycleOperation::ToDense => "to_dense"@,
        LifecycleOperation::Regrowth => "regrowth"@,
        LifecycleOperation::ResuOptimization => "resu_optimization"@,
        LifecycleOperation::MaskUpdate => "mask_update"@,
        LifecycleOperation::SaveLoad => "save_load"@,
    }
}

impl LifecycleMode {
    /// Whether the weight is in training mode.
    pub fn is_training(self) -> (r: bool)
        ensures
            r == (self == LifecycleMode::Training),
    {
        matches!(self, LifecycleMode::Training)
    }

    /// Whether the weight is in inference mode.
    pub fn is_inference(self) -> (r: bool)
        ensures
            r == (self == LifecycleMode::Inference),
    {
        matches!(self, LifecycleMode::Inference)
    }

    /// The mode's name.
    pub fn name(self) -> (s: &'static str)
        ensures
            s@ == mode_name(self),
    {
        match self {
            LifecycleMode::Training => "Training",
            LifecycleMode::Inference => "Inference",
        }
    }

    /// Whether `op` is allowed in this mode.
    pub fn allows_operation(self, op: LifecycleOperation) -> (r: bool)
        ensures
            r == spec_allows(self, op),
    {
        match (self, op) {
            (LifecycleMode::Inference, LifecycleOperation::SparseInference) => true,
            (LifecycleMode::Inference, LifecycleOperation::SaveLoad) => true,
            (LifecycleMode::Inference, _) => false,
            (LifecycleMode::Training, _) => true,
        }
    }

    /// The mode rendered as text (its name).
    pub fn to_string(self) -> (s: String)
        ensures
            s@ == mode_name(self),
    {
        String::from_str(self.name())
    }
}

impl LifecycleOperation {
    /// The operation's name.
    pub fn name(self) -> (s: &'static str)
        ensures
            s@ == operation_name(self),
    {
        match self {
            LifecycleOperation::SparseInference => "sparse_inference",
            LifecycleOperation::ToDense => "to_dense",
            LifecycleOperation::Regrowth => "regrowth",
            LifecycleOperation::ResuOptimization => "resu_optimization",
            LifecycleOperation::MaskUpdate => "mask_update",
            LifecycleOperation::SaveLoad => "save_load",
        }
    }
}

/// Checks that `operation` is allowed in `mode`; otherwise reports a
/// lifecycle violation naming both.
pub fn check_lifecycle(mode: LifecycleMode, operation: LifecycleOperation) -> (r: Result<
    (),
    SparseRAMError,
>)
    ensures
        r is Ok <==> spec_allows(mode, operation),
        r matches Err(e) ==> e matches SparseRAMError::LifecycleViolation { operation: o, mode: m }
            && o@ == operation_name(operation) && m@ == mode_name(mode),
{
    if mode.allows_operation(operation) {
        Ok(())
    } else {
        Err(
            SparseRAMError::LifecycleViolation {
                operation: String::from_str(operation.name()),
                mode: String::from_str(mode.name()),
            },
        )
    }
}

/// Training mode allows every operation, so inference mode allows nothing
/// that training refuses; inference mode refuses conversion to dense.
pub proof fn lemma_inference_allows_subset_of_training(op: LifecycleOperation)
    ensures
        spec_allows(LifecycleMode::Inference, op) ==> spec_allows(LifecycleMode::Training, op),
        spec_allows(LifecycleMode::Training, op),
        !spec_allows(LifecycleMode::Inference, LifecycleOperation::ToDense),
{
}

} // verus!
