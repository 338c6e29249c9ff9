//! Error type of the tiered sparse-weight subsystem.

use vstd::prelude::*;
use crate::text::{decimal, push_decimal};

verus! {

/// Errors that can occur in tiered sparse-weight operations.
#[derive(Debug, Clone, PartialEq, Eq)]
pub enum SparseRAMError {
    /// Invalid configuration
    InvalidConfig { reason: String },
    /// Invalid block size
    InvalidBlockSize { size: usize, reason: String },
    /// Dimension mismatch
    DimensionMismatch { expected: [usize; 2], actual: [usize; 2] },
    /// Operation not allowed in the current lifecycle mode
    LifecycleViolation { operation: String, mode: String },
    /// Pruned storage not available
    PrunedStorageUnavailable { operation: String },
    /// Block not found
    BlockNotFound { row: usize, col: usize },
    /// I/O error (disk operations)
    IoError { message: String },
    /// Residency engine error
    ResidencyError { message: String },
    /// Conversion error
    ConversionError { reason: String },
    /// Serialization error
    SerializationError { reason: String },
}

/// Result type of tiered sparse-weight operations.
pub type SparseRAMResult<T> = Result<T, SparseRAMError>;

/// The text `[a, b]` that lists a pair of dimensions.
pub open spec fn dims_text(d: [usize; 2]) -> Seq<char> {
    "["@ + decimal(d[0] as nat) + ", "@ + decimal(d[1] as nat) + "]"@
}

impl SparseRAMError {
    /// The human-readable description of the error.
    pub open spec fn message(self) -> Seq<char> {
        match self {
            SparseRAMError::InvalidConfig { reason } =>
                "Invalid SparseRAM configuration: "@ + reason@,
            SparseRAMError::InvalidBlockSize { size, reason } =>
                "Invalid block size "@ + decimal(size as nat) + ": "@ + reason@,
            SparseRAMError::DimensionMismatch { expected, actual } =>
                "Dimension mismatch: expected "@ + dims_text(expected) + ", got "@ + dims_text(actual),
            SparseRAMError::LifecycleViolation { operation, mode } =>
                "Operation '"@ + operation@ + "' not allowed in "@ + mode@ + " mode"@,
            SparseRAMError::PrunedStorageUnavailable { operation } =>
                "Operation '"@ + operation@
                    + "' requires pruned storage, but PrunedStorage::None is set"@,
            SparseRAMError::BlockNotFound { row, col } =>
                "Block not found at position ("@ + decimal(row as nat) + ", "@ + decimal(col as nat)
                    + ")"@,
            SparseRAMError::IoError { message } => "I/O error: "@ + message@,
            SparseRAMError::ResidencyError { message } => "Residency engine error: "@ + message@,
            SparseRAMError::ConversionError { reason } => "Conversion error: "@ + reason@,
            SparseRAMError::SerializationError { reason } => "Serialization error: "@ + reason@,
        }
    }

    /// Renders the error as text.
    pub fn to_string(&self) -> (s: String)
        ensures
            s@ == self.message(),
    {
        match self {
            SparseRAMError::InvalidConfig { reason } => {
                let s = String::from_str("Invalid SparseRAM configuration: ");
                s.concat(reason.as_str())
            },
            SparseRAMError::InvalidBlockSize { size, reason } => {
                let mut s = String::from_str("Invalid block size ");
                push_decimal(&mut s, *size as u64);
                s.append(": ");
                s.append(reason.as_str());
                s
            },
            SparseRAMError::DimensionMismatch { expected, actual } => {
                let mut s = String::from_str("Dimension mismatch: expected ");
                push_dims(&mut s, *expected);
                s.append(", got ");
                push_dims(&mut s, *actual);
                s
            },
            SparseRAMError::LifecycleViolation { operation, mode } => {
                let mut s = String::from_str("Operation '");
                s.append(operation.as_str());
                s.append("' not allowed in ");
                s.append(mode.as_str());
                s.append(" mode");
                s
            },
            SparseRAMError::PrunedStorageUnavailable { operation } => {
                let mut s = String::from_str("Operation '");
                s.append(operation.as_str());
                s.append("' requires pruned storage, but PrunedStorage::None is set");
                s
            },
            SparseRAMError::BlockNotFound { row, col } => {
                let mut s = String::from_str("Block not found at position (");
                push_decimal(&mut s, *row as u64);
                s.append(", ");
                push_decimal(&mut s, *col as u64);
                s.append(")");
                s
            },
            SparseRAMError::IoError { message } => {
                let s = String::from_str("I/O error: ");
                s.concat(message.as_str())
            },
            SparseRAMError::ResidencyError { message } => {
                let s = String::from_str("Residency engine error: ");
                s.concat(message.as_str())
            },
            SparseRAMError::ConversionError { reason } => {
                let s = String::from_str("Conversion error: ");
                s.concat(reason.as_str())
            },
            SparseRAMError::SerializationError { reason } => {
                let s = String::from_str("Serialization error: ");
                s.concat(reason.as_str())
            },
        }
    }
}

/// Appends `[a, b]` to `s`.
fn push_dims(s: &mut String, d: [usize; 2])
    ensures
        final(s)@ == old(s)@ + dims_text(d),
{
    s.append("[");
    push_decimal(s, d[0] as u64);
    s.append(", ");
    push_decimal(s, d[1] as u64);
    s.append("]");
}

} // verus!
