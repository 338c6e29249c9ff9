//! Errors of sparse tensor operations.

use vstd::prelude::*;
use crate::text::{decimal, push_decimal};
use super::format::{SparseFormat, format_name};

verus! {

/// Errors that can occur in sparse tensor operations.
#[derive(Debug, Clone, PartialEq, Eq)]
pub enum SparseError {
    /// Format not supported by a backend
    UnsupportedFormat { backend: String, format: SparseFormat },
    /// Invalid sparse tensor structure
    InvalidTensor { reason: String },
    /// Shape mismatch in an operation
    ShapeMismatch { expected: [usize; 2], got: [usize; 2] },
    /// Format conversion failed
    ConversionFailed { from: SparseFormat, to: SparseFormat, reason: String },
    /// N:M constraint violation
    NInMViolation { details: String },
    /// Backend-specific error
    Backend(String),
    /// Tensors on different devices
    DeviceMismatch,
    /// Invalid operation
    InvalidOperation(String),
}

/// Result type of sparse tensor operations.
pub type SparseResult<T> = Result<T, SparseError>;

/// The text `[a, b]` of a pair of dimensions.
pub open spec fn shape_text(d: [usize; 2]) -> Seq<char> {
    "["@ + decimal(d[0] as nat) + ", "@ + decimal(d[1] as nat) + "]"@
}

impl SparseError {
    /// The human-readable description of the error.
    pub open spec fn message(self) -> Seq<char> {
        match self {
            SparseError::UnsupportedFormat { backend, format } =>
                "Unsupported format "@ + format_name(format) + " on backend "@ + backend@,
            SparseError::InvalidTensor { reason } => "Invalid sparse tensor: "@ + reason@,
            SparseError::ShapeMismatch { expected, got } =>
                "Shape mismatch: expected "@ + shape_text(expected) + ", got "@ + shape_text(got),
            SparseError::ConversionFailed { from, to, reason } =>
                "Format conversion failed: "@ + format_name(from) + " → "@ + format_name(to) + ": "@
                    + reason@,
            SparseError::NInMViolation { details } => "N:M constraint violation: "@ + details@,
            SparseError::Backend(m) => "Backend error: "@ + m@,
            SparseError::DeviceMismatch => "Device mismatch: tensors on different devices"@,
            SparseError::InvalidOperation(m) => "Invalid operation: "@ + m@,
        }
    }

    /// Renders the error as text.
    pub fn to_string(&self) -> (s: String)
        ensures
            s@ == self.message(),
    {
        match self {
            SparseError::UnsupportedFormat { backend, format } => {
                let mut s = String::from_str("Unsupported format ");
                let f = format.to_string();
                s.append(f.as_str());
                s.append(" on backend ");
                s.append(backend.as_str());
                s
            },
            SparseError::InvalidTensor { reason } => {
                let s = String::from_str("Invalid sparse tensor: ");
                s.concat(reason.as_str())
            },
            SparseError::ShapeMismatch { expected, got } => {
                let mut s = String::from_str("Shape mismatch: expected ");
                push_shape(&mut s, *expected);
                s.append(", got ");
                push_shape(&mut s, *got);
                s
            },
            SparseError::ConversionFailed { from, to, reason } => {
                let mut s = String::from_str("Format conversion failed: ");
                let f = from.to_string();
                s.append(f.as_str());
                s.append(" → ");
                let t = to.to_string();
                s.append(t.as_str());
                s.append(": ");
                s.append(reason.as_str());
                s
            },
            SparseError::NInMViolation { details } => {
                let s = String::from_str("N:M constraint violation: ");
                s.concat(details.as_str())
            },
            SparseError::Backend(m) => {
                let s = String::from_str("Backend error: ");
                s.concat(m.as_str())
            },
            SparseError::DeviceMismatch => String::from_str(
                "Device mismatch: tensors on different devices",
            ),
            SparseError::InvalidOperation(m) => {
                let s = String::from_str("Invalid operation: ");
                s.concat(m.as_str())
            },
        }
    }
}

/// Appends `[a, b]` to `s`.
pub(crate) fn push_shape(s: &mut String, d: [usize; 2])
    ensures
        final(s)@ == old(s)@ + shape_text(d),
{
    s.append("[");
    push_decimal(s, d[0] as u64);
    s.append(", ");
    push_decimal(s, d[1] as u64);
    s.append("]");
}

} // verus!
