//! Core sparse tensor infrastructure: storage formats, errors, structural
//! validation, sparse tensors over plain values, format conversion and
//! sparsity masks.

pub mod error;
pub mod convert;
pub mod dense;
pub mod reorder;
pub mod format;
pub mod mask;
pub mod tensor;
pub mod validate;

pub use error::{SparseError, SparseResult};
pub use format::SparseFormat;
