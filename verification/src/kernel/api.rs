//! What a kernel can do with a storage format.

use vstd::prelude::*;
use crate::sparse::format::SparseFormat;

verus! {

/// How a kernel supports a storage format.
#[derive(Debug, Clone, Copy, PartialEq, Eq, Structural)]
pub enum KernelSupport {
    /// Supported with an optimised kernel
    Supported,
    /// Not supported directly, but after conversion to the given format
    SupportedWithConversion(SparseFormat),
    /// Not supported
    Unsupported,
}

} // verus!
