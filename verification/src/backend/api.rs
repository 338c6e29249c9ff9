//! Capabilities of a backend.

use vstd::prelude::*;
use crate::sparse::format::SparseFormat;

verus! {

/// How a backend supports an operation on a storage format.
#[derive(Debug, Clone, Copy, PartialEq, Eq, Structural)]
pub enum KernelSupport {
    /// Native sparse kernel available
    Supported,
    /// Supported after conversion to the given format
    SupportedWithConversion(SparseFormat),
    /// Not supported: the dense fallback is used
    Unsupported,
}

/// The conversion support of a backend without conversion kernels: only the
/// identity conversion.
pub fn default_conversion_support(from: SparseFormat, to: SparseFormat) -> (r: KernelSupport)
    ensures
        r == if from == to {
            KernelSupport::Supported
        } else {
            KernelSupport::Unsupported
        },
{
    if from == to {
        KernelSupport::Supported
    } else {
        KernelSupport::Unsupported
    }
}

/// The multiplication support of a backend without sparse kernels: none.
pub fn default_spmm_support(format: SparseFormat) -> (r: KernelSupport)
    ensures
        r == KernelSupport::Unsupported,
{
    KernelSupport::Unsupported
}

/// The sampled multiplication support of a backend without sparse kernels:
/// none.
pub fn default_sddmm_support(format: SparseFormat) -> (r: KernelSupport)
    ensures
        r == KernelSupport::Unsupported,
{
    KernelSupport::Unsupported
}

} // verus!
