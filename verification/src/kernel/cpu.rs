//! The CPU kernel's capabilities.

use vstd::prelude::*;
use crate::sparse::format::SparseFormat;
use super::api::KernelSupport;

verus! {

/// The CPU sparse kernel: multiplies CSR and coordinate storage directly,
/// other formats after conversion to CSR.
#[derive(Debug, Clone, Copy)]
pub struct CpuKernel;

/// The CPU kernel's support of a format.
pub open spec fn cpu_support(format: SparseFormat) -> KernelSupport {
    match format {
        SparseFormat::CSR | SparseFormat::COO => KernelSupport::Supported,
        _ => KernelSupport::SupportedWithConversion(SparseFormat::CSR),
    }
}

impl CpuKernel {
    /// How the CPU kernel supports `format`.
    pub fn supports(format: SparseFormat) -> (r: KernelSupport)
        ensures
            r == cpu_support(format),
    {
        match format {
            SparseFormat::CSR => KernelSupport::Supported,
            SparseFormat::COO => KernelSupport::Supported,
            SparseFormat::Mask => KernelSupport::SupportedWithConversion(SparseFormat::CSR),
            SparseFormat::CSC => KernelSupport::SupportedWithConversion(SparseFormat::CSR),
            SparseFormat::BlockCSR { .. } => KernelSupport::SupportedWithConversion(SparseFormat::CSR),
            SparseFormat::NInM { .. } => KernelSupport::SupportedWithConversion(SparseFormat::CSR),
        }
    }
}

} // verus!
