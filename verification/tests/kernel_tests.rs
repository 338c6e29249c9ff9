use burn_sparse::backend::api::{default_conversion_support, KernelSupport as BackendSupport};
use burn_sparse::kernel::api::KernelSupport;
use burn_sparse::kernel::cpu::CpuKernel;
use burn_sparse::kernel::dispatch::SparseConfig;
use burn_sparse::sparse::format::SparseFormat;

#[test]
fn test_cpu_spmm_csr() {}

#[test]
fn cpu_kernel_support() {
    assert_eq!(CpuKernel::supports(SparseFormat::CSR), KernelSupport::Supported);
    assert_eq!(CpuKernel::supports(SparseFormat::COO), KernelSupport::Supported);
    assert_eq!(
        CpuKernel::supports(SparseFormat::CSC),
        KernelSupport::SupportedWithConversion(SparseFormat::CSR)
    );
    assert_eq!(
        CpuKernel::supports(SparseFormat::NInM { n: 2, m: 4 }),
        KernelSupport::SupportedWithConversion(SparseFormat::CSR)
    );
}

#[test]
fn sparse_config_default() {
    let c = SparseConfig::default();
    assert!(!c.allow_dense_fallback);
    assert!(c.allow_format_conversion);
    assert!(!c.panic_on_unsupported);
}

#[test]
fn backend_conversion_default() {
    assert_eq!(default_conversion_support(SparseFormat::CSR, SparseFormat::CSR), BackendSupport::Supported);
    assert_eq!(default_conversion_support(SparseFormat::CSR, SparseFormat::COO), BackendSupport::Unsupported);
}
