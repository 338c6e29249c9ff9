//! Sparse kernels: capabilities of a kernel per storage format, the CPU
//! kernel, and dispatch configuration.

pub mod api;
pub mod cpu;
pub mod dispatch;

pub use api::KernelSupport;
pub use cpu::CpuKernel;
pub use dispatch::SparseConfig;
