//! What a backend supports natively, per operation and format.

pub mod api;

pub use api::KernelSupport;
