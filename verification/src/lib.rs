//! Sparse tensor infrastructure: storage formats, structural validation,
//! format conversion, sparsity masks, kernel and backend capabilities, and
//! tiered memory management of sparse weights.

pub mod backend;
pub mod experimental;
pub mod kernel;
pub mod methods;
pub mod sparse;
pub mod text;
