//! Research features built on the core sparse infrastructure.

pub mod sparseram;
