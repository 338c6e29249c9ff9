//! Residency management of the active data across memory tiers.

pub mod cache;
pub mod eager;
pub mod paged;
pub mod streaming;

pub use cache::LRUCache;
pub use eager::EagerEngine;
pub use paged::PagedCache;
pub use streaming::StreamingEngine;
