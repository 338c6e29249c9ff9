//! Configuration of sparse operation dispatch.

use vstd::prelude::*;

verus! {

/// How sparse operations may fall back when a format is not supported.
#[derive(Debug, Clone, Copy, PartialEq, Eq, Structural)]
pub struct SparseConfig {
    /// Allow a dense fallback when no sparse kernel exists
    pub allow_dense_fallback: bool,
    /// Allow automatic conversion between formats
    pub allow_format_conversion: bool,
    /// Panic instead of returning an error on unsupported operations
    pub panic_on_unsupported: bool,
}

impl Default for SparseConfig {
    /// No dense fallback, format conversion allowed, errors rather than panics.
    fn default() -> (c: Self)
        ensures
            c == (SparseConfig {
                allow_dense_fallback: false,
                allow_format_conversion: true,
                panic_on_unsupported: false,
            }),
    {
        SparseConfig { allow_dense_fallback: false, allow_format_conversion: true, panic_on_unsupported: false }
    }
}

} // verus!
