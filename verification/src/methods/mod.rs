//! Pieces of the pruning methods that work on masks alone: rewiring a mask
//! by swapping positions, choosing swap candidates from a ranking, and the
//! schedule of mask updates.

pub mod schedule;
pub mod swap;
