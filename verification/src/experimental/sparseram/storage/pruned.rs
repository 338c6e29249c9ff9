//! Storage of pruned values kept in memory.

use vstd::prelude::*;
use crate::text::{decimal, push_usize_decimal};
use super::super::error::{SparseRAMError, SparseRAMResult};

verus! {

/// Where the pruned values currently live.
#[derive(Debug, Clone, Copy, PartialEq, Eq, Structural)]
pub enum PrunedLocation {
    /// Pruned values were discarded
    Discarded,
    /// In host memory
    Ram,
    /// In a memory-mapped file
    Disk,
    /// Loaded to the accelerator
    Gpu,
}

/// The pruned values of a weight: discarded, kept in memory as
/// `(row, col, value)` entries, or kept in a memory-mapped file, of which
/// the library holds the entry count while the file's owner reads and
/// writes it.
#[derive(Debug, Clone)]
pub enum PrunedStorage<V> {
    /// Pruned values are discarded
    Discard,
    /// Pruned values kept in host memory
    Ram { values: Vec<(usize, usize, V)> },
    /// Pruned values kept in a memory-mapped file of `num_values` entries
    Disk { num_values: usize },
}

/// The message of an index past the stored values.
pub open spec fn index_out_of_bounds(index: usize) -> Seq<char> {
    "Value index "@ + decimal(index as nat) + " out of bounds"@
}

impl<V: Copy> PrunedStorage<V> {
    /// The entries held in memory; none when discarded or kept in a file.
    pub open spec fn entries(&self) -> Seq<(usize, usize, V)> {
        match self {
            PrunedStorage::Discard => Seq::empty(),
            PrunedStorage::Ram { values } => values@,
            PrunedStorage::Disk { .. } => Seq::empty(),
        }
    }

    /// The number of stored entries, in memory or in the file.
    pub open spec fn spec_num_values(&self) -> nat {
        match self {
            PrunedStorage::Disk { num_values } => *num_values as nat,
            _ => self.entries().len(),
        }
    }

    /// The host-memory bytes of the storage: 20 per entry in memory, and a
    /// fixed 1024 for the bookkeeping of a file.
    pub open spec fn spec_memory_bytes(&self) -> nat {
        match self {
            PrunedStorage::Disk { .. } => 1024,
            _ => self.entries().len() * 20,
        }
    }

    /// A storage of `num_values` entries in a memory-mapped file.
    pub fn new_disk(num_values: usize) -> (s: Self)
        ensures
            s == (PrunedStorage::<V>::Disk { num_values }),
    {
        PrunedStorage::Disk { num_values }
    }

    /// An empty in-memory storage.
    pub fn new_ram() -> (s: Self)
        ensures
            s is Ram,
            s.entries().len() == 0,
    {
        PrunedStorage::Ram { values: Vec::new() }
    }

    /// Whether the pruned values are kept.
    pub fn has_storage(&self) -> (r: bool)
        ensures
            r == !(self is Discard),
    {
        match self {
            PrunedStorage::Discard => false,
            PrunedStorage::Ram { .. } => true,
            PrunedStorage::Disk { .. } => true,
        }
    }

    /// The number of stored entries.
    pub fn num_values(&self) -> (r: usize)
        ensures
            r == self.spec_num_values(),
    {
        match self {
            PrunedStorage::Discard => 0,
            PrunedStorage::Ram { values } => values.len(),
            PrunedStorage::Disk { num_values } => *num_values,
        }
    }

    /// Stores `pruned_values`, replacing what was stored; discarded storage
    /// drops them. A file is written by its owner, not here.
    pub fn set_values(&mut self, pruned_values: Vec<(usize, usize, V)>) -> (r: SparseRAMResult<()>)
        requires
            !(*old(self) is Disk),
        ensures
            r is Ok,
            *final(self) is Discard <==> *old(self) is Discard,
            *final(self) is Ram <==> *old(self) is Ram,
            !(*old(self) is Discard) ==> final(self).entries() == pruned_values@,
    {
        match self {
            PrunedStorage::Discard => Ok(()),
            PrunedStorage::Ram { values } => {
                *values = pruned_values;
                Ok(())
            },
            PrunedStorage::Disk { .. } => Ok(()),
        }
    }

    /// The entry at `index`; discarded storage has none. A file is read by
    /// its owner, not here.
    pub fn get_value(&self, index: usize) -> (r: SparseRAMResult<(usize, usize, V)>)
        requires
            !(self is Disk),
        ensures
            self is Discard ==> (r matches Err(SparseRAMError::PrunedStorageUnavailable { operation })
                && operation@ == "get_value"@),
            !(self is Discard) && index < self.entries().len() ==> r == Ok::<(usize, usize, V), SparseRAMError>(
                self.entries()[index as int],
            ),
            !(self is Discard) && index >= self.entries().len() ==> (r matches Err(
                SparseRAMError::ConversionError { reason },
            ) && reason@ == index_out_of_bounds(index)),
    {
        match self {
            PrunedStorage::Discard => Err(
                SparseRAMError::PrunedStorageUnavailable { operation: String::from_str("get_value") },
            ),
            PrunedStorage::Ram { values } => {
                if index < values.len() {
                    Ok(values[index])
                } else {
                    let mut reason = String::from_str("Value index ");
                    push_usize_decimal(&mut reason, index);
                    reason.append(" out of bounds");
                    Err(SparseRAMError::ConversionError { reason })
                }
            },
            PrunedStorage::Disk { .. } => Err(
                SparseRAMError::PrunedStorageUnavailable { operation: String::from_str("get_value") },
            ),
        }
    }

    /// The host-memory bytes of the storage, 20 per entry in memory and a
    /// fixed 1024 for a file.
    pub fn memory_bytes(&self) -> (r: usize)
        requires
            self.entries().len() * 20 <= usize::MAX,
        ensures
            r == self.spec_memory_bytes(),
    {
        match self {
            PrunedStorage::Discard => 0,
            PrunedStorage::Ram { values } => values.len() * 20,
            PrunedStorage::Disk { .. } => 1024,
        }
    }

    /// Where the pruned values live when first stored.
    pub fn initial_location(&self) -> (r: PrunedLocation)
        ensures
            self is Discard ==> r == PrunedLocation::Discarded,
            self is Ram ==> r == PrunedLocation::Ram,
            self is Disk ==> r == PrunedLocation::Disk,
    {
        match self {
            PrunedStorage::Discard => PrunedLocation::Discarded,
            PrunedStorage::Ram { .. } => PrunedLocation::Ram,
            PrunedStorage::Disk { .. } => PrunedLocation::Disk,
        }
    }
}

} // verus!
