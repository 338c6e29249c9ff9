//! Blocks: the unit of memory management of a tiered sparse weight.

use vstd::prelude::*;
use super::tier::Tier;

verus! {

/// Physical location of a block's data.
#[derive(Debug, Clone, PartialEq, Eq, Structural)]
pub enum BlockLocation {
    /// On the GPU, at `offset` in the values array
    GPU { offset: usize },
    /// In RAM, at `index` in the backing store
    RAM { index: usize },
    /// On disk, at byte `offset` of the backing file
    Disk { offset: u64 },
    /// Deleted: no storage
    Deleted,
}

/// The tier that a location lies in.
pub open spec fn location_tier(l: BlockLocation) -> Tier {
    match l {
        BlockLocation::GPU { .. } => Tier::GPU,
        BlockLocation::RAM { .. } => Tier::RAM,
        BlockLocation::Disk { .. } => Tier::Disk,
        BlockLocation::Deleted => Tier::Deleted,
    }
}

impl BlockLocation {
    /// The tier this location corresponds to.
    pub fn tier(&self) -> (t: Tier)
        ensures
            t == location_tier(*self),
    {
        match self {
            BlockLocation::GPU { .. } => Tier::GPU,
            BlockLocation::RAM { .. } => Tier::RAM,
            BlockLocation::Disk { .. } => Tier::Disk,
            BlockLocation::Deleted => Tier::Deleted,
        }
    }

    /// Whether the location holds data.
    pub fn has_storage(&self) -> (r: bool)
        ensures
            r == !(*self is Deleted),
    {
        !matches!(self, BlockLocation::Deleted)
    }
}

/// A square block of a weight matrix with its metadata.
#[derive(Debug, Clone, PartialEq, Eq, Structural)]
pub struct Block {
    /// Block row (in block units)
    pub row: usize,
    /// Block column (in block units)
    pub col: usize,
    /// Side length of the block
    pub size: usize,
    /// Whether the block is active (non-zero) or pruned
    pub is_active: bool,
    /// Current physical location
    pub location: BlockLocation,
}

impl Block {
    /// A new block with no storage.
    pub fn new(row: usize, col: usize, size: usize, is_active: bool) -> (b: Self)
        ensures
            b == (Block { row, col, size, is_active, location: BlockLocation::Deleted }),
    {
        Block { row, col, size, is_active, location: BlockLocation::Deleted }
    }

    /// The tier where the block resides.
    pub fn tier(&self) -> (t: Tier)
        ensures
            t == location_tier(self.location),
    {
        self.location.tier()
    }

    /// The block's coordinates `(row, col)`.
    pub fn coords(&self) -> (c: (usize, usize))
        ensures
            c == (self.row, self.col),
    {
        (self.row, self.col)
    }

    /// Number of elements in the block.
    pub fn num_elements(&self) -> (n: usize)
        requires
            self.size * self.size <= usize::MAX,
        ensures
            n == self.size * self.size,
    {
        self.size * self.size
    }

    /// Memory footprint in bytes for elements of `elem_size` bytes; a block
    /// without storage takes none.
    pub fn memory_bytes(&self, elem_size: usize) -> (n: usize)
        requires
            !(self.location is Deleted) ==> self.size * self.size <= usize::MAX && self.size
                * self.size * elem_size <= usize::MAX,
        ensures
            n == if self.location is Deleted { 0 } else { self.size * self.size * elem_size },
    {
        if self.location.has_storage() {
            self.num_elements() * elem_size
        } else {
            0
        }
    }

    /// Element range `(row_start, row_end, col_start, col_end)` of the block
    /// in the full matrix.
    pub fn element_range(&self) -> (r: (usize, usize, usize, usize))
        requires
            self.row * self.size + self.size <= usize::MAX,
            self.col * self.size + self.size <= usize::MAX,
        ensures
            r.0 == self.row * self.size,
            r.1 == self.row * self.size + self.size,
            r.2 == self.col * self.size,
            r.3 == self.col * self.size + self.size,
    {
        let row_start = self.row * self.size;
        let row_end = row_start + self.size;
        let col_start = self.col * self.size;
        let col_end = col_start + self.size;
        (row_start, row_end, col_start, col_end)
    }
}

/// A block with its values, row-major inside the block.
#[derive(Debug, Clone)]
pub struct BlockData<V> {
    /// Block metadata
    pub block: Block,
    /// The block's values, `size * size` of them
    pub data: Vec<V>,
}

impl<V> BlockData<V> {
    /// A block with its values.
    pub fn new(block: Block, data: Vec<V>) -> (r: Self)
        ensures
            r.block == block,
            r.data@ == data@,
    {
        BlockData { block, data }
    }

    /// The bytes the values take, 4 per value.
    pub fn memory_bytes(&self) -> (r: usize)
        requires
            self.data@.len() * 4 <= usize::MAX,
        ensures
            r == self.data@.len() * 4,
    {
        self.data.len() * 4
    }
}

} // verus!
