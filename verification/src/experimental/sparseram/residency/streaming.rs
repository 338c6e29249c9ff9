//! Streaming residency: blocks are read from disk in order, one block in
//! fast memory at a time, with a buffer of prefetched blocks.

use vstd::prelude::*;
use std::collections::VecDeque;
use std::path::PathBuf;
use crate::sparse::tensor::SparseTensor;
use super::super::error::{SparseRAMError, SparseRAMResult};

verus! {

/// Streams blocks of side `block_size` from a file, keeping prefetched
/// blocks in a host-memory buffer.
#[derive(Debug)]
pub struct StreamingEngine<V> {
    disk_path: PathBuf,
    prefetch_depth: usize,
    current_idx: usize,
    prefetch_buffer: VecDeque<Vec<V>>,
    block_size: usize,
    shape: [usize; 2],
    current_sparse: Option<SparseTensor<V>>,
}

impl<V> StreamingEngine<V> {
    /// The side of the blocks.
    pub closed spec fn spec_block_size(&self) -> nat {
        self.block_size as nat
    }

    /// The number of prefetched blocks held.
    pub closed spec fn spec_buffered(&self) -> nat {
        self.prefetch_buffer@.len()
    }

    /// The number of blocks read ahead.
    pub closed spec fn spec_prefetch_depth(&self) -> nat {
        self.prefetch_depth as nat
    }

    /// The shape of the streamed matrix.
    pub closed spec fn spec_shape(&self) -> [usize; 2] {
        self.shape
    }

    /// The file the blocks are streamed from.
    pub closed spec fn spec_disk_path(&self) -> PathBuf {
        self.disk_path
    }

    /// The footprints of one block and of the buffer fit in a `usize`.
    pub closed spec fn wf(&self) -> bool {
        &&& self.block_size * self.block_size * 4 <= usize::MAX
        &&& self.prefetch_buffer@.len() * (self.block_size * self.block_size * 4) <= usize::MAX
    }

    /// An engine over the file at `disk_path`, with an empty buffer.
    pub fn new(disk_path: PathBuf, prefetch_depth: usize, block_size: usize, shape: [usize; 2]) -> (r: SparseRAMResult<
        Self,
    >)
        requires
            block_size * block_size * 4 <= usize::MAX,
        ensures
            r matches Ok(e) && e.wf() && e.spec_block_size() == block_size && e.spec_buffered() == 0
                && e.spec_prefetch_depth() == prefetch_depth && e.spec_shape() == shape
                && e.spec_disk_path() == disk_path,
    {
        Ok(
            StreamingEngine {
                disk_path,
                prefetch_depth,
                current_idx: 0,
                prefetch_buffer: VecDeque::new(),
                block_size,
                shape,
                current_sparse: None,
            },
        )
    }

    /// Starts the background prefetch; there is nothing to start yet.
    pub fn start_prefetch(&self) -> (r: SparseRAMResult<()>)
        ensures
            r is Ok,
    {
        Ok(())
    }

    /// The next block: the oldest prefetched one, or else a read from disk,
    /// which is not available yet.
    fn load_next_block(&mut self) -> (r: SparseRAMResult<Vec<V>>)
        ensures
            old(self).spec_buffered() > 0 ==> r == Ok::<Vec<V>, SparseRAMError>(old(self).prefetch_buffer@[0])
                && final(self).prefetch_buffer@ == old(self).prefetch_buffer@.drop_first(),
            old(self).spec_buffered() == 0 ==> r is Err && final(self).prefetch_buffer@ == old(
                self,
            ).prefetch_buffer@,
    {
        match self.prefetch_buffer.pop_front() {
            Some(block) => Ok(block),
            None => self.read_block_from_disk(self.current_idx),
        }
    }

    /// Reads a block from disk; not available yet.
    fn read_block_from_disk(&self, block_idx: usize) -> (r: SparseRAMResult<Vec<V>>)
        ensures
            r matches Err(SparseRAMError::ResidencyError { message }) && message@ == "Disk I/O not yet implemented"@,
    {
        Err(SparseRAMError::ResidencyError { message: String::from_str("Disk I/O not yet implemented") })
    }

    /// The streamed tensor; streaming is not available yet.
    pub fn get_sparse(&mut self) -> (r: SparseRAMResult<&SparseTensor<V>>)
        ensures
            *final(self) == *old(self),
            r matches Err(SparseRAMError::ResidencyError { message }) && message@ == "Streaming not yet implemented"@,
    {
        Err(SparseRAMError::ResidencyError { message: String::from_str("Streaming not yet implemented") })
    }

    /// Fast-memory bytes in use: one block of 4-byte values.
    pub fn vram_usage(&self) -> (r: usize)
        requires
            self.wf(),
        ensures
            r == self.spec_block_size() * self.spec_block_size() * 4,
    {
        self.block_size * self.block_size * 4
    }

    /// Host-memory bytes in use: the buffered blocks.
    pub fn ram_usage(&self) -> (r: usize)
        requires
            self.wf(),
        ensures
            r == self.spec_buffered() * (self.spec_block_size() * self.spec_block_size() * 4),
    {
        self.prefetch_buffer.len() * (self.block_size * self.block_size * 4)
    }

    /// Prefetching given blocks does nothing yet.
    pub fn prefetch(&mut self, block_ids: &[usize])
        ensures
            *final(self) == *old(self),
    {
    }

    /// The number of blocks read ahead.
    pub fn prefetch_depth(&self) -> (r: usize)
        ensures
            r == self.spec_prefetch_depth(),
    {
        self.prefetch_depth
    }

    /// The file the blocks are streamed from.
    pub fn disk_path(&self) -> (r: &PathBuf)
        ensures
            *r == self.spec_disk_path(),
    {
        &self.disk_path
    }

    /// The policy's name.
    pub fn name(&self) -> (s: &'static str)
        ensures
            s@ == "Streaming"@,
    {
        "Streaming"
    }
}

} // verus!
