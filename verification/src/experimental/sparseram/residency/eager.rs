//! Eager residency: the whole sparse tensor stays in fast memory.

use vstd::prelude::*;
use crate::sparse::tensor::SparseTensor;
use super::super::error::SparseRAMResult;

verus! {

/// The fast-memory bytes of `nnz` stored entries: a 4-byte value and two
/// 4-byte indices each.
pub open spec fn eager_vram_bytes(nnz: nat) -> nat {
    nnz * 4 + nnz * 4 * 2
}

/// Keeps the whole sparse tensor resident, with its fast-memory footprint.
#[derive(Debug, Clone)]
pub struct EagerEngine<V> {
    sparse: SparseTensor<V>,
    vram_bytes: usize,
}

impl<V> EagerEngine<V> {
    /// The resident tensor.
    pub closed spec fn spec_sparse(&self) -> SparseTensor<V> {
        self.sparse
    }

    /// The recorded fast-memory footprint.
    pub closed spec fn spec_vram(&self) -> nat {
        self.vram_bytes as nat
    }

    /// An engine over `sparse`, recording 12 bytes per stored entry.
    pub fn new(sparse: SparseTensor<V>) -> (e: Self)
        requires
            sparse.wf(),
            sparse.spec_nnz() * 12 <= usize::MAX,
        ensures
            e.spec_sparse() == sparse,
            e.spec_vram() == eager_vram_bytes(sparse.spec_nnz()),
    {
        let nnz = sparse.nnz();
        let values_bytes = nnz * 4;
        let indices_bytes = nnz * 4 * 2;
        EagerEngine { sparse, vram_bytes: values_bytes + indices_bytes }
    }

    /// The resident tensor; always available.
    pub fn get_sparse(&mut self) -> (r: SparseRAMResult<&SparseTensor<V>>)
        ensures
            *final(self) == *old(self),
            r matches Ok(t) && *t == old(self).spec_sparse(),
    {
        Ok(&self.sparse)
    }

    /// The resident tensor.
    pub fn sparse(&self) -> (t: &SparseTensor<V>)
        ensures
            *t == self.spec_sparse(),
    {
        &self.sparse
    }

    /// Fast-memory bytes in use.
    pub fn vram_usage(&self) -> (r: usize)
        ensures
            r == self.spec_vram(),
    {
        self.vram_bytes
    }

    /// Host-memory bytes in use: none.
    pub fn ram_usage(&self) -> (r: usize)
        ensures
            r == 0,
    {
        0
    }

    /// Prefetching does nothing: everything is resident.
    pub fn prefetch(&mut self, block_ids: &[usize])
        ensures
            *final(self) == *old(self),
    {
    }

    /// The policy's name.
    pub fn name(&self) -> (s: &'static str)
        ensures
            s@ == "Eager"@,
    {
        "Eager"
    }
}

} // verus!
