//! Paged residency: a fixed number of blocks cached in fast memory, loaded
//! on demand from a host-memory store.

use vstd::prelude::*;
use crate::sparse::tensor::{SparseTensor, copy_vec};
use crate::text::{decimal, push_usize_decimal};
use super::cache::{LRUCache, inserted};
use super::super::error::{SparseRAMError, SparseRAMResult};

verus! {

/// The side of the blocks a paged cache holds.
pub const PAGED_BLOCK_SIZE: usize = 16;

/// The bytes of one cached block of 4-byte values.
pub open spec fn paged_block_bytes() -> nat {
    (PAGED_BLOCK_SIZE * PAGED_BLOCK_SIZE * 4) as nat
}

/// The contents of the cached blocks, their stamps and the access counter.
pub type PagedState<V> = (Map<usize, Seq<V>>, Map<usize, u64>, u64);

/// The state after loading block `id` of `store` into a cache of capacity
/// `cap`: a block of the store is inserted (see `inserted`), any other id
/// changes nothing.
pub open spec fn block_loaded<V>(state: PagedState<V>, cap: nat, store: Seq<Seq<V>>, id: usize) -> PagedState<V> {
    if id < store.len() {
        inserted(state.0, state.1, state.2, cap, id, store[id as int])
    } else {
        state
    }
}

/// The state after loading the blocks `ids` one after the other.
pub open spec fn blocks_loaded<V>(state: PagedState<V>, cap: nat, store: Seq<Seq<V>>, ids: Seq<usize>) -> PagedState<V>
    decreases ids.len(),
{
    if ids.len() == 0 {
        state
    } else {
        block_loaded(blocks_loaded(state, cap, store, ids.drop_last()), cap, store, ids.last())
    }
}

/// An LRU cache of at most `capacity` blocks over a host-memory store of
/// blocks, with the sparse tensor it serves.
#[derive(Debug)]
pub struct PagedCache<V> {
    cache: LRUCache<usize, Vec<V>>,
    ram_store: Vec<Vec<V>>,
    capacity: usize,
    current_sparse: Option<SparseTensor<V>>,
    block_size: usize,
    shape: [usize; 2],
}

impl<V: Copy> PagedCache<V> {
    /// The cache is well formed, within its capacity, and its footprints fit
    /// in a `usize`.
    pub closed spec fn wf(&self) -> bool {
        &&& self.cache.wf()
        &&& self.cache.spec_capacity() == self.capacity
        &&& self.block_size == PAGED_BLOCK_SIZE
        &&& self.capacity * paged_block_bytes() <= usize::MAX
        &&& self.ram_store@.len() * paged_block_bytes() <= usize::MAX
        &&& self.current_sparse is Some
    }

    /// The number of cached blocks.
    pub closed spec fn spec_cached(&self) -> nat {
        self.cache.spec_len()
    }

    /// The number of blocks in the host-memory store.
    pub closed spec fn spec_stored(&self) -> nat {
        self.ram_store@.len()
    }

    /// The tensor served.
    pub closed spec fn spec_sparse(&self) -> SparseTensor<V> {
        self.current_sparse->0
    }

    /// The shape of the tensor served.
    pub closed spec fn spec_shape(&self) -> [usize; 2] {
        self.shape
    }

    /// The number of cache accesses so far.
    pub closed spec fn spec_accesses(&self) -> nat {
        self.cache.spec_access_count() as nat
    }

    /// The maximum number of cached blocks.
    pub closed spec fn spec_capacity(&self) -> nat {
        self.capacity as nat
    }

    /// The contents of the cached blocks, their stamps and the access counter.
    pub closed spec fn spec_state(&self) -> PagedState<V> {
        (
            Map::new(|k: usize| self.cache@.contains_key(k), |k: usize| self.cache@[k]@),
            self.cache.recency(),
            self.cache.spec_access_count(),
        )
    }

    /// The blocks of the host-memory store.
    pub closed spec fn spec_store(&self) -> Seq<Seq<V>> {
        self.ram_store@.map_values(|b: Vec<V>| b@)
    }

    /// A cache of `capacity` blocks over `sparse`, with an empty store.
    pub fn new(sparse: SparseTensor<V>, capacity: usize) -> (r: SparseRAMResult<Self>)
        requires
            capacity > 0,
            capacity * paged_block_bytes() <= usize::MAX,
        ensures
            r matches Ok(c) && c.wf() && c.spec_sparse() == sparse && c.spec_shape() == sparse.spec_shape()
                && c.spec_cached() == 0 && c.spec_stored() == 0 && c.spec_capacity() == capacity,
    {
        let shape = sparse.shape();
        let cache = LRUCache::new(capacity);
        Ok(
            PagedCache {
                cache,
                ram_store: Vec::new(),
                capacity,
                current_sparse: Some(sparse),
                block_size: PAGED_BLOCK_SIZE,
                shape,
            },
        )
    }

    /// Loads block `block_id` of the store into the cache; a block outside
    /// the store is an error.
    fn load_block(&mut self, block_id: usize) -> (r: SparseRAMResult<()>)
        requires
            old(self).wf(),
            old(self).spec_accesses() < u64::MAX,
        ensures
            final(self).wf(),
            final(self).spec_stored() == old(self).spec_stored(),
            final(self).spec_sparse() == old(self).spec_sparse(),
            final(self).spec_shape() == old(self).spec_shape(),
            final(self).spec_capacity() == old(self).spec_capacity(),
            final(self).spec_accesses() <= old(self).spec_accesses() + 1,
            block_id >= old(self).spec_stored() ==> (r matches Err(SparseRAMError::ResidencyError { message })
                && message@ == "Block ID "@ + decimal(block_id as nat) + " out of bounds"@) && *final(self)
                == *old(self),
            block_id < old(self).spec_stored() ==> r is Ok,
            final(self).spec_store() == old(self).spec_store(),
            final(self).spec_state() == block_loaded(
                old(self).spec_state(),
                old(self).spec_capacity(),
                old(self).spec_store(),
                block_id,
            ),
    {
        if block_id >= self.ram_store.len() {
            let mut message = String::from_str("Block ID ");
            push_usize_decimal(&mut message, block_id);
            message.append(" out of bounds");
            return Err(SparseRAMError::ResidencyError { message });
        }
        let ghost c0 = self.cache;
        let block_data = copy_vec(&self.ram_store[block_id]);
        let ghost data = block_data@;
        let evicted = self.cache.insert(block_id, block_data);
        proof {
            c0.lemma_recency_invariant();
            let b0 = Map::new(|k: usize| c0@.contains_key(k), |k: usize| c0@[k]@);
            assert(b0.dom() =~= c0@.dom());
            assert(data == old(self).spec_store()[block_id as int]);
            let b1 = Map::new(|k: usize| self.cache@.contains_key(k), |k: usize| self.cache@[k]@);
            match evicted {
                Some((ek, _)) => {
                    c0.lemma_lru_key_is_least_recent(ek);
                    assert(b1 =~= b0.remove(ek).insert(block_id, data));
                },
                None => {
                    assert(b1 =~= b0.insert(block_id, data));
                },
            }
        }
        Ok(())
    }

    /// The tensor served.
    pub fn get_sparse(&mut self) -> (r: SparseRAMResult<&SparseTensor<V>>)
        requires
            old(self).wf(),
        ensures
            *final(self) == *old(self),
            r matches Ok(t) && *t == old(self).spec_sparse(),
    {
        match &self.current_sparse {
            Some(t) => Ok(t),
            None => Err(SparseRAMError::ResidencyError { message: String::from_str("No sparse tensor available") }),
        }
    }

    /// Fast-memory bytes in use: the cached blocks.
    pub fn vram_usage(&self) -> (r: usize)
        requires
            self.wf(),
        ensures
            r == self.spec_cached() * paged_block_bytes(),
    {
        proof {
            self.cache.lemma_recency_invariant();
            assert(self.cache.spec_len() * paged_block_bytes() <= self.capacity * paged_block_bytes()) by (nonlinear_arith)
                requires
                    self.cache.spec_len() <= self.capacity,
            ;
        }
        self.cache.len() * (self.block_size * self.block_size * 4)
    }

    /// Host-memory bytes in use: the stored blocks.
    pub fn ram_usage(&self) -> (r: usize)
        requires
            self.wf(),
        ensures
            r == self.spec_stored() * paged_block_bytes(),
    {
        self.ram_store.len() * (self.block_size * self.block_size * 4)
    }

    /// Loads the given blocks into the cache; blocks outside the store are
    /// skipped.
    pub fn prefetch(&mut self, block_ids: &[usize])
        requires
            old(self).wf(),
            old(self).spec_accesses() + block_ids@.len() < u64::MAX,
        ensures
            final(self).wf(),
            final(self).spec_stored() == old(self).spec_stored(),
            final(self).spec_sparse() == old(self).spec_sparse(),
            final(self).spec_shape() == old(self).spec_shape(),
            final(self).spec_capacity() == old(self).spec_capacity(),
            old(self).spec_stored() == 0 ==> *final(self) == *old(self),
            final(self).spec_store() == old(self).spec_store(),
            final(self).spec_state() == blocks_loaded(
                old(self).spec_state(),
                old(self).spec_capacity(),
                old(self).spec_store(),
                block_ids@,
            ),
    {
        let ghost start = *self;
        let mut i: usize = 0;
        while i < block_ids.len()
            invariant
                i <= block_ids@.len(),
                self.wf(),
                self.spec_stored() == start.spec_stored(),
                self.spec_sparse() == start.spec_sparse(),
                self.spec_shape() == start.spec_shape(),
                self.spec_capacity() == start.spec_capacity(),
                self.spec_accesses() <= start.spec_accesses() + i,
                start.spec_accesses() + block_ids@.len() < u64::MAX,
                start.spec_stored() == 0 ==> *self == start,
                self.spec_store() == start.spec_store(),
                self.spec_state() == blocks_loaded(
                    start.spec_state(),
                    start.spec_capacity(),
                    start.spec_store(),
                    block_ids@.take(i as int),
                ),
            decreases block_ids@.len() - i,
        {
            proof {
                assert(block_ids@.take(i + 1).drop_last() =~= block_ids@.take(i as int));
            }
            let _ = self.load_block(block_ids[i]);
            i += 1;
        }
        proof {
            assert(block_ids@.take(block_ids@.len() as int) =~= block_ids@);
        }
    }

    /// The policy's name.
    pub fn name(&self) -> (s: &'static str)
        ensures
            s@ == "Paged"@,
    {
        "Paged"
    }
}

} // verus!
