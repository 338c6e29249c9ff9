//! Lookup structure for block metadata keyed by block coordinates.

use vstd::prelude::*;
use std::collections::BTreeMap;
use vstd::std_specs::btree::increasing_seq;
use vstd::laws_cmp::obeys_cmp;
use super::block::Block;
use crate::experimental::sparseram::error::{SparseRAMError, SparseRAMResult};

verus! {

/// `BTreeMap::get_mut` of std: a mutable reference to the value under `k`
/// when the map holds one. For keys whose order obeys its laws, the contract
/// states what std documents: the reference points at the stored value,
/// writes through it land in the map under `k`, and the map is unchanged
/// when `k` is absent.
#[verifier::external_body]
pub(crate) fn btree_get_mut<'a, K: Ord, V>(m: &'a mut BTreeMap<K, V>, k: &K) -> (r: Option<&'a mut V>)
    requires
        obeys_cmp::<K>(),
    ensures
        match r {
            Some(v) => {
                &&& old(m)@.contains_key(*k)
                &&& *v == old(m)@[*k]
                &&& final(m)@ == old(m)@.insert(*k, *final(v))
            },
            None => !old(m)@.contains_key(*k) && final(m)@ == old(m)@,
        },
{
    m.get_mut(k)
}

/// Whether a block's activity is `want_active`.
pub open spec fn has_activity<'a>(want_active: bool) -> spec_fn(&'a Block) -> bool {
    |b: &'a Block| b.is_active == want_active
}

/// The number of blocks in `blocks` whose activity is `active`.
pub open spec fn count_blocks(blocks: Map<(usize, usize), Block>, active: bool) -> nat {
    blocks.dom().filter(|k: (usize, usize)| blocks[k].is_active == active).len()
}

/// Storing `b` under `k` changes the number of blocks of an activity by
/// the block it replaces and the block it stores.
pub proof fn lemma_count_insert(m: Map<(usize, usize), Block>, k: (usize, usize), b: Block, active: bool)
    requires
        m.dom().finite(),
    ensures
        count_blocks(m.insert(k, b), active) == count_blocks(m, active) - (if m.contains_key(k)
            && m[k].is_active == active {
            1int
        } else {
            0int
        }) + (if b.is_active == active {
            1int
        } else {
            0int
        }),
        m.contains_key(k) && m[k].is_active == active ==> count_blocks(m, active) >= 1,
{
    let f = |x: (usize, usize)| m[x].is_active == active;
    let m2 = m.insert(k, b);
    let g = |x: (usize, usize)| m2[x].is_active == active;
    let fs = m.dom().filter(f);
    let gs = m2.dom().filter(g);
    m.dom().lemma_len_filter(f);
    let f0 = fs.remove(k);
    assert(f0 =~= gs.remove(k));
    if b.is_active == active {
        assert(gs =~= f0.insert(k));
    } else {
        assert(gs =~= f0);
    }
    if m.contains_key(k) && m[k].is_active == active {
        assert(fs.contains(k));
        assert(f0.len() == fs.len() - 1);
    } else {
        assert(!fs.contains(k));
        assert(f0 =~= fs);
    }
}

/// Listing the blocks under distinct keys and keeping those of an activity
/// gives as many blocks as the keys of that activity.
proof fn lemma_filter_count(ks: Seq<(usize, usize)>, b: Map<(usize, usize), Block>, active: bool)
    requires
        ks.no_duplicates(),
    ensures
        ks.map_values(|k: (usize, usize)| &b[k]).filter(has_activity(active)).len() == ks.to_set().filter(
            |k: (usize, usize)| b[k].is_active == active,
        ).len(),
    decreases ks.len(),
{
    let q = |k: (usize, usize)| b[k].is_active == active;
    let t = ks.map_values(|k: (usize, usize)| &b[k]);
    vstd::seq_lib::seq_to_set_is_finite(ks);
    if ks.len() == 0 {
        assert(t.filter(has_activity(active)) =~= Seq::<&Block>::empty()) by {
            reveal_with_fuel(Seq::<_>::filter, 1);
        }
        assert(ks.to_set().filter(q) =~= Set::empty());
    } else {
        let sub = ks.drop_last();
        let x = ks.last();
        assert(sub.no_duplicates()) by {
            assert forall|i: int, j: int| 0 <= i < sub.len() && 0 <= j < sub.len() && i != j implies sub[i]
                != sub[j] by {
                assert(sub[i] == ks[i] && sub[j] == ks[j]);
            }
        }
        lemma_filter_count(sub, b, active);
        vstd::seq_lib::seq_to_set_is_finite(sub);
        assert(t.drop_last() =~= sub.map_values(|k: (usize, usize)| &b[k]));
        assert(t.filter(has_activity(active)) == if has_activity(active)(t.last()) {
            t.drop_last().filter(has_activity(active)).push(t.last())
        } else {
            t.drop_last().filter(has_activity(active))
        }) by {
            reveal_with_fuel(Seq::<_>::filter, 1);
        }
        assert(!sub.to_set().contains(x)) by {
            if sub.to_set().contains(x) {
                let i = choose|i: int| 0 <= i < sub.len() && sub[i] == x;
                assert(ks[i] == ks[ks.len() - 1]);
            }
        }
        assert(ks =~= sub.push(x));
        assert(ks.to_set() =~= sub.to_set().insert(x)) by {
            assert forall|k: (usize, usize)| ks.to_set().contains(k) <==> sub.to_set().insert(x).contains(k) by {
                if ks.to_set().contains(k) && k != x {
                    let i = choose|i: int| 0 <= i < ks.len() && ks[i] == k;
                    assert(i < sub.len());
                    assert(sub[i] == k);
                }
                if sub.to_set().contains(k) {
                    let i = choose|i: int| 0 <= i < sub.len() && sub[i] == k;
                    assert(ks[i] == k);
                }
            }
        }
        sub.to_set().lemma_len_filter(q);
        if q(x) {
            assert(ks.to_set().filter(q) =~= sub.to_set().filter(q).insert(x));
        } else {
            assert(ks.to_set().filter(q) =~= sub.to_set().filter(q));
        }
    }
}

/// Block metadata indexed by block coordinates `(row, col)`, iterated in
/// row-major order.
#[derive(Debug, Clone)]
pub struct BlockIndexMap {
    index: BTreeMap<(usize, usize), Block>,
    num_active: usize,
    num_pruned: usize,
    block_size: usize,
    tensor_shape: [usize; 2],
}

impl BlockIndexMap {
    /// The indexed blocks by coordinates.
    pub closed spec fn blocks(&self) -> Map<(usize, usize), Block> {
        self.index@
    }

    /// Number of active blocks.
    pub closed spec fn spec_num_active(&self) -> usize {
        self.num_active
    }

    /// Number of pruned blocks.
    pub closed spec fn spec_num_pruned(&self) -> usize {
        self.num_pruned
    }

    /// Block side length.
    pub closed spec fn spec_block_size(&self) -> usize {
        self.block_size
    }

    /// Shape of the whole tensor in elements.
    pub closed spec fn spec_tensor_shape(&self) -> [usize; 2] {
        self.tensor_shape
    }

    /// The counters agree with the indexed blocks: one counts the active
    /// blocks, the other the pruned ones.
    pub open spec fn counts_match(&self) -> bool {
        &&& self.spec_num_active() == count_blocks(self.blocks(), true)
        &&& self.spec_num_pruned() == count_blocks(self.blocks(), false)
    }

    /// When the counters agree with the blocks, together they count every
    /// block.
    pub proof fn lemma_counts_total(&self)
        requires
            self.counts_match(),
        ensures
            self.spec_num_active() + self.spec_num_pruned() == self.blocks().len(),
    {
        let d = self.blocks().dom();
        let b = self.blocks();
        let fa = |k: (usize, usize)| b[k].is_active == true;
        let fp = |k: (usize, usize)| b[k].is_active == false;
        assert(d.finite());
        d.lemma_len_filter(fa);
        d.lemma_len_filter(fp);
        assert(d.filter(fa).disjoint(d.filter(fp)));
        assert(d.filter(fa) + d.filter(fp) =~= d);
        vstd::set_lib::lemma_set_disjoint_lens(d.filter(fa), d.filter(fp));
    }

    /// A new empty index for blocks of side `block_size` over a tensor of
    /// `tensor_shape` elements.
    pub fn new(block_size: usize, tensor_shape: [usize; 2]) -> (m: Self)
        ensures
            m.blocks() == Map::<(usize, usize), Block>::empty(),
            m.spec_num_active() == 0,
            m.spec_num_pruned() == 0,
            m.counts_match(),
            m.spec_block_size() == block_size,
            m.spec_tensor_shape() == tensor_shape,
    {
        let m = BlockIndexMap {
            index: BTreeMap::new(),
            num_active: 0,
            num_pruned: 0,
            block_size,
            tensor_shape,
        };
        proof {
            assert(m.blocks().dom().filter(|k: (usize, usize)| m.blocks()[k].is_active == true) =~= Set::empty());
            assert(m.blocks().dom().filter(|k: (usize, usize)| m.blocks()[k].is_active == false) =~= Set::empty());
        }
        m
    }

    /// Inserts `block` at its coordinates, replacing any block there: the
    /// replaced block leaves its counter and the new one joins its own.
    pub fn insert(&mut self, block: Block)
        requires
            block.is_active ==> old(self).spec_num_active() < usize::MAX,
            !block.is_active ==> old(self).spec_num_pruned() < usize::MAX,
        ensures
            final(self).blocks() == old(self).blocks().insert((block.row, block.col), block),
            old(self).counts_match() ==> final(self).counts_match(),
            old(self).counts_match() ==> final(self).spec_num_active() == old(self).spec_num_active() - (if old(
                self,
            ).blocks().contains_key((block.row, block.col)) && old(self).blocks()[(block.row, block.col)].is_active {
                1int
            } else {
                0int
            }) + (if block.is_active {
                1int
            } else {
                0int
            }),
            old(self).counts_match() ==> final(self).spec_num_pruned() == old(self).spec_num_pruned() - (if old(
                self,
            ).blocks().contains_key((block.row, block.col)) && !old(self).blocks()[(block.row, block.col)].is_active {
                1int
            } else {
                0int
            }) + (if block.is_active {
                0int
            } else {
                1int
            }),
            final(self).spec_block_size() == old(self).spec_block_size(),
            final(self).spec_tensor_shape() == old(self).spec_tensor_shape(),
    {
        let coords = block.coords();
        let replaced: Option<bool> = match self.index.get(&coords) {
            Some(b) => Some(b.is_active),
            None => None,
        };
        proof {
            lemma_count_insert(self.index@, coords, block, true);
            lemma_count_insert(self.index@, coords, block, false);
        }
        match replaced {
            Some(true) => {
                if self.num_active > 0 {
                    self.num_active = self.num_active - 1;
                }
            },
            Some(false) => {
                if self.num_pruned > 0 {
                    self.num_pruned = self.num_pruned - 1;
                }
            },
            None => {},
        }
        if block.is_active {
            self.num_active = self.num_active + 1;
        } else {
            self.num_pruned = self.num_pruned + 1;
        }
        self.index.insert(coords, block);
    }

    /// The block at `(row, col)`, if any.
    pub fn get(&self, row: usize, col: usize) -> (r: Option<&Block>)
        ensures
            match r {
                Some(b) => self.blocks().contains_key((row, col)) && *b == self.blocks()[(row, col)],
                None => !self.blocks().contains_key((row, col)),
            },
    {
        self.index.get(&(row, col))
    }

    /// Mutable access to the block at `(row, col)`, if any.
    pub fn get_mut(&mut self, row: usize, col: usize) -> (r: Option<&mut Block>)
        ensures
            final(self).spec_num_active() == old(self).spec_num_active(),
            final(self).spec_num_pruned() == old(self).spec_num_pruned(),
            final(self).spec_block_size() == old(self).spec_block_size(),
            final(self).spec_tensor_shape() == old(self).spec_tensor_shape(),
            match r {
                Some(b) => {
                    &&& old(self).blocks().contains_key((row, col))
                    &&& *b == old(self).blocks()[(row, col)]
                    &&& final(self).blocks() == old(self).blocks().insert((row, col), *final(b))
                },
                None => !old(self).blocks().contains_key((row, col)) && final(self).blocks()
                    == old(self).blocks(),
            },
    {
        btree_get_mut(&mut self.index, &(row, col))
    }

    /// The block at `(row, col)`, or a `BlockNotFound` error naming the coordinates.
    pub fn get_or_err(&self, row: usize, col: usize) -> (r: SparseRAMResult<&Block>)
        ensures
            match r {
                Ok(b) => self.blocks().contains_key((row, col)) && *b == self.blocks()[(row, col)],
                Err(e) => !self.blocks().contains_key((row, col)) && e == (SparseRAMError::BlockNotFound {
                    row,
                    col,
                }),
            },
    {
        match self.get(row, col) {
            Some(b) => Ok(b),
            None => Err(SparseRAMError::BlockNotFound { row, col }),
        }
    }

    /// Whether a block exists at `(row, col)`.
    pub fn contains(&self, row: usize, col: usize) -> (r: bool)
        ensures
            r == self.blocks().contains_key((row, col)),
    {
        self.index.contains_key(&(row, col))
    }

    /// Every block, in row-major order of coordinates.
    pub fn all_blocks(&self) -> (r: Vec<&Block>)
        ensures
            exists|ks: Seq<(usize, usize)>|
                {
                    &&& increasing_seq(ks)
                    &&& ks.no_duplicates()
                    &&& ks.to_set() == self.blocks().dom()
                    &&& r@ == ks.map_values(|k: (usize, usize)| &self.blocks()[k])
                },
    {
        let mut r: Vec<&Block> = Vec::new();
        for b in it: self.index.values()
            invariant
                r@ == it.seq().take(it.index()),
        {
            r.push(b);
        }
        r
    }

    /// The blocks whose activity is `want_active`, in row-major order.
    fn blocks_with_activity(&self, want_active: bool) -> (r: Vec<&Block>)
        ensures
            exists|ks: Seq<(usize, usize)>|
                {
                    &&& increasing_seq(ks)
                    &&& ks.no_duplicates()
                    &&& ks.to_set() == self.blocks().dom()
                    &&& r@ == ks.map_values(|k: (usize, usize)| &self.blocks()[k]).filter(
                        has_activity(want_active),
                    )
                },
    {
        let all = self.all_blocks();
        let ghost pred = has_activity(want_active);
        let mut r: Vec<&Block> = Vec::new();
        let mut i: usize = 0;
        while i < all.len()
            invariant
                i <= all@.len(),
                pred == has_activity(want_active),
                r@ == all@.take(i as int).filter(pred),
            decreases all@.len() - i,
        {
            let b = all[i];
            proof {
                let prefix = all@.take(i as int);
                let next = all@.take(i as int + 1);
                assert(next.drop_last() =~= prefix);
                reveal_with_fuel(Seq::<_>::filter, 1);
            }
            if b.is_active == want_active {
                r.push(b);
            }
            i += 1;
        }
        proof {
            assert(all@.take(all@.len() as int) =~= all@);
        }
        r
    }

    /// The active blocks, in row-major order.
    pub fn active_blocks(&self) -> (r: Vec<&Block>)
        ensures
            exists|ks: Seq<(usize, usize)>|
                {
                    &&& increasing_seq(ks)
                    &&& ks.no_duplicates()
                    &&& ks.to_set() == self.blocks().dom()
                    &&& r@ == ks.map_values(|k: (usize, usize)| &self.blocks()[k]).filter(
                        |b: &Block| b.is_active,
                    )
                },
            r@.len() == count_blocks(self.blocks(), true),
    {
        let r = self.blocks_with_activity(true);
        proof {
            let ks = choose|ks: Seq<(usize, usize)>|
                {
                    &&& increasing_seq(ks)
                    &&& ks.no_duplicates()
                    &&& ks.to_set() == self.blocks().dom()
                    &&& r@ == ks.map_values(|k: (usize, usize)| &self.blocks()[k]).filter(
                        has_activity(true),
                    )
                };
            let f1 = has_activity(true);
            let f2 = |b: &Block| b.is_active;
            assert(f1 =~= f2);
            assert(r@ == ks.map_values(|k: (usize, usize)| &self.blocks()[k]).filter(f2));
            lemma_filter_count(ks, self.blocks(), true);
        }
        r
    }

    /// The pruned blocks, in row-major order.
    pub fn pruned_blocks(&self) -> (r: Vec<&Block>)
        ensures
            exists|ks: Seq<(usize, usize)>|
                {
                    &&& increasing_seq(ks)
                    &&& ks.no_duplicates()
                    &&& ks.to_set() == self.blocks().dom()
                    &&& r@ == ks.map_values(|k: (usize, usize)| &self.blocks()[k]).filter(
                        |b: &Block| !b.is_active,
                    )
                },
            r@.len() == count_blocks(self.blocks(), false),
    {
        let r = self.blocks_with_activity(false);
        proof {
            let ks = choose|ks: Seq<(usize, usize)>|
                {
                    &&& increasing_seq(ks)
                    &&& ks.no_duplicates()
                    &&& ks.to_set() == self.blocks().dom()
                    &&& r@ == ks.map_values(|k: (usize, usize)| &self.blocks()[k]).filter(
                        has_activity(false),
                    )
                };
            let f1 = has_activity(false);
            let f2 = |b: &Block| !b.is_active;
            assert(f1 =~= f2);
            assert(r@ == ks.map_values(|k: (usize, usize)| &self.blocks()[k]).filter(f2));
            lemma_filter_count(ks, self.blocks(), false);
        }
        r
    }

    /// Every block, in row-major order (the order of iteration).
    pub fn iter_row_major(&self) -> (r: Vec<&Block>)
        ensures
            exists|ks: Seq<(usize, usize)>|
                {
                    &&& increasing_seq(ks)
                    &&& ks.no_duplicates()
                    &&& ks.to_set() == self.blocks().dom()
                    &&& r@ == ks.map_values(|k: (usize, usize)| &self.blocks()[k])
                },
    {
        self.all_blocks()
    }

    /// Number of active blocks.
    pub fn num_active(&self) -> (n: usize)
        ensures
            n == self.spec_num_active(),
    {
        self.num_active
    }

    /// Number of pruned blocks.
    pub fn num_pruned(&self) -> (n: usize)
        ensures
            n == self.spec_num_pruned(),
    {
        self.num_pruned
    }

    /// Number of indexed blocks.
    pub fn total_blocks(&self) -> (n: usize)
        ensures
            n == self.blocks().len(),
    {
        self.index.len()
    }

    /// Block side length.
    pub fn block_size(&self) -> (n: usize)
        ensures
            n == self.spec_block_size(),
    {
        self.block_size
    }

    /// Shape of the whole tensor in elements.
    pub fn tensor_shape(&self) -> (s: [usize; 2])
        ensures
            s == self.spec_tensor_shape(),
    {
        self.tensor_shape
    }

    /// Shape of the tensor in blocks: each dimension divided by the block
    /// size, rounded up.
    pub fn block_shape(&self) -> (s: [usize; 2])
        requires
            self.spec_block_size() > 0,
            self.spec_tensor_shape()[0] + self.spec_block_size() <= usize::MAX,
            self.spec_tensor_shape()[1] + self.spec_block_size() <= usize::MAX,
        ensures
            s[0] == (self.spec_tensor_shape()[0] + self.spec_block_size() - 1) / self.spec_block_size() as int,
            s[1] == (self.spec_tensor_shape()[1] + self.spec_block_size() - 1) / self.spec_block_size() as int,
    {
        [
            (self.tensor_shape[0] + self.block_size - 1) / self.block_size,
            (self.tensor_shape[1] + self.block_size - 1) / self.block_size,
        ]
    }

    /// Removes every block and resets both counters.
    pub fn clear(&mut self)
        ensures
            final(self).blocks() == Map::<(usize, usize), Block>::empty(),
            final(self).spec_num_active() == 0,
            final(self).spec_num_pruned() == 0,
            final(self).counts_match(),
            final(self).spec_block_size() == old(self).spec_block_size(),
            final(self).spec_tensor_shape() == old(self).spec_tensor_shape(),
    {
        self.index.clear();
        self.num_active = 0;
        self.num_pruned = 0;
        proof {
            assert(self.blocks().dom().filter(|k: (usize, usize)| self.blocks()[k].is_active == true) =~= Set::empty());
            assert(self.blocks().dom().filter(|k: (usize, usize)| self.blocks()[k].is_active == false)
                =~= Set::empty());
        }
    }

    /// Approximate memory footprint of the index itself: per block, two
    /// coordinates of `usize` plus 64 bytes of metadata.
    pub fn index_memory_bytes(&self) -> (n: usize)
        requires
            self.blocks().len() * (2 * (usize::BITS / 8) + 64) <= usize::MAX,
        ensures
            n == self.blocks().len() * (2 * (usize::BITS / 8) + 64),
    {
        let word = (usize::BITS / 8) as usize;
        self.total_blocks() * (2 * word + 64)
    }
}

} // verus!
