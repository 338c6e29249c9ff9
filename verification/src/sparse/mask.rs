//! Binary sparsity masks with the flat indices of their kept and pruned
//! positions.

use vstd::prelude::*;
use rand::seq::SliceRandom;
use super::tensor::{count_true, kept_values};

verus! {

/// The flat positions, in increasing order, whose mask entry is `b`.
pub open spec fn positions_of(mask: Seq<bool>, b: bool) -> Seq<usize>
    decreases mask.len(),
{
    if mask.len() == 0 {
        Seq::empty()
    } else {
        let rest = positions_of(mask.drop_last(), b);
        if mask.last() == b {
            rest.push((mask.len() - 1) as usize)
        } else {
            rest
        }
    }
}

/// The mask with every entry flipped.
pub open spec fn negated(mask: Seq<bool>) -> Seq<bool> {
    Seq::new(mask.len(), |i: int| !mask[i])
}

/// The number of positions where two masks differ.
pub open spec fn count_diff(a: Seq<bool>, b: Seq<bool>) -> nat
    decreases a.len(),
{
    if a.len() == 0 {
        0
    } else {
        count_diff(a.drop_last(), b) + if a.last() != b[a.len() - 1] {
            1nat
        } else {
            0nat
        }
    }
}

/// The values at the given flat positions, in the order of the positions.
pub open spec fn gathered<V>(t: Seq<V>, idx: Seq<usize>) -> Seq<V> {
    Seq::new(idx.len(), |k: int| t[idx[k] as int])
}

/// A flat buffer of `total` cells with `vals[k]` at position `idx[k]` and
/// `zero` elsewhere.
pub open spec fn scattered<V>(idx: Seq<usize>, vals: Seq<V>, total: nat, zero: V) -> Seq<V> {
    Seq::new(
        total,
        |i: int|
            if exists|k: int| 0 <= k < idx.len() && #[trigger] idx[k] == i {
                vals[choose|k: int| 0 <= k < idx.len() && #[trigger] idx[k] == i]
            } else {
                zero
            },
    )
}

/// The positions listed are distinct, lie in the mask, and are exactly the
/// positions whose entry is `b`.
pub open spec fn lists_positions(idx: Seq<usize>, mask: Seq<bool>, b: bool) -> bool {
    &&& idx.no_duplicates()
    &&& forall|k: int| 0 <= k < idx.len() ==> #[trigger] idx[k] < mask.len() && mask[idx[k] as int] == b
    &&& forall|i: int| 0 <= i < mask.len() && mask[i] == b ==> #[trigger] idx.contains(i as usize)
}

proof fn lemma_positions_of(mask: Seq<bool>, b: bool)
    requires
        mask.len() <= usize::MAX,
    ensures
        lists_positions(positions_of(mask, b), mask, b),
        forall|k1: int, k2: int|
            0 <= k1 < k2 < positions_of(mask, b).len() ==> #[trigger] positions_of(mask, b)[k1]
                < #[trigger] positions_of(mask, b)[k2],
    decreases mask.len(),
{
    if mask.len() > 0 {
        let init = mask.drop_last();
        lemma_positions_of(init, b);
        let rest = positions_of(init, b);
        let n = (mask.len() - 1) as int;
        assert forall|k: int| 0 <= k < rest.len() implies #[trigger] rest[k] < mask.len() && mask[rest[k] as int]
            == b by {
            assert(init[rest[k] as int] == mask[rest[k] as int]);
        }
        if mask.last() == b {
            let s = rest.push(n as usize);
            assert forall|i: int| 0 <= i < mask.len() && mask[i] == b implies #[trigger] s.contains(i as usize) by {
                if i < n {
                    assert(init[i] == mask[i]);
                    assert(rest.contains(i as usize));
                    let k = choose|k: int| 0 <= k < rest.len() && rest[k] == i as usize;
                    assert(s[k] == i as usize);
                } else {
                    assert(s[rest.len() as int] == i as usize);
                }
            }
            assert forall|k1: int, k2: int| 0 <= k1 < k2 < s.len() implies #[trigger] s[k1] < #[trigger] s[k2] by {
                if k2 == rest.len() {
                    assert(rest[k1] < init.len());
                }
            }
            assert(s.no_duplicates()) by {
                assert forall|k1: int, k2: int| 0 <= k1 < s.len() && 0 <= k2 < s.len() && k1 != k2 implies s[k1]
                    != s[k2] by {
                    if k1 < k2 {
                        assert(s[k1] < s[k2]);
                    } else {
                        assert(s[k2] < s[k1]);
                    }
                }
            }
        } else {
            assert forall|i: int| 0 <= i < mask.len() && mask[i] == b implies #[trigger] rest.contains(i as usize) by {
                assert(init[i] == mask[i]);
            }
        }
    }
}

proof fn lemma_positions_split(mask: Seq<bool>)
    ensures
        positions_of(mask, true).len() + positions_of(mask, false).len() == mask.len(),
        positions_of(mask, true).len() == count_true(mask),
    decreases mask.len(),
{
    if mask.len() > 0 {
        lemma_positions_split(mask.drop_last());
    }
}

/// A list of positions holds as many entries as the positions it lists.
proof fn lemma_listed_len(idx: Seq<usize>, mask: Seq<bool>, b: bool)
    requires
        mask.len() <= usize::MAX,
        lists_positions(idx, mask, b),
    ensures
        idx.len() == positions_of(mask, b).len(),
{
    let p = positions_of(mask, b);
    lemma_positions_of(mask, b);
    assert(idx.to_set() =~= p.to_set()) by {
        assert forall|x: usize| idx.to_set().contains(x) implies p.to_set().contains(x) by {
            let k = choose|k: int| 0 <= k < idx.len() && idx[k] == x;
            assert(idx[k] < mask.len() && mask[idx[k] as int] == b);
            assert(p.contains(x as int as usize));
        }
        assert forall|x: usize| p.to_set().contains(x) implies idx.to_set().contains(x) by {
            let k = choose|k: int| 0 <= k < p.len() && p[k] == x;
            assert(p[k] < mask.len() && mask[p[k] as int] == b);
            assert(idx.contains(x as int as usize));
        }
    }
    idx.unique_seq_to_set();
    p.unique_seq_to_set();
}

/// Every position of a mask is either kept or pruned: the kept and pruned
/// positions together number as many as the mask has cells, and the kept
/// ones number as many as its `true` entries.
pub proof fn lemma_mask_partition(m: SparseMask)
    requires
        m.wf(),
    ensures
        m.spec_active().len() + m.spec_pruned().len() == m.spec_mask().len(),
        m.spec_active().len() == count_true(m.spec_mask()),
{
    lemma_listed_len(m.spec_active(), m.spec_mask(), true);
    lemma_listed_len(m.spec_pruned(), m.spec_mask(), false);
    lemma_positions_split(m.spec_mask());
}

/// Negating a mask twice gives the mask back, so the complement of the
/// complement keeps and prunes the same positions as the mask.
pub proof fn lemma_complement_involution(mask: Seq<bool>)
    ensures
        negated(negated(mask)) == mask,
{
    assert(negated(negated(mask)) =~= mask);
}

proof fn lemma_count_diff_complement(mask: Seq<bool>)
    ensures
        count_diff(mask, negated(mask)) == mask.len(),
        count_diff(mask, mask) == 0,
    decreases mask.len(),
{
    if mask.len() > 0 {
        let init = mask.drop_last();
        lemma_count_diff_complement(init);
        lemma_count_diff_prefix(mask.drop_last(), negated(mask), negated(init));
        lemma_count_diff_prefix(mask.drop_last(), mask, init);
    }
}

proof fn lemma_count_diff_prefix(a: Seq<bool>, b1: Seq<bool>, b2: Seq<bool>)
    requires
        a.len() <= b1.len(),
        a.len() <= b2.len(),
        forall|i: int| 0 <= i < a.len() ==> b1[i] == b2[i],
    ensures
        count_diff(a, b1) == count_diff(a, b2),
    decreases a.len(),
{
    if a.len() > 0 {
        lemma_count_diff_prefix(a.drop_last(), b1, b2);
    }
}

/// A mask differs from its complement everywhere and from itself nowhere.
pub proof fn lemma_hamming_complement(mask: Seq<bool>)
    ensures
        count_diff(mask, negated(mask)) == mask.len(),
        count_diff(mask, mask) == 0,
{
    lemma_count_diff_complement(mask);
}

/// Scattering the kept values of a tensor back to the kept positions gives
/// the tensor with its pruned positions set to `zero`.
pub proof fn lemma_scatter_gather<V>(m: SparseMask, t: Seq<V>, zero: V)
    requires
        m.wf(),
        t.len() == m.spec_mask().len(),
    ensures
        scattered(m.spec_active(), gathered(t, m.spec_active()), t.len(), zero) == kept_values(
            t,
            m.spec_mask(),
            zero,
        ),
{
    let act = m.spec_active();
    let mask = m.spec_mask();
    let lhs = scattered(act, gathered(t, act), t.len(), zero);
    let rhs = kept_values(t, mask, zero);
    assert forall|i: int| 0 <= i < t.len() implies lhs[i] == rhs[i] by {
        if mask[i] {
            assert(act.contains(i as usize));
            let k0 = choose|k: int| 0 <= k < act.len() && act[k] == i as usize;
            assert(act[k0] == i);
            let k = choose|k: int| 0 <= k < act.len() && #[trigger] act[k] == i;
            assert(act[k] == act[k0]);
            assert(k == k0);
        } else {
            if exists|k: int| 0 <= k < act.len() && #[trigger] act[k] == i {
                let k = choose|k: int| 0 <= k < act.len() && #[trigger] act[k] == i;
                assert(mask[act[k] as int]);
            }
        }
    }
    assert(lhs =~= rhs);
}

/// Shuffles the flat indices into a random order: the result is a
/// rearrangement of the input.
///
/// Calls `rand::seq::SliceRandom::shuffle` with the thread-local generator of
/// `rand::thread_rng`, which swaps entries pairwise (Fisher–Yates). Which
/// rearrangement comes out depends on the generator and is not stated; the
/// generator panics if the operating system cannot seed it.
#[verifier::external_body]
fn shuffle_indices(indices: &mut Vec<usize>)
    ensures
        final(indices)@.to_multiset() == old(indices)@.to_multiset(),
{
    indices.shuffle(&mut rand::thread_rng());
}

/// The identity sequence `0, 1, ..., n - 1`.
pub open spec fn index_range(n: nat) -> Seq<usize> {
    Seq::new(n, |i: int| i as usize)
}

/// A rearrangement of `0..n` lists every index below `n` exactly once.
proof fn lemma_rearranged_range(s: Seq<usize>, n: nat)
    requires
        n <= usize::MAX,
        s.to_multiset() == index_range(n).to_multiset(),
    ensures
        s.len() == n,
        s.no_duplicates(),
        forall|k: int| 0 <= k < s.len() ==> #[trigger] s[k] < n,
        forall|i: int| 0 <= i < n ==> #[trigger] s.contains(i as usize),
{
    let id = index_range(n);
    broadcast use vstd::seq_lib::group_to_multiset_ensures;
    assert(id.no_duplicates());
    id.lemma_multiset_has_no_duplicates();
    assert forall|x: usize| s.to_multiset().contains(x) implies s.to_multiset().count(x) == 1 by {
        assert(id.to_multiset().contains(x));
    }
    s.lemma_multiset_has_no_duplicates_conv();
    assert(s.len() == s.to_multiset().len());
    assert(id.len() == id.to_multiset().len());
    assert forall|k: int| 0 <= k < s.len() implies #[trigger] s[k] < n by {
        assert(s.contains(s[k]));
        assert(s.to_multiset().count(s[k]) > 0);
        assert(id.contains(s[k]));
    }
    assert forall|i: int| 0 <= i < n implies #[trigger] s.contains(i as usize) by {
        assert(id[i] == i as usize);
        assert(id.contains(i as usize));
        assert(id.to_multiset().count(i as usize) > 0);
        assert(s.to_multiset().count(i as usize) > 0);
    }
}

/// A binary sparsity mask of shape `[n_out, n_in]` over flat row-major
/// positions, with the flat indices of its kept (active) and pruned
/// positions.
#[derive(Debug, Clone)]
pub struct SparseMask {
    mask: Vec<bool>,
    active_indices: Vec<usize>,
    pruned_indices: Vec<usize>,
    shape: [usize; 2],
}

impl SparseMask {
    /// The mask entries, row-major; `true` keeps a position.
    pub closed spec fn spec_mask(&self) -> Seq<bool> {
        self.mask@
    }

    /// The flat indices of the kept positions.
    pub closed spec fn spec_active(&self) -> Seq<usize> {
        self.active_indices@
    }

    /// The flat indices of the pruned positions.
    pub closed spec fn spec_pruned(&self) -> Seq<usize> {
        self.pruned_indices@
    }

    /// The shape `[n_out, n_in]`.
    pub closed spec fn spec_shape(&self) -> [usize; 2] {
        self.shape
    }

    /// The mask covers its shape and its index lists are exactly its kept and
    /// pruned positions.
    pub open spec fn wf(&self) -> bool {
        &&& self.spec_mask().len() == self.spec_shape()[0] * self.spec_shape()[1]
        &&& self.spec_mask().len() <= usize::MAX
        &&& lists_positions(self.spec_active(), self.spec_mask(), true)
        &&& lists_positions(self.spec_pruned(), self.spec_mask(), false)
    }

    /// A mask from its row-major entries over `shape`, with the kept and
    /// pruned positions listed in increasing order.
    pub fn from_tensor(mask: Vec<bool>, shape: [usize; 2]) -> (m: Self)
        requires
            mask@.len() == shape[0] * shape[1],
        ensures
            m.wf(),
            m.spec_mask() == mask@,
            m.spec_shape() == shape,
            m.spec_active() == positions_of(mask@, true),
            m.spec_pruned() == positions_of(mask@, false),
    {
        let mut active: Vec<usize> = Vec::new();
        let mut pruned: Vec<usize> = Vec::new();
        let mut i: usize = 0;
        while i < mask.len()
            invariant
                i <= mask@.len(),
                active@ == positions_of(mask@.take(i as int), true),
                pruned@ == positions_of(mask@.take(i as int), false),
            decreases mask@.len() - i,
        {
            proof {
                assert(mask@.take(i + 1).drop_last() =~= mask@.take(i as int));
            }
            if mask[i] {
                active.push(i);
            } else {
                pruned.push(i);
            }
            i += 1;
        }
        proof {
            assert(mask@.take(mask@.len() as int) =~= mask@);
            lemma_positions_of(mask@, true);
            lemma_positions_of(mask@, false);
        }
        SparseMask { mask, active_indices: active, pruned_indices: pruned, shape }
    }

    /// A random mask over `shape` that prunes `n_pruned` positions: the flat
    /// indices are shuffled, the first `n_pruned` are pruned and the rest kept.
    pub fn random(shape: [usize; 2], n_pruned: usize) -> (m: Self)
        requires
            shape[0] * shape[1] <= usize::MAX,
            n_pruned <= shape[0] * shape[1],
        ensures
            m.wf(),
            m.spec_shape() == shape,
            m.spec_pruned().len() == n_pruned,
            m.spec_active().len() == shape[0] * shape[1] - n_pruned,
    {
        let total = shape[0] * shape[1];
        let mut indices: Vec<usize> = Vec::with_capacity(total);
        let mut i: usize = 0;
        while i < total
            invariant
                i <= total,
                indices@ == index_range(i as nat),
            decreases total - i,
        {
            indices.push(i);
            proof {
                assert(indices@ =~= index_range((i + 1) as nat));
            }
            i += 1;
        }
        shuffle_indices(&mut indices);
        proof {
            lemma_rearranged_range(indices@, total as nat);
        }
        let ghost s = indices@;
        let mut pruned: Vec<usize> = Vec::with_capacity(n_pruned);
        let mut active: Vec<usize> = Vec::with_capacity(total - n_pruned);
        let mut mask: Vec<bool> = Vec::with_capacity(total);
        let mut k: usize = 0;
        while k < total
            invariant
                k <= total,
                mask@ == Seq::new(k as nat, |j: int| true),
            decreases total - k,
        {
            mask.push(true);
            k += 1;
        }
        let mut k: usize = 0;
        while k < total
            invariant
                k <= total,
                n_pruned <= total,
                indices@ == s,
                s.len() == total,
                s.no_duplicates(),
                forall|q: int| 0 <= q < s.len() ==> #[trigger] s[q] < total,
                mask@.len() == total,
                pruned@ == s.take(if k < n_pruned { k as int } else { n_pruned as int }),
                active@ == if k < n_pruned { Seq::empty() } else { s.subrange(n_pruned as int, k as int) },
                forall|x: int| 0 <= x < total ==> (#[trigger] mask@[x] <==> !s.take(
                    if k < n_pruned { k as int } else { n_pruned as int },
                ).contains(x as usize)),
            decreases total - k,
        {
            let idx = indices[k];
            if k < n_pruned {
                let ghost before = mask@;
                mask.set(idx, false);
                pruned.push(idx);
                proof {
                    assert(pruned@ =~= s.take(k + 1));
                    let t0 = s.take(k as int);
                    let t1 = s.take(k + 1);
                    assert(t1 =~= t0.push(s[k as int]));
                    assert((if k + 1 < n_pruned { k + 1 } else { n_pruned as int }) == k + 1);
                    assert forall|x: int| 0 <= x < total implies (#[trigger] mask@[x] <==> !t1.contains(
                        x as usize,
                    )) by {
                        if x == idx {
                            assert(t1[k as int] == idx);
                        } else {
                            assert(mask@[x] == before[x]);
                            assert(before[x] <==> !t0.contains(x as usize));
                            if t0.contains(x as usize) {
                                let q = choose|q: int| 0 <= q < t0.len() && t0[q] == x as usize;
                                assert(t1[q] == x as usize);
                            }
                            if t1.contains(x as usize) {
                                let q = choose|q: int| 0 <= q < t1.len() && t1[q] == x as usize;
                                if q < k {
                                    assert(t0[q] == x as usize);
                                } else {
                                    assert(t1[q] == idx);
                                }
                            }
                        }
                    }
                }
            } else {
                active.push(idx);
                proof {
                    assert(active@ =~= s.subrange(n_pruned as int, k + 1));
                }
            }
            k += 1;
        }
        proof {
            let pr = s.take(n_pruned as int);
            let ac = s.subrange(n_pruned as int, total as int);
            assert(pruned@ == pr);
            assert(active@ == ac) by {
                if total == n_pruned {
                    assert(ac =~= Seq::<usize>::empty());
                }
            }
            assert(pr.no_duplicates());
            assert(ac.no_duplicates());
            assert forall|q: int| 0 <= q < pr.len() implies #[trigger] pr[q] < mask@.len() && mask@[pr[q] as int]
                == false by {
                assert(pr.contains(pr[q]));
            }
            assert forall|q: int| 0 <= q < ac.len() implies #[trigger] ac[q] < mask@.len() && mask@[ac[q] as int]
                == true by {
                let x = ac[q];
                assert(x == s[n_pruned + q]);
                if pr.contains(x) {
                    let q2 = choose|q2: int| 0 <= q2 < pr.len() && pr[q2] == x;
                    assert(s[q2] == s[n_pruned + q]);
                }
            }
            assert forall|x: int| 0 <= x < mask@.len() && mask@[x] == true implies #[trigger] ac.contains(x as usize) by {
                assert(s.contains(x as usize));
                let q = choose|q: int| 0 <= q < s.len() && s[q] == x as usize;
                if q < n_pruned {
                    assert(pr[q] == x as usize);
                } else {
                    assert(ac[q - n_pruned] == x as usize);
                }
            }
            assert forall|x: int| 0 <= x < mask@.len() && mask@[x] == false implies #[trigger] pr.contains(x as usize) by {
            }
        }
        SparseMask { mask, active_indices: active, pruned_indices: pruned, shape }
    }

    /// The number of kept positions.
    pub fn n_active(&self) -> (r: usize)
        ensures
            r == self.spec_active().len(),
    {
        self.active_indices.len()
    }

    /// The number of pruned positions.
    pub fn n_pruned(&self) -> (r: usize)
        ensures
            r == self.spec_pruned().len(),
    {
        self.pruned_indices.len()
    }

    /// The shape `[n_out, n_in]`.
    pub fn shape(&self) -> (r: [usize; 2])
        ensures
            r == self.spec_shape(),
    {
        self.shape
    }

    /// The row-major mask entries.
    pub fn tensor(&self) -> (r: &Vec<bool>)
        ensures
            r@ == self.spec_mask(),
    {
        &self.mask
    }

    /// The flat indices of the kept positions.
    pub fn active_indices(&self) -> (r: &[usize])
        ensures
            r@ == self.spec_active(),
    {
        self.active_indices.as_slice()
    }

    /// The flat indices of the pruned positions.
    pub fn pruned_indices(&self) -> (r: &[usize])
        ensures
            r@ == self.spec_pruned(),
    {
        self.pruned_indices.as_slice()
    }

    /// The weights with the pruned positions set to `zero`.
    pub fn apply<V: Copy>(&self, weights: &Vec<V>, zero: V) -> (r: Vec<V>)
        requires
            weights@.len() == self.spec_mask().len(),
        ensures
            r@ == kept_values(weights@, self.spec_mask(), zero),
    {
        let mut r: Vec<V> = Vec::with_capacity(weights.len());
        let mut i: usize = 0;
        while i < weights.len()
            invariant
                i <= weights@.len(),
                weights@.len() == self.mask@.len(),
                r@ == kept_values(weights@, self.mask@, zero).take(i as int),
            decreases weights@.len() - i,
        {
            let v = if self.mask[i] {
                weights[i]
            } else {
                zero
            };
            r.push(v);
            proof {
                assert(r@ =~= kept_values(weights@, self.mask@, zero).take(i + 1));
            }
            i += 1;
        }
        proof {
            assert(kept_values(weights@, self.mask@, zero).take(weights@.len() as int) =~= kept_values(
                weights@,
                self.mask@,
                zero,
            ));
        }
        r
    }

    /// The number of positions where this mask and `other`, of the same
    /// shape, differ.
    pub fn hamming_distance(&self, other: &Self) -> (r: usize)
        requires
            self.wf(),
            other.wf(),
            self.spec_shape() == other.spec_shape(),
        ensures
            r == count_diff(self.spec_mask(), other.spec_mask()),
    {
        let mut count: usize = 0;
        let mut i: usize = 0;
        while i < self.mask.len()
            invariant
                i <= self.mask@.len(),
                other.mask@.len() == self.mask@.len(),
                count == count_diff(self.mask@.take(i as int), other.mask@),
                count <= i,
            decreases self.mask@.len() - i,
        {
            proof {
                assert(self.mask@.take(i + 1).drop_last() =~= self.mask@.take(i as int));
            }
            if self.mask[i] != other.mask[i] {
                count += 1;
            }
            i += 1;
        }
        proof {
            assert(self.mask@.take(self.mask@.len() as int) =~= self.mask@);
        }
        count
    }

    /// The complement: pruned and kept positions swap.
    pub fn complement(&self) -> (r: Self)
        requires
            self.wf(),
        ensures
            r.wf(),
            r.spec_mask() == negated(self.spec_mask()),
            r.spec_active() == self.spec_pruned(),
            r.spec_pruned() == self.spec_active(),
            r.spec_shape() == self.spec_shape(),
    {
        let mut mask: Vec<bool> = Vec::with_capacity(self.mask.len());
        let mut i: usize = 0;
        while i < self.mask.len()
            invariant
                i <= self.mask@.len(),
                mask@ == negated(self.mask@).take(i as int),
            decreases self.mask@.len() - i,
        {
            mask.push(!self.mask[i]);
            proof {
                assert(mask@ =~= negated(self.mask@).take(i + 1));
            }
            i += 1;
        }
        proof {
            assert(negated(self.mask@).take(self.mask@.len() as int) =~= negated(self.mask@));
        }
        SparseMask {
            mask,
            active_indices: super::tensor::copy_vec(&self.pruned_indices),
            pruned_indices: super::tensor::copy_vec(&self.active_indices),
            shape: self.shape,
        }
    }

    /// The values at the kept positions, in the order of the kept indices.
    pub fn gather_active<V: Copy>(&self, t: &Vec<V>) -> (r: Vec<V>)
        requires
            self.wf(),
            t@.len() == self.spec_mask().len(),
        ensures
            r@ == gathered(t@, self.spec_active()),
    {
        gather(t, &self.active_indices)
    }

    /// The values at the pruned positions, in the order of the pruned indices.
    pub fn gather_pruned<V: Copy>(&self, t: &Vec<V>) -> (r: Vec<V>)
        requires
            self.wf(),
            t@.len() == self.spec_mask().len(),
        ensures
            r@ == gathered(t@, self.spec_pruned()),
    {
        gather(t, &self.pruned_indices)
    }

    /// A flat buffer with `values[k]` at the `k`-th kept position and `zero`
    /// elsewhere.
    pub fn scatter_active<V: Copy>(&self, values: &Vec<V>, zero: V) -> (r: Vec<V>)
        requires
            self.wf(),
            values@.len() == self.spec_active().len(),
        ensures
            r@ == scattered(self.spec_active(), values@, self.spec_mask().len(), zero),
    {
        scatter(&self.active_indices, values, self.mask.len(), zero)
    }

    /// A flat buffer with `values[k]` at the `k`-th pruned position and `zero`
    /// elsewhere.
    pub fn scatter_pruned<V: Copy>(&self, values: &Vec<V>, zero: V) -> (r: Vec<V>)
        requires
            self.wf(),
            values@.len() == self.spec_pruned().len(),
        ensures
            r@ == scattered(self.spec_pruned(), values@, self.spec_mask().len(), zero),
    {
        scatter(&self.pruned_indices, values, self.mask.len(), zero)
    }
}

fn gather<V: Copy>(t: &Vec<V>, idx: &Vec<usize>) -> (r: Vec<V>)
    requires
        forall|k: int| 0 <= k < idx@.len() ==> #[trigger] idx@[k] < t@.len(),
    ensures
        r@ == gathered(t@, idx@),
{
    let mut r: Vec<V> = Vec::with_capacity(idx.len());
    let mut k: usize = 0;
    while k < idx.len()
        invariant
            k <= idx@.len(),
            forall|j: int| 0 <= j < idx@.len() ==> #[trigger] idx@[j] < t@.len(),
            r@ == gathered(t@, idx@).take(k as int),
        decreases idx@.len() - k,
    {
        r.push(t[idx[k]]);
        proof {
            assert(r@ =~= gathered(t@, idx@).take(k + 1));
        }
        k += 1;
    }
    proof {
        assert(gathered(t@, idx@).take(idx@.len() as int) =~= gathered(t@, idx@));
    }
    r
}

fn scatter<V: Copy>(idx: &Vec<usize>, values: &Vec<V>, total: usize, zero: V) -> (r: Vec<V>)
    requires
        idx@.no_duplicates(),
        values@.len() == idx@.len(),
        forall|k: int| 0 <= k < idx@.len() ==> #[trigger] idx@[k] < total,
    ensures
        r@ == scattered(idx@, values@, total as nat, zero),
{
    let mut r: Vec<V> = Vec::with_capacity(total);
    let mut i: usize = 0;
    while i < total
        invariant
            i <= total,
            r@ == Seq::new(i as nat, |j: int| zero),
        decreases total - i,
    {
        r.push(zero);
        proof {
            assert(r@ =~= Seq::new((i + 1) as nat, |j: int| zero));
        }
        i += 1;
    }
    let mut k: usize = 0;
    while k < idx.len()
        invariant
            k <= idx@.len(),
            idx@.no_duplicates(),
            values@.len() == idx@.len(),
            forall|j: int| 0 <= j < idx@.len() ==> #[trigger] idx@[j] < total,
            r@.len() == total,
            forall|j: int| 0 <= j < k ==> #[trigger] r@[idx@[j] as int] == values@[j],
            forall|p: int|
                0 <= p < total && !(exists|j: int| 0 <= j < k && #[trigger] idx@[j] == p) ==> #[trigger] r@[p]
                    == zero,
        decreases idx@.len() - k,
    {
        let ghost before = r@;
        r.set(idx[k], values[k]);
        proof {
            assert forall|j: int| 0 <= j < k + 1 implies #[trigger] r@[idx@[j] as int] == values@[j] by {
                if j < k {
                    assert(idx@[j] != idx@[k as int]);
                    assert(before[idx@[j] as int] == values@[j]);
                }
            }
            assert forall|p: int|
                0 <= p < total && !(exists|j: int| 0 <= j < k + 1 && #[trigger] idx@[j] == p) implies #[trigger] r@[p]
                == zero by {
                assert(idx@[k as int] != p);
                assert(!(exists|j: int| 0 <= j < k && #[trigger] idx@[j] == p));
                assert(before[p] == zero);
            }
        }
        k += 1;
    }
    proof {
        let target = scattered(idx@, values@, total as nat, zero);
        assert forall|p: int| 0 <= p < total implies r@[p] == target[p] by {
            if exists|j: int| 0 <= j < idx@.len() && #[trigger] idx@[j] == p {
                let j = choose|j: int| 0 <= j < idx@.len() && #[trigger] idx@[j] == p;
                assert(r@[idx@[j] as int] == values@[j]);
            }
        }
        assert(r@ =~= target);
    }
    r
}

} // verus!
