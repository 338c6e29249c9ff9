//! Mask rewiring for dynamic and training-free sparse methods: flipping
//! chosen positions of a mask between kept and pruned, and choosing the
//! positions to flip from a ranking of all positions.

use vstd::prelude::*;
use crate::sparse::mask::{SparseMask, positions_of};
use crate::sparse::tensor::{copy_vec, count_true};

verus! {

/// The mask after growing the positions in `grow` and then pruning those in
/// `prune`: a position listed in `prune` ends pruned, else one listed in
/// `grow` ends kept, else it keeps its entry.
pub open spec fn grown_then_pruned(mask: Seq<bool>, grow: Seq<usize>, prune: Seq<usize>) -> Seq<bool> {
    Seq::new(
        mask.len(),
        |i: int|
            if prune.contains(i as usize) {
                false
            } else if grow.contains(i as usize) {
                true
            } else {
                mask[i]
            },
    )
}

/// The mask after dropping the positions in `drop` and then growing those in
/// `grow`: a position listed in `grow` ends kept, else one listed in `drop`
/// ends pruned, else it keeps its entry.
pub open spec fn dropped_then_grown(mask: Seq<bool>, drop: Seq<usize>, grow: Seq<usize>) -> Seq<bool> {
    Seq::new(
        mask.len(),
        |i: int|
            if grow.contains(i as usize) {
                true
            } else if drop.contains(i as usize) {
                false
            } else {
                mask[i]
            },
    )
}

/// The entries of `order` whose mask entry is `b`, in the order they come.
pub open spec fn ranked_with(order: Seq<usize>, mask: Seq<bool>, b: bool) -> Seq<usize>
    decreases order.len(),
{
    if order.len() == 0 {
        Seq::empty()
    } else {
        let rest = ranked_with(order.drop_last(), mask, b);
        if mask[order.last() as int] == b {
            rest.push(order.last())
        } else {
            rest
        }
    }
}

/// The first `k` entries of `order` whose mask entry is `b` (all of them
/// where fewer than `k` qualify).
pub open spec fn first_ranked(order: Seq<usize>, mask: Seq<bool>, b: bool, k: nat) -> Seq<usize> {
    let all = ranked_with(order, mask, b);
    if k <= all.len() {
        all.take(k as int)
    } else {
        all
    }
}

/// Every listed position lies in the mask.
pub open spec fn in_mask(idx: Seq<usize>, len: nat) -> bool {
    forall|k: int| 0 <= k < idx.len() ==> #[trigger] idx[k] < len
}

/// The mask with every position listed in `idx` set to `value`.
pub open spec fn with_entries(mask: Seq<bool>, idx: Seq<usize>, value: bool) -> Seq<bool> {
    Seq::new(mask.len(), |i: int| if idx.contains(i as usize) { value } else { mask[i] })
}

/// The positions whose entry is `true`, as a set.
pub open spec fn kept_set(mask: Seq<bool>) -> Set<usize> {
    Set::new(|i: usize| (i as int) < mask.len() && mask[i as int])
}

fn set_entries(mask: &mut Vec<bool>, idx: &Vec<usize>, value: bool)
    requires
        in_mask(idx@, old(mask)@.len()),
    ensures
        final(mask)@ == with_entries(old(mask)@, idx@, value),
{
    let ghost orig = mask@;
    let n = mask.len();
    let mut j: usize = 0;
    while j < idx.len()
        invariant
            j <= idx@.len(),
            orig.len() == n,
            in_mask(idx@, orig.len()),
            mask@ == with_entries(orig, idx@.take(j as int), value),
        decreases idx@.len() - j,
    {
        let p = idx[j];
        proof {
            assert(idx@[j as int] < orig.len());
        }
        mask.set(p, value);
        proof {
            let before = idx@.take(j as int);
            let after = idx@.take(j + 1);
            assert(after =~= before.push(p));
            assert forall|i: int| 0 <= i < orig.len() implies #[trigger] mask@[i] == with_entries(
                orig,
                after,
                value,
            )[i] by {
                if i == p as int {
                    assert(after[j as int] == p);
                    assert(after.contains(i as usize));
                } else {
                    if after.contains(i as usize) {
                        let k = choose|k: int| 0 <= k < after.len() && after[k] == i as usize;
                        assert(k != j as int);
                        assert(before[k] == i as usize);
                        assert(before.contains(i as usize));
                    }
                    if before.contains(i as usize) {
                        let k = choose|k: int| 0 <= k < before.len() && before[k] == i as usize;
                        assert(after[k] == i as usize);
                    }
                }
            }
            assert(mask@ =~= with_entries(orig, after, value));
        }
        j += 1;
    }
    proof {
        assert(idx@.take(idx@.len() as int) =~= idx@);
    }
}

/// The mask after growing the positions in `to_grow` (pruned to kept) and
/// then pruning those in `to_prune` (kept to pruned), with its kept and
/// pruned positions listed anew.
pub fn apply_swaps(mask: &SparseMask, to_grow: &Vec<usize>, to_prune: &Vec<usize>) -> (r: SparseMask)
    requires
        mask.wf(),
        in_mask(to_grow@, mask.spec_mask().len()),
        in_mask(to_prune@, mask.spec_mask().len()),
    ensures
        r.wf(),
        r.spec_shape() == mask.spec_shape(),
        r.spec_mask() == grown_then_pruned(mask.spec_mask(), to_grow@, to_prune@),
        r.spec_active() == positions_of(r.spec_mask(), true),
        r.spec_pruned() == positions_of(r.spec_mask(), false),
        r.spec_mask().len() == mask.spec_mask().len(),
        forall|k: int| 0 <= k < to_prune@.len() ==> !r.spec_mask()[#[trigger] to_prune@[k] as int],
        forall|k: int|
            0 <= k < to_grow@.len() && (forall|q: int| 0 <= q < to_prune@.len() ==> to_prune@[q] != to_grow@[k])
                ==> r.spec_mask()[#[trigger] to_grow@[k] as int],
        forall|i: int|
            0 <= i < mask.spec_mask().len() && (forall|q: int| 0 <= q < to_grow@.len() ==> to_grow@[q] != i) && (
            forall|q: int| 0 <= q < to_prune@.len() ==> to_prune@[q] != i) ==> #[trigger] r.spec_mask()[i]
                == mask.spec_mask()[i],
{
    let mut data = copy_vec(mask.tensor());
    set_entries(&mut data, to_grow, true);
    set_entries(&mut data, to_prune, false);
    proof {
        let m = mask.spec_mask();
        let g = with_entries(m, to_grow@, true);
        assert(with_entries(g, to_prune@, false) =~= grown_then_pruned(m, to_grow@, to_prune@));
        lemma_grown_then_pruned_entries(m, to_grow@, to_prune@);
    }
    SparseMask::from_tensor(data, mask.shape())
}

/// The mask after dropping the positions in `drop` (kept to pruned) and then
/// growing those in `grow` (pruned to kept), with its kept and pruned
/// positions listed anew.
pub fn drop_and_grow(mask: &SparseMask, drop: &Vec<usize>, grow: &Vec<usize>) -> (r: SparseMask)
    requires
        mask.wf(),
        in_mask(drop@, mask.spec_mask().len()),
        in_mask(grow@, mask.spec_mask().len()),
    ensures
        r.wf(),
        r.spec_shape() == mask.spec_shape(),
        r.spec_mask() == dropped_then_grown(mask.spec_mask(), drop@, grow@),
        r.spec_active() == positions_of(r.spec_mask(), true),
        r.spec_pruned() == positions_of(r.spec_mask(), false),
        r.spec_mask().len() == mask.spec_mask().len(),
        forall|k: int| 0 <= k < grow@.len() ==> r.spec_mask()[#[trigger] grow@[k] as int],
        forall|k: int|
            0 <= k < drop@.len() && (forall|q: int| 0 <= q < grow@.len() ==> grow@[q] != drop@[k])
                ==> !r.spec_mask()[#[trigger] drop@[k] as int],
        forall|i: int|
            0 <= i < mask.spec_mask().len() && (forall|q: int| 0 <= q < drop@.len() ==> drop@[q] != i) && (
            forall|q: int| 0 <= q < grow@.len() ==> grow@[q] != i) ==> #[trigger] r.spec_mask()[i]
                == mask.spec_mask()[i],
{
    let mut data = copy_vec(mask.tensor());
    set_entries(&mut data, drop, false);
    set_entries(&mut data, grow, true);
    proof {
        let m = mask.spec_mask();
        let d = with_entries(m, drop@, false);
        assert(with_entries(d, grow@, true) =~= dropped_then_grown(m, drop@, grow@));
        lemma_dropped_then_grown_entries(m, drop@, grow@);
    }
    SparseMask::from_tensor(data, mask.shape())
}

/// The first `k` positions of `order` (a ranking of positions, best first)
/// whose entry in the mask is `kept`: the candidates to prune when `kept`
/// holds, the candidates to grow otherwise.
pub fn swap_candidates(mask: &SparseMask, order: &Vec<usize>, kept: bool, k: usize) -> (r: Vec<usize>)
    requires
        mask.wf(),
        in_mask(order@, mask.spec_mask().len()),
    ensures
        r@ == first_ranked(order@, mask.spec_mask(), kept, k as nat),
{
    let entries = mask.tensor();
    let mut r: Vec<usize> = Vec::new();
    let mut j: usize = 0;
    while j < order.len() && r.len() < k
        invariant
            j <= order@.len(),
            entries@ == mask.spec_mask(),
            in_mask(order@, entries@.len()),
            r@ == ranked_with(order@.take(j as int), entries@, kept),
            r@.len() <= k,
        decreases order@.len() - j,
    {
        proof {
            assert(order@.take(j + 1).drop_last() =~= order@.take(j as int));
        }
        let p = order[j];
        proof {
            assert(order@[j as int] < entries@.len());
        }
        if entries[p] == kept {
            r.push(p);
        }
        j += 1;
    }
    proof {
        lemma_ranked_prefix(order@, entries@, kept, j as nat);
        if j == order@.len() {
            assert(order@.take(j as int) =~= order@);
        }
    }
    r
}

/// Ranking a longer prefix of `order` extends the ranking of a shorter one.
proof fn lemma_ranked_prefix(order: Seq<usize>, mask: Seq<bool>, b: bool, j: nat)
    requires
        j <= order.len(),
    ensures
        ranked_with(order.take(j as int), mask, b).len() <= ranked_with(order, mask, b).len(),
        ranked_with(order, mask, b).take(ranked_with(order.take(j as int), mask, b).len() as int)
            == ranked_with(order.take(j as int), mask, b),
        ranked_with(order.take(j as int), mask, b).len() < ranked_with(order, mask, b).len() ==> j
            < order.len(),
    decreases order.len() - j,
{
    let short = ranked_with(order.take(j as int), mask, b);
    if j == order.len() {
        assert(order.take(j as int) =~= order);
        assert(short.take(short.len() as int) =~= short);
    } else {
        lemma_ranked_prefix(order, mask, b, j + 1);
        assert(order.take(j + 1 as int).drop_last() =~= order.take(j as int));
        let longer = ranked_with(order.take(j + 1 as int), mask, b);
        let all = ranked_with(order, mask, b);
        assert(all.take(short.len() as int) =~= longer.take(short.len() as int));
        assert(longer.take(short.len() as int) =~= short);
    }
}

/// The kept positions of a mask number as many as its `true` entries.
proof fn lemma_kept_set(mask: Seq<bool>)
    requires
        mask.len() <= usize::MAX,
    ensures
        kept_set(mask).finite(),
        kept_set(mask).len() == count_true(mask),
    decreases mask.len(),
{
    if mask.len() == 0 {
        assert(kept_set(mask) =~= Set::<usize>::empty());
    } else {
        let init = mask.drop_last();
        lemma_kept_set(init);
        let last = (mask.len() - 1) as usize;
        assert(!kept_set(init).contains(last));
        if mask.last() {
            assert(kept_set(mask) =~= kept_set(init).insert(last));
        } else {
            assert(kept_set(mask) =~= kept_set(init));
        }
    }
}

/// Applying swaps prunes every position listed to prune, keeps every
/// position listed to grow and not to prune, and leaves every position
/// listed in neither as it was.
pub proof fn lemma_grown_then_pruned_entries(mask: Seq<bool>, grow: Seq<usize>, prune: Seq<usize>)
    requires
        mask.len() <= usize::MAX,
        in_mask(grow, mask.len()),
        in_mask(prune, mask.len()),
    ensures
        grown_then_pruned(mask, grow, prune).len() == mask.len(),
        forall|k: int| 0 <= k < prune.len() ==> !grown_then_pruned(mask, grow, prune)[#[trigger] prune[k] as int],
        forall|k: int|
            0 <= k < grow.len() && (forall|q: int| 0 <= q < prune.len() ==> prune[q] != grow[k])
                ==> grown_then_pruned(mask, grow, prune)[#[trigger] grow[k] as int],
        forall|i: int|
            0 <= i < mask.len() && (forall|q: int| 0 <= q < grow.len() ==> grow[q] != i) && (forall|q: int|
                0 <= q < prune.len() ==> prune[q] != i) ==> #[trigger] grown_then_pruned(mask, grow, prune)[i]
                == mask[i],
{
    let a = grown_then_pruned(mask, grow, prune);
    assert forall|k: int| 0 <= k < prune.len() implies !a[#[trigger] prune[k] as int] by {
        assert(prune[k] < mask.len());
        assert(prune.contains(prune[k]));
    }
    assert forall|k: int|
        0 <= k < grow.len() && (forall|q: int| 0 <= q < prune.len() ==> prune[q] != grow[k]) implies a[#[trigger] grow[k] as int] by {
        assert(grow[k] < mask.len());
        assert(grow.contains(grow[k]));
        if prune.contains(grow[k]) {
            let q = choose|q: int| 0 <= q < prune.len() && prune[q] == grow[k];
        }
    }
    assert forall|i: int|
        0 <= i < mask.len() && (forall|q: int| 0 <= q < grow.len() ==> grow[q] != i) && (forall|q: int|
            0 <= q < prune.len() ==> prune[q] != i) implies #[trigger] a[i] == mask[i] by {
        assert((i as usize) as int == i);
        if grow.contains(i as usize) {
            let q = choose|q: int| 0 <= q < grow.len() && grow[q] == i as usize;
        }
        if prune.contains(i as usize) {
            let q = choose|q: int| 0 <= q < prune.len() && prune[q] == i as usize;
        }
    }
}

/// Dropping and growing keeps every position listed to grow, prunes every
/// position listed to drop and not to grow, and leaves every position
/// listed in neither as it was.
pub proof fn lemma_dropped_then_grown_entries(mask: Seq<bool>, drop: Seq<usize>, grow: Seq<usize>)
    requires
        mask.len() <= usize::MAX,
        in_mask(drop, mask.len()),
        in_mask(grow, mask.len()),
    ensures
        dropped_then_grown(mask, drop, grow).len() == mask.len(),
        forall|k: int| 0 <= k < grow.len() ==> dropped_then_grown(mask, drop, grow)[#[trigger] grow[k] as int],
        forall|k: int|
            0 <= k < drop.len() && (forall|q: int| 0 <= q < grow.len() ==> grow[q] != drop[k])
                ==> !dropped_then_grown(mask, drop, grow)[#[trigger] drop[k] as int],
        forall|i: int|
            0 <= i < mask.len() && (forall|q: int| 0 <= q < drop.len() ==> drop[q] != i) && (forall|q: int|
                0 <= q < grow.len() ==> grow[q] != i) ==> #[trigger] dropped_then_grown(mask, drop, grow)[i]
                == mask[i],
{
    let d = dropped_then_grown(mask, drop, grow);
    assert forall|k: int| 0 <= k < grow.len() implies d[#[trigger] grow[k] as int] by {
        assert(grow[k] < mask.len());
        assert(grow.contains(grow[k]));
    }
    assert forall|k: int|
        0 <= k < drop.len() && (forall|q: int| 0 <= q < grow.len() ==> grow[q] != drop[k]) implies !d[#[trigger] drop[k] as int] by {
        assert(drop[k] < mask.len());
        assert(drop.contains(drop[k]));
        if grow.contains(drop[k]) {
            let q = choose|q: int| 0 <= q < grow.len() && grow[q] == drop[k];
        }
    }
    assert forall|i: int|
        0 <= i < mask.len() && (forall|q: int| 0 <= q < drop.len() ==> drop[q] != i) && (forall|q: int|
            0 <= q < grow.len() ==> grow[q] != i) implies #[trigger] d[i] == mask[i] by {
        assert((i as usize) as int == i);
        if grow.contains(i as usize) {
            let q = choose|q: int| 0 <= q < grow.len() && grow[q] == i as usize;
        }
        if drop.contains(i as usize) {
            let q = choose|q: int| 0 <= q < drop.len() && drop[q] == i as usize;
        }
    }
}

/// Swapping in as many distinct pruned positions as distinct kept positions
/// are swapped out leaves the number of kept positions unchanged, whichever
/// of the two is applied first.
pub proof fn lemma_swaps_preserve_active_count(mask: Seq<bool>, grow: Seq<usize>, prune: Seq<usize>)
    requires
        mask.len() <= usize::MAX,
        grow.no_duplicates(),
        prune.no_duplicates(),
        grow.len() == prune.len(),
        forall|k: int| 0 <= k < grow.len() ==> #[trigger] grow[k] < mask.len() && !mask[grow[k] as int],
        forall|k: int| 0 <= k < prune.len() ==> #[trigger] prune[k] < mask.len() && mask[prune[k] as int],
    ensures
        count_true(grown_then_pruned(mask, grow, prune)) == count_true(mask),
        count_true(dropped_then_grown(mask, prune, grow)) == count_true(mask),
{
    broadcast use vstd::set_lib::lemma_set_difference_len, vstd::set_lib::lemma_set_intersect_union_lens;

    let a = grown_then_pruned(mask, grow, prune);
    let d = dropped_then_grown(mask, prune, grow);
    let t = kept_set(mask);
    let g = grow.to_set();
    let p = prune.to_set();
    lemma_kept_set(mask);
    lemma_kept_set(a);
    lemma_kept_set(d);
    grow.unique_seq_to_set();
    prune.unique_seq_to_set();
    let kept_after = t.difference(p) + g;
    assert(t.intersect(p) =~= p) by {
        assert forall|x: usize| p.contains(x) implies t.contains(x) by {
            let k = choose|k: int| 0 <= k < prune.len() && prune[k] == x;
            assert(prune[k] < mask.len() && mask[prune[k] as int]);
        }
    }
    assert(t.difference(p).intersect(g) =~= Set::<usize>::empty()) by {
        assert forall|x: usize| g.contains(x) implies !t.contains(x) by {
            let k = choose|k: int| 0 <= k < grow.len() && grow[k] == x;
            assert(grow[k] < mask.len() && !mask[grow[k] as int]);
        }
    }
    assert(t.difference(p).len() == t.len() - p.len());
    assert(t.difference(p).intersect(g).len() == 0);
    assert(kept_after.len() == t.difference(p).len() + g.len());
    assert forall|x: usize| g.contains(x) implies !prune.contains(x) && (x as int) < mask.len() by {
        let k = choose|k: int| 0 <= k < grow.len() && grow[k] == x;
        assert(grow[k] < mask.len() && !mask[grow[k] as int]);
        if prune.contains(x) {
            let k2 = choose|k2: int| 0 <= k2 < prune.len() && prune[k2] == x;
            assert(mask[prune[k2] as int]);
        }
    }
    assert forall|x: usize| p.contains(x) implies (x as int) < mask.len() by {
        let k = choose|k: int| 0 <= k < prune.len() && prune[k] == x;
        assert(prune[k] < mask.len());
    }
    assert(kept_set(a) =~= kept_after);
    assert(kept_set(d) =~= kept_after);
}

} // verus!
