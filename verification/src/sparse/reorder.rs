//! Regrouping of stored entries: expansion of compressed pointers into one
//! index per entry, and stable placement of entries into row regions.

use vstd::prelude::*;
use super::validate::ptr_at;

verus! {

/// The pointer of line `k + 1` is not below that of line `k`.
pub open spec fn ptr_step_ok(ptrs: Seq<i64>, k: int) -> bool {
    ptr_at(ptrs, k) <= ptr_at(ptrs, k + 1)
}

/// The number of positions before `p` whose row is `r`.
pub open spec fn count_row(rows: Seq<i64>, r: int, p: int) -> nat
    decreases p,
{
    if p <= 0 {
        0
    } else {
        count_row(rows, r, p - 1) + if rows[p - 1] == r {
            1nat
        } else {
            0nat
        }
    }
}

/// The number of positions before `p` whose row is below `n`.
pub open spec fn count_rows_below(rows: Seq<i64>, n: int, p: int) -> nat
    decreases n,
{
    if n <= 0 {
        0
    } else {
        count_rows_below(rows, n - 1, p) + count_row(rows, n - 1, p)
    }
}

pub(crate) proof fn lemma_count_row_monotone(rows: Seq<i64>, r: int, p1: int, p2: int)
    requires
        p1 <= p2,
    ensures
        count_row(rows, r, p1) <= count_row(rows, r, p2),
    decreases p2 - p1,
{
    if p1 < p2 {
        lemma_count_row_monotone(rows, r, p1, p2 - 1);
    }
}

pub(crate) proof fn lemma_count_rows_below_monotone(rows: Seq<i64>, n1: int, n2: int, p: int)
    requires
        0 <= n1 <= n2,
    ensures
        count_rows_below(rows, n1, p) <= count_rows_below(rows, n2, p),
    decreases n2 - n1,
{
    if n1 < n2 {
        lemma_count_rows_below_monotone(rows, n1, n2 - 1, p);
    }
}

proof fn lemma_count_rows_below_step(rows: Seq<i64>, n: int, p: int)
    requires
        0 <= p,
    ensures
        count_rows_below(rows, n, p + 1) == count_rows_below(rows, n, p) + if 0 <= rows[p] < n {
            1nat
        } else {
            0nat
        },
    decreases n,
{
    if n > 0 {
        lemma_count_rows_below_step(rows, n - 1, p);
    }
}

/// When every row lies below `n`, all positions before `p` are counted.
pub(crate) proof fn lemma_count_rows_total(rows: Seq<i64>, n: int, p: int)
    requires
        0 <= p <= rows.len(),
        forall|k: int| 0 <= k < p ==> 0 <= #[trigger] rows[k] < n,
    ensures
        count_rows_below(rows, n, p) == p,
    decreases p,
{
    if p > 0 {
        lemma_count_rows_total(rows, n, p - 1);
        lemma_count_rows_below_step(rows, n, p - 1);
    } else {
        lemma_count_rows_zero(rows, n);
    }
}

proof fn lemma_count_rows_zero(rows: Seq<i64>, n: int)
    ensures
        count_rows_below(rows, n, 0) == 0,
    decreases n,
{
    if n > 0 {
        lemma_count_rows_zero(rows, n - 1);
    }
}

/// Pointers that do not decrease from one entry to the next do not
/// decrease over any distance.
pub(crate) proof fn lemma_ptrs_monotone(ptrs: Seq<i64>, n: int, i: int, j: int)
    requires
        forall|k: int| 0 <= k < n ==> #[trigger] ptr_step_ok(ptrs, k),
        0 <= i <= j <= n,
    ensures
        ptr_at(ptrs, i) <= ptr_at(ptrs, j),
    decreases j - i,
{
    if i < j {
        lemma_ptrs_monotone(ptrs, n, i, j - 1);
        assert(ptr_step_ok(ptrs, j - 1));
    }
}

/// Every position below the last pointer lies in the region of one line.
pub(crate) proof fn lemma_region_of(ptrs: Seq<i64>, n: int, q: int) -> (i: int)
    requires
        forall|k: int| 0 <= k < n ==> #[trigger] ptr_step_ok(ptrs, k),
        0 <= n,
        ptr_at(ptrs, 0) <= q < ptr_at(ptrs, n),
    ensures
        0 <= i < n,
        ptr_at(ptrs, i) <= q < ptr_at(ptrs, i + 1),
    decreases n,
{
    if q >= ptr_at(ptrs, n - 1) {
        n - 1
    } else {
        lemma_region_of(ptrs, n - 1, q)
    }
}

/// Regions of distinct lines do not overlap.
pub(crate) proof fn lemma_region_unique(ptrs: Seq<i64>, n: int, q: int, i: int, j: int)
    requires
        forall|k: int| 0 <= k < n ==> #[trigger] ptr_step_ok(ptrs, k),
        0 <= i < n,
        0 <= j < n,
        ptr_at(ptrs, i) <= q < ptr_at(ptrs, i + 1),
        ptr_at(ptrs, j) <= q < ptr_at(ptrs, j + 1),
    ensures
        i == j,
{
    if i < j {
        lemma_ptrs_monotone(ptrs, n, i + 1, j);
    } else if j < i {
        lemma_ptrs_monotone(ptrs, n, j + 1, i);
    }
}

/// Pointers that start at zero, end at `nnz` and do not decrease between
/// consecutive lines.
pub open spec fn pointers_ok(ptrs: Seq<i64>, n: int, nnz: int) -> bool {
    &&& ptrs.len() == n + 1
    &&& ptrs[0] == 0
    &&& ptrs[n] == nnz
    &&& forall|k: int| 0 <= k < n ==> #[trigger] ptr_step_ok(ptrs, k)
}

/// Expands compressed pointers into the line of each stored entry: entry
/// `k` of the region of line `i` gets `i`.
pub fn expand_pointers(ptrs: &Vec<i64>, n_outer: usize, nnz: usize) -> (lines: Vec<i64>)
    requires
        pointers_ok(ptrs@, n_outer as int, nnz as int),
        n_outer <= i64::MAX,
        nnz <= i64::MAX,
    ensures
        lines@.len() == nnz,
        forall|k: int|
            0 <= k < nnz ==> 0 <= #[trigger] lines@[k] < n_outer && ptr_at(ptrs@, lines@[k] as int) <= k < ptr_at(
                ptrs@,
                lines@[k] + 1,
            ),
{
    let mut lines: Vec<i64> = Vec::with_capacity(nnz);
    let mut i: usize = 0;
    proof {
        lemma_ptrs_monotone(ptrs@, n_outer as int, 0, n_outer as int);
    }
    while i < n_outer
        invariant
            pointers_ok(ptrs@, n_outer as int, nnz as int),
            n_outer <= i64::MAX,
            nnz <= i64::MAX,
            i <= n_outer,
            lines@.len() == ptr_at(ptrs@, i as int),
            ptr_at(ptrs@, i as int) <= nnz,
            forall|k: int|
                0 <= k < lines@.len() ==> 0 <= #[trigger] lines@[k] < i && ptr_at(ptrs@, lines@[k] as int) <= k
                    < ptr_at(ptrs@, lines@[k] + 1),
        decreases n_outer - i,
    {
        let start = ptrs[i] as usize;
        let end = ptrs[i + 1] as usize;
        proof {
            lemma_ptrs_monotone(ptrs@, n_outer as int, i + 1, n_outer as int);
            assert(ptr_step_ok(ptrs@, i as int));
        }
        let mut k: usize = start;
        let ghost before = lines@;
        while k < end
            invariant
                start <= k <= end,
                end <= nnz,
                i < n_outer,
                n_outer <= i64::MAX,
                lines@.len() == k,
                before.len() == start,
                forall|q: int| 0 <= q < start ==> #[trigger] lines@[q] == before[q],
                forall|q: int| start <= q < k ==> #[trigger] lines@[q] == i,
            decreases end - k,
        {
            lines.push(i as i64);
            k += 1;
        }
        proof {
            assert forall|k2: int|
                0 <= k2 < lines@.len() implies 0 <= #[trigger] lines@[k2] < i + 1 && ptr_at(ptrs@, lines@[k2] as int)
                <= k2 < ptr_at(ptrs@, lines@[k2] + 1) by {
                if k2 < start {
                    assert(before[k2] == lines@[k2]);
                }
            }
        }
        i += 1;
    }
    lines
}

pub(crate) proof fn lemma_count_row_bound(rows: Seq<i64>, r: int, p: int)
    requires
        0 <= p,
    ensures
        count_row(rows, r, p) <= p,
    decreases p,
{
    if p > 0 {
        lemma_count_row_bound(rows, r, p - 1);
    }
}

/// The row pointers of entries grouped by row: `rp[i]` counts the entries
/// of the rows below `i`.
pub open spec fn row_pointers_of(rows: Seq<i64>, rp: Seq<i64>, n: int) -> bool {
    &&& rp.len() == n + 1
    &&& forall|i: int| 0 <= i <= n ==> #[trigger] rp[i] == count_rows_below(rows, i, rows.len() as int)
}

/// Every input position sits in the region of its row in the output, with
/// its column and value; positions of one row keep their input order.
pub open spec fn placed_by_row<V>(
    rows: Seq<i64>,
    cols: Seq<i64>,
    vals: Seq<V>,
    rp: Seq<i64>,
    oc: Seq<i64>,
    ov: Seq<V>,
    src: Seq<int>,
) -> bool {
    let nnz = rows.len() as int;
    &&& oc.len() == nnz
    &&& ov.len() == nnz
    &&& src.len() == nnz
    &&& forall|q: int|
        0 <= q < nnz ==> {
            &&& 0 <= #[trigger] src[q] < nnz
            &&& oc[q] == cols[src[q]]
            &&& ov[q] == vals[src[q]]
            &&& ptr_at(rp, rows[src[q]] as int) <= q < ptr_at(rp, rows[src[q]] + 1)
        }
    &&& forall|q1: int, q2: int|
        0 <= q1 < q2 < nnz && rows[src[q1]] == rows[src[q2]] ==> #[trigger] src[q1] < #[trigger] src[q2]
    &&& forall|k: int| 0 <= k < nnz ==> #[trigger] has_source(src, k)
}

/// Some output position takes its entry from input position `k`.
pub open spec fn has_source(src: Seq<int>, k: int) -> bool {
    exists|q: int| 0 <= q < src.len() && #[trigger] src[q] == k
}

/// Some filled output position takes its entry from input position `k`.
pub open spec fn has_filled_source(filled: Seq<bool>, src: Seq<int>, k: int) -> bool {
    exists|j: int| 0 <= j < src.len() && #[trigger] filled[j] && src[j] == k
}

proof fn lemma_row_pointers_ok(rows: Seq<i64>, rp: Seq<i64>, n: int)
    requires
        row_pointers_of(rows, rp, n),
        0 <= n,
        rows.len() <= i64::MAX,
        rows.len() <= usize::MAX,
        forall|k: int| 0 <= k < rows.len() ==> 0 <= #[trigger] rows[k] < n,
    ensures
        pointers_ok(rp, n, rows.len() as int),
        forall|i: int| 0 <= i <= n ==> 0 <= #[trigger] rp[i] <= rows.len() && ptr_at(rp, i) == rp[i],
        forall|i: int|
            0 <= i < n ==> #[trigger] ptr_at(rp, i + 1) == ptr_at(rp, i) + count_row(rows, i, rows.len() as int),
{
    let nnz = rows.len() as int;
    lemma_count_rows_total(rows, n, nnz);
    lemma_count_rows_zero(rows, 0);
    assert forall|i: int| 0 <= i <= n implies 0 <= #[trigger] rp[i] <= rows.len() && ptr_at(rp, i) == rp[i] by {
        lemma_count_rows_below_monotone(rows, i, n, nnz);
    }
    assert forall|i: int| 0 <= i < n implies #[trigger] ptr_at(rp, i + 1) == ptr_at(rp, i) + count_row(
        rows,
        i,
        nnz,
    ) by {
        assert(rp[i + 1] == count_rows_below(rows, i + 1, nnz));
        assert(0 <= rp[i + 1] <= nnz);
        assert(0 <= rp[i] <= nnz);
    }
    assert forall|k: int| 0 <= k < n implies #[trigger] ptr_step_ok(rp, k) by {
        assert(0 <= rp[k + 1] <= nnz);
        assert(0 <= rp[k] <= nnz);
    }
}

/// Every row lies in `[0, n)`.
pub open spec fn rows_in_range(rows: Seq<i64>, n: int) -> bool {
    forall|k: int| 0 <= k < rows.len() ==> 0 <= #[trigger] rows[k] < n
}

/// The row pointers count the rows, stay within the entries and read the
/// same as offsets.
pub open spec fn row_pointer_facts(rows: Seq<i64>, rp: Seq<i64>, n: int) -> bool {
    &&& row_pointers_of(rows, rp, n)
    &&& pointers_ok(rp, n, rows.len() as int)
    &&& forall|y: int| 0 <= y <= n ==> 0 <= #[trigger] rp[y] <= rows.len() && ptr_at(rp, y) == rp[y]
    &&& forall|y: int|
        0 <= y < n ==> #[trigger] ptr_at(rp, y + 1) == ptr_at(rp, y) + count_row(rows, y, rows.len() as int)
}

/// The cursor of each row stands after the entries of the row seen so far.
#[verifier::opaque]
pub open spec fn cursors_at(rows: Seq<i64>, rp: Seq<i64>, cur: Seq<i64>, p: int, n: int) -> bool {
    forall|y: int| 0 <= y < n ==> #[trigger] cur[y] == rp[y] + count_row(rows, y, p)
}

/// Each filled slot holds an input entry seen so far, inside the filled part
/// of the region of its row.
#[verifier::opaque]
pub open spec fn filled_slots_ok<V>(
    rows: Seq<i64>,
    cols: Seq<i64>,
    vals: Seq<V>,
    rp: Seq<i64>,
    oc: Seq<i64>,
    ov: Seq<V>,
    src: Seq<int>,
    filled: Seq<bool>,
    cur: Seq<i64>,
    p: int,
) -> bool {
    forall|j: int|
        0 <= j < filled.len() && #[trigger] filled[j] ==> {
            &&& 0 <= src[j] < p
            &&& oc[j] == cols[src[j]]
            &&& ov[j] == vals[src[j]]
            &&& rp[rows[src[j]] as int] <= j < cur[rows[src[j]] as int]
        }
}

/// The region of each row is filled up to its cursor.
#[verifier::opaque]
pub open spec fn regions_filled(rp: Seq<i64>, filled: Seq<bool>, cur: Seq<i64>, n: int) -> bool {
    forall|y: int, j: int| #![trigger cur[y], filled[j]] 0 <= y < n && rp[y] <= j < cur[y] ==> filled[j]
}

/// Filled slots of one row hold input positions in increasing order.
#[verifier::opaque]
pub open spec fn filled_in_order(rows: Seq<i64>, src: Seq<int>, filled: Seq<bool>) -> bool {
    forall|j1: int, j2: int|
        0 <= j1 < j2 < filled.len() && filled[j1] && filled[j2] && rows[src[j1]] == rows[src[j2]]
            ==> #[trigger] src[j1] < #[trigger] src[j2]
}

/// Every input position seen so far has a filled slot.
#[verifier::opaque]
pub open spec fn seen_placed(src: Seq<int>, filled: Seq<bool>, p: int) -> bool {
    forall|k2: int| 0 <= k2 < p ==> #[trigger] has_filled_source(filled, src, k2)
}

/// The state of a placement after the first `p` input positions: each row's
/// region is filled up to its cursor, in input order, with exactly the
/// entries of the row seen so far.
pub open spec fn placement_inv<V>(
    rows: Seq<i64>,
    cols: Seq<i64>,
    vals: Seq<V>,
    rp: Seq<i64>,
    oc: Seq<i64>,
    ov: Seq<V>,
    src: Seq<int>,
    filled: Seq<bool>,
    cur: Seq<i64>,
    p: int,
    n: int,
) -> bool {
    let nnz = rows.len() as int;
    &&& oc.len() == nnz
    &&& ov.len() == nnz
    &&& src.len() == nnz
    &&& filled.len() == nnz
    &&& cur.len() == n
    &&& cursors_at(rows, rp, cur, p, n)
    &&& filled_slots_ok(rows, cols, vals, rp, oc, ov, src, filled, cur, p)
    &&& regions_filled(rp, filled, cur, n)
    &&& filled_in_order(rows, src, filled)
    &&& seen_placed(src, filled, p)
}

/// The slot of the next entry lies inside the region of its row and is free.
proof fn lemma_place_slot<V>(
    rows: Seq<i64>,
    cols: Seq<i64>,
    vals: Seq<V>,
    rp: Seq<i64>,
    oc: Seq<i64>,
    ov: Seq<V>,
    src: Seq<int>,
    filled: Seq<bool>,
    cur: Seq<i64>,
    p: int,
    n: int,
)
    requires
        rows_in_range(rows, n),
        row_pointer_facts(rows, rp, n),
        0 <= p < rows.len(),
        placement_inv(rows, cols, vals, rp, oc, ov, src, filled, cur, p, n),
    ensures
        rp[rows[p] as int] <= cur[rows[p] as int] < rp[rows[p] + 1],
        !filled[cur[rows[p] as int] as int],
{
    reveal(cursors_at);
    reveal(filled_slots_ok);
    let row = rows[p] as int;
    let nnz = rows.len() as int;
    lemma_count_row_monotone(rows, row, p + 1, nnz);
    let pos = cur[row] as int;
    assert(rp[row] <= pos < rp[row + 1]);
    if filled[pos] {
        let y = rows[src[pos]] as int;
        lemma_count_row_monotone(rows, y, p, nnz);
        assert(ptr_at(rp, y) <= pos < ptr_at(rp, y + 1));
        assert(ptr_at(rp, row) <= pos < ptr_at(rp, row + 1));
        lemma_region_unique(rp, n, pos, y, row);
    }
}

proof fn lemma_step_cursors<V>(
    rows: Seq<i64>,
    cols: Seq<i64>,
    vals: Seq<V>,
    rp: Seq<i64>,
    oc: Seq<i64>,
    ov: Seq<V>,
    src: Seq<int>,
    filled: Seq<bool>,
    cur: Seq<i64>,
    p: int,
    n: int,
)
    requires
        rows_in_range(rows, n),
        row_pointer_facts(rows, rp, n),
        0 <= p < rows.len(),
        rows.len() <= i64::MAX,
        placement_inv(rows, cols, vals, rp, oc, ov, src, filled, cur, p, n),
        rp[rows[p] as int] <= cur[rows[p] as int] < rp[rows[p] + 1],
        !filled[cur[rows[p] as int] as int],
    ensures
        ({
            let row = rows[p] as int;
            let pos = cur[row] as int;
            let oc2 = oc.update(pos, cols[p]);
            let ov2 = ov.update(pos, vals[p]);
            let src2 = src.update(pos, p);
            let filled2 = filled.update(pos, true);
            let cur2 = cur.update(row, (cur[row] + 1) as i64);
            cursors_at(rows, rp, cur2, p + 1, n)
        }),
{
    let row = rows[p] as int;
    let pos = cur[row] as int;
    let oc2 = oc.update(pos, cols[p]);
    let ov2 = ov.update(pos, vals[p]);
    let src2 = src.update(pos, p);
    let filled2 = filled.update(pos, true);
    let cur2 = cur.update(row, (cur[row] + 1) as i64);
    reveal(cursors_at);
    assert forall|y: int| 0 <= y < n implies #[trigger] cur2[y] == rp[y] + count_row(rows, y, p + 1) by {
        assert(count_row(rows, y, p + 1) == count_row(rows, y, p) + if rows[p] == y {
            1nat
        } else {
            0nat
        });
        assert(cur[y] == rp[y] + count_row(rows, y, p));
    }
}

proof fn lemma_step_slots<V>(
    rows: Seq<i64>,
    cols: Seq<i64>,
    vals: Seq<V>,
    rp: Seq<i64>,
    oc: Seq<i64>,
    ov: Seq<V>,
    src: Seq<int>,
    filled: Seq<bool>,
    cur: Seq<i64>,
    p: int,
    n: int,
)
    requires
        rows_in_range(rows, n),
        row_pointer_facts(rows, rp, n),
        0 <= p < rows.len(),
        rows.len() <= i64::MAX,
        placement_inv(rows, cols, vals, rp, oc, ov, src, filled, cur, p, n),
        rp[rows[p] as int] <= cur[rows[p] as int] < rp[rows[p] + 1],
        !filled[cur[rows[p] as int] as int],
    ensures
        ({
            let row = rows[p] as int;
            let pos = cur[row] as int;
            let oc2 = oc.update(pos, cols[p]);
            let ov2 = ov.update(pos, vals[p]);
            let src2 = src.update(pos, p);
            let filled2 = filled.update(pos, true);
            let cur2 = cur.update(row, (cur[row] + 1) as i64);
            filled_slots_ok(rows, cols, vals, rp, oc2, ov2, src2, filled2, cur2, p + 1)
        }),
{
    let row = rows[p] as int;
    let pos = cur[row] as int;
    let oc2 = oc.update(pos, cols[p]);
    let ov2 = ov.update(pos, vals[p]);
    let src2 = src.update(pos, p);
    let filled2 = filled.update(pos, true);
    let cur2 = cur.update(row, (cur[row] + 1) as i64);
    reveal(filled_slots_ok);
    assert forall|j: int| 0 <= j < filled2.len() && #[trigger] filled2[j] implies {
        &&& 0 <= src2[j] < p + 1
        &&& oc2[j] == cols[src2[j]]
        &&& ov2[j] == vals[src2[j]]
        &&& rp[rows[src2[j]] as int] <= j < cur2[rows[src2[j]] as int]
    } by {
        if j != pos {
            assert(filled[j]);
            assert(rp[rows[src[j]] as int] <= j < cur[rows[src[j]] as int]);
        }
    }
}

proof fn lemma_step_regions<V>(
    rows: Seq<i64>,
    cols: Seq<i64>,
    vals: Seq<V>,
    rp: Seq<i64>,
    oc: Seq<i64>,
    ov: Seq<V>,
    src: Seq<int>,
    filled: Seq<bool>,
    cur: Seq<i64>,
    p: int,
    n: int,
)
    requires
        rows_in_range(rows, n),
        row_pointer_facts(rows, rp, n),
        0 <= p < rows.len(),
        rows.len() <= i64::MAX,
        placement_inv(rows, cols, vals, rp, oc, ov, src, filled, cur, p, n),
        rp[rows[p] as int] <= cur[rows[p] as int] < rp[rows[p] + 1],
        !filled[cur[rows[p] as int] as int],
    ensures
        ({
            let row = rows[p] as int;
            let pos = cur[row] as int;
            let oc2 = oc.update(pos, cols[p]);
            let ov2 = ov.update(pos, vals[p]);
            let src2 = src.update(pos, p);
            let filled2 = filled.update(pos, true);
            let cur2 = cur.update(row, (cur[row] + 1) as i64);
            regions_filled(rp, filled2, cur2, n)
        }),
{
    let row = rows[p] as int;
    let pos = cur[row] as int;
    let oc2 = oc.update(pos, cols[p]);
    let ov2 = ov.update(pos, vals[p]);
    let src2 = src.update(pos, p);
    let filled2 = filled.update(pos, true);
    let cur2 = cur.update(row, (cur[row] + 1) as i64);
    reveal(regions_filled);
    assert forall|y: int, j: int|
        #![trigger cur2[y], filled2[j]]
        0 <= y < n && rp[y] <= j < cur2[y] implies filled2[j] by {
        if j != pos {
            assert(cur2[y] == cur[y] || (y == row && cur2[y] == cur[y] + 1));
            assert(j < cur[y]);
            assert(filled[j]);
            reveal(cursors_at);
            lemma_count_row_monotone(rows, y, p, rows.len() as int);
            assert(cur[y] <= rp[y + 1]);
            assert(filled2[j] == filled[j]);
        }
    }
}

proof fn lemma_step_order<V>(
    rows: Seq<i64>,
    cols: Seq<i64>,
    vals: Seq<V>,
    rp: Seq<i64>,
    oc: Seq<i64>,
    ov: Seq<V>,
    src: Seq<int>,
    filled: Seq<bool>,
    cur: Seq<i64>,
    p: int,
    n: int,
)
    requires
        rows_in_range(rows, n),
        row_pointer_facts(rows, rp, n),
        0 <= p < rows.len(),
        rows.len() <= i64::MAX,
        placement_inv(rows, cols, vals, rp, oc, ov, src, filled, cur, p, n),
        rp[rows[p] as int] <= cur[rows[p] as int] < rp[rows[p] + 1],
        !filled[cur[rows[p] as int] as int],
    ensures
        ({
            let row = rows[p] as int;
            let pos = cur[row] as int;
            let oc2 = oc.update(pos, cols[p]);
            let ov2 = ov.update(pos, vals[p]);
            let src2 = src.update(pos, p);
            let filled2 = filled.update(pos, true);
            let cur2 = cur.update(row, (cur[row] + 1) as i64);
            filled_in_order(rows, src2, filled2)
        }),
{
    let row = rows[p] as int;
    let pos = cur[row] as int;
    let oc2 = oc.update(pos, cols[p]);
    let ov2 = ov.update(pos, vals[p]);
    let src2 = src.update(pos, p);
    let filled2 = filled.update(pos, true);
    let cur2 = cur.update(row, (cur[row] + 1) as i64);
    reveal(filled_in_order);
    reveal(filled_slots_ok);
    assert forall|j1: int, j2: int|
        0 <= j1 < j2 < filled2.len() && filled2[j1] && filled2[j2] && rows[src2[j1]] == rows[src2[j2]] implies #[trigger] src2[j1]
        < #[trigger] src2[j2] by {
        if j1 == pos {
            assert(filled[j2]);
            assert(j2 < cur[rows[src[j2]] as int]);
        } else if j2 == pos {
            assert(filled[j1]);
        } else {
            assert(src[j1] < src[j2]);
        }
    }
}

proof fn lemma_step_seen<V>(
    rows: Seq<i64>,
    cols: Seq<i64>,
    vals: Seq<V>,
    rp: Seq<i64>,
    oc: Seq<i64>,
    ov: Seq<V>,
    src: Seq<int>,
    filled: Seq<bool>,
    cur: Seq<i64>,
    p: int,
    n: int,
)
    requires
        rows_in_range(rows, n),
        row_pointer_facts(rows, rp, n),
        0 <= p < rows.len(),
        rows.len() <= i64::MAX,
        placement_inv(rows, cols, vals, rp, oc, ov, src, filled, cur, p, n),
        rp[rows[p] as int] <= cur[rows[p] as int] < rp[rows[p] + 1],
        !filled[cur[rows[p] as int] as int],
    ensures
        ({
            let row = rows[p] as int;
            let pos = cur[row] as int;
            let oc2 = oc.update(pos, cols[p]);
            let ov2 = ov.update(pos, vals[p]);
            let src2 = src.update(pos, p);
            let filled2 = filled.update(pos, true);
            let cur2 = cur.update(row, (cur[row] + 1) as i64);
            seen_placed(src2, filled2, p + 1)
        }),
{
    let row = rows[p] as int;
    let pos = cur[row] as int;
    let oc2 = oc.update(pos, cols[p]);
    let ov2 = ov.update(pos, vals[p]);
    let src2 = src.update(pos, p);
    let filled2 = filled.update(pos, true);
    let cur2 = cur.update(row, (cur[row] + 1) as i64);
    reveal(seen_placed);
    assert forall|k2: int| 0 <= k2 < p + 1 implies #[trigger] has_filled_source(filled2, src2, k2) by {
        if k2 == p {
            assert(filled2[pos] && src2[pos] == k2);
        } else {
            assert(has_filled_source(filled, src, k2));
            let j = choose|j: int| 0 <= j < src.len() && #[trigger] filled[j] && src[j] == k2;
            assert(filled2[j] && src2[j] == k2);
        }
    }
}

/// Placing input position `p` into the free slot of its row keeps the
/// placement state, one position further.
proof fn lemma_place_step<V>(
    rows: Seq<i64>,
    cols: Seq<i64>,
    vals: Seq<V>,
    rp: Seq<i64>,
    oc: Seq<i64>,
    ov: Seq<V>,
    src: Seq<int>,
    filled: Seq<bool>,
    cur: Seq<i64>,
    p: int,
    n: int,
)
    requires
        rows_in_range(rows, n),
        row_pointer_facts(rows, rp, n),
        0 <= p < rows.len(),
        rows.len() <= i64::MAX,
        placement_inv(rows, cols, vals, rp, oc, ov, src, filled, cur, p, n),
        rp[rows[p] as int] <= cur[rows[p] as int] < rp[rows[p] + 1],
        !filled[cur[rows[p] as int] as int],
    ensures
        ({
            let row = rows[p] as int;
            let pos = cur[row] as int;
            placement_inv(
                rows,
                cols,
                vals,
                rp,
                oc.update(pos, cols[p]),
                ov.update(pos, vals[p]),
                src.update(pos, p),
                filled.update(pos, true),
                cur.update(row, (cur[row] + 1) as i64),
                p + 1,
                n,
            )
        }),
{
    lemma_step_cursors(rows, cols, vals, rp, oc, ov, src, filled, cur, p, n);
    lemma_step_slots(rows, cols, vals, rp, oc, ov, src, filled, cur, p, n);
    lemma_step_regions(rows, cols, vals, rp, oc, ov, src, filled, cur, p, n);
    lemma_step_order(rows, cols, vals, rp, oc, ov, src, filled, cur, p, n);
    lemma_step_seen(rows, cols, vals, rp, oc, ov, src, filled, cur, p, n);
}

/// After every input position is placed, every slot is filled and the
/// placement is complete.
proof fn lemma_place_done<V>(
    rows: Seq<i64>,
    cols: Seq<i64>,
    vals: Seq<V>,
    rp: Seq<i64>,
    oc: Seq<i64>,
    ov: Seq<V>,
    src: Seq<int>,
    filled: Seq<bool>,
    cur: Seq<i64>,
    n: int,
)
    requires
        0 <= n,
        rows_in_range(rows, n),
        row_pointer_facts(rows, rp, n),
        placement_inv(rows, cols, vals, rp, oc, ov, src, filled, cur, rows.len() as int, n),
    ensures
        placed_by_row(rows, cols, vals, rp, oc, ov, src),
{
    reveal(cursors_at);
    reveal(filled_slots_ok);
    reveal(regions_filled);
    reveal(filled_in_order);
    reveal(seen_placed);
    let nnz = rows.len() as int;
    assert forall|j: int| 0 <= j < nnz implies #[trigger] filled[j] by {
        let y = lemma_region_of(rp, n, j);
        assert(cur[y] == rp[y + 1]);
    }
    assert forall|j1: int, j2: int|
        0 <= j1 < j2 < nnz && rows[src[j1]] == rows[src[j2]] implies #[trigger] src[j1] < #[trigger] src[j2] by {
        assert(filled[j1] && filled[j2]);
    }
    assert forall|k2: int| 0 <= k2 < nnz implies #[trigger] has_source(src, k2) by {
        assert(has_filled_source(filled, src, k2));
        let j = choose|j: int| 0 <= j < src.len() && #[trigger] filled[j] && src[j] == k2;
        assert(src[j] == k2);
    }
    assert forall|j: int| 0 <= j < nnz implies {
        &&& 0 <= #[trigger] src[j] < nnz
        &&& oc[j] == cols[src[j]]
        &&& ov[j] == vals[src[j]]
        &&& ptr_at(rp, rows[src[j]] as int) <= j < ptr_at(rp, rows[src[j]] + 1)
    } by {
        assert(filled[j]);
        let y = rows[src[j]] as int;
        assert(cur[y] == rp[y + 1]);
    }
}

/// Groups entries by row, keeping their order within a row: the returned
/// row pointers count the entries of each row, and the columns and values
/// are placed into the region of their row.
pub fn place_by_row<V: Copy>(rows: &Vec<i64>, cols: &Vec<i64>, vals: &Vec<V>, n_rows: usize) -> (res: (
    Vec<i64>,
    Vec<i64>,
    Vec<V>,
    Ghost<Seq<int>>,
))
    requires
        rows@.len() == cols@.len(),
        rows@.len() == vals@.len(),
        rows@.len() <= i64::MAX,
        n_rows < usize::MAX,
        forall|k: int| 0 <= k < rows@.len() ==> 0 <= #[trigger] rows@[k] < n_rows,
    ensures
        row_pointers_of(rows@, res.0@, n_rows as int),
        pointers_ok(res.0@, n_rows as int, rows@.len() as int),
        placed_by_row(rows@, cols@, vals@, res.0@, res.1@, res.2@, res.3@),
{
    let nnz = rows.len();
    let mut counts: Vec<usize> = Vec::with_capacity(n_rows);
    let mut r: usize = 0;
    while r < n_rows
        invariant
            r <= n_rows,
            counts@.len() == r,
            forall|x: int| 0 <= x < r ==> #[trigger] counts@[x] == 0,
        decreases n_rows - r,
    {
        counts.push(0);
        r += 1;
    }
    let mut k: usize = 0;
    while k < nnz
        invariant
            nnz == rows@.len(),
            forall|j: int| 0 <= j < rows@.len() ==> 0 <= #[trigger] rows@[j] < n_rows,
            k <= nnz,
            counts@.len() == n_rows,
            forall|x: int| 0 <= x < n_rows ==> #[trigger] counts@[x] == count_row(rows@, x, k as int),
        decreases nnz - k,
    {
        let row = rows[k] as usize;
        proof {
            lemma_count_row_bound(rows@, row as int, k as int);
        }
        let c = counts[row];
        counts.set(row, c + 1);
        proof {
            assert forall|x: int| 0 <= x < n_rows implies #[trigger] counts@[x] == count_row(rows@, x, k + 1) by {
                assert(count_row(rows@, x, k + 1) == count_row(rows@, x, k as int) + if rows@[k as int] == x {
                    1nat
                } else {
                    0nat
                });
            }
        }
        k += 1;
    }
    proof {
        lemma_count_rows_total(rows@, n_rows as int, nnz as int);
    }
    let mut rp: Vec<i64> = Vec::with_capacity(n_rows + 1);
    rp.push(0);
    let mut i: usize = 0;
    while i < n_rows
        invariant
            nnz == rows@.len(),
            nnz <= i64::MAX,
            i <= n_rows,
            counts@.len() == n_rows,
            forall|x: int| 0 <= x < n_rows ==> #[trigger] counts@[x] == count_row(rows@, x, nnz as int),
            count_rows_below(rows@, n_rows as int, nnz as int) == nnz,
            rp@.len() == i + 1,
            forall|x: int| 0 <= x <= i ==> #[trigger] rp@[x] == count_rows_below(rows@, x, nnz as int),
        decreases n_rows - i,
    {
        proof {
            lemma_count_rows_below_monotone(rows@, i + 1, n_rows as int, nnz as int);
            assert(count_rows_below(rows@, i + 1, nnz as int) == count_rows_below(rows@, i as int, nnz as int)
                + count_row(rows@, i as int, nnz as int));
        }
        let next = rp[i] + counts[i] as i64;
        rp.push(next);
        i += 1;
    }
    proof {
        lemma_row_pointers_ok(rows@, rp@, n_rows as int);
    }
    assert(row_pointer_facts(rows@, rp@, n_rows as int));
    let mut oc: Vec<i64> = Vec::with_capacity(nnz);
    let mut ov: Vec<V> = Vec::with_capacity(nnz);
    if nnz == 0 {
        return (rp, oc, ov, Ghost(Seq::empty()));
    }
    let filler = vals[0];
    let mut q: usize = 0;
    while q < nnz
        invariant
            q <= nnz,
            oc@.len() == q,
            ov@.len() == q,
        decreases nnz - q,
    {
        oc.push(0);
        ov.push(filler);
        q += 1;
    }
    let mut cur: Vec<i64> = Vec::with_capacity(n_rows);
    let mut x: usize = 0;
    while x < n_rows
        invariant
            x <= n_rows,
            rp@.len() == n_rows + 1,
            cur@.len() == x,
            forall|y: int| 0 <= y < x ==> #[trigger] cur@[y] == rp@[y],
        decreases n_rows - x,
    {
        cur.push(rp[x]);
        x += 1;
    }
    let ghost mut src: Seq<int> = Seq::new(nnz as nat, |j: int| 0int);
    let ghost mut filled: Seq<bool> = Seq::new(nnz as nat, |j: int| false);
    proof {
        reveal(cursors_at);
        reveal(filled_slots_ok);
        reveal(regions_filled);
        reveal(filled_in_order);
        reveal(seen_placed);
        assert forall|y: int| 0 <= y < n_rows implies #[trigger] cur@[y] == rp@[y] + count_row(rows@, y, 0) by {
        }
    }
    let mut p: usize = 0;
    while p < nnz
        invariant
            nnz == rows@.len(),
            nnz == cols@.len(),
            nnz == vals@.len(),
            nnz <= i64::MAX,
            rows_in_range(rows@, n_rows as int),
            row_pointer_facts(rows@, rp@, n_rows as int),
            p <= nnz,
            placement_inv(rows@, cols@, vals@, rp@, oc@, ov@, src, filled, cur@, p as int, n_rows as int),
        decreases nnz - p,
    {
        let row = rows[p] as usize;
        proof {
            lemma_place_slot(rows@, cols@, vals@, rp@, oc@, ov@, src, filled, cur@, p as int, n_rows as int);
        }
        let pos_i = cur[row];
        let pos = pos_i as usize;
        let ghost old_oc = oc@;
        let ghost old_ov = ov@;
        let ghost old_cur = cur@;
        oc.set(pos, cols[p]);
        ov.set(pos, vals[p]);
        cur.set(row, pos_i + 1);
        proof {
            lemma_place_step(
                rows@,
                cols@,
                vals@,
                rp@,
                old_oc,
                old_ov,
                src,
                filled,
                old_cur,
                p as int,
                n_rows as int,
            );
            src = src.update(pos as int, p as int);
            filled = filled.update(pos as int, true);
        }
        p += 1;
    }
    proof {
        lemma_place_done(rows@, cols@, vals@, rp@, oc@, ov@, src, filled, cur@, n_rows as int);
    }
    (rp, oc, ov, Ghost(src))
}

/// `perm` rearranges the positions of `[a, b)` among themselves and leaves
/// every other position in place.
pub open spec fn region_permutation(perm: Seq<int>, a: int, b: int) -> bool {
    &&& forall|q: int| 0 <= q < perm.len() && !(a <= q < b) ==> #[trigger] perm[q] == q
    &&& forall|q: int| a <= q < b ==> a <= #[trigger] perm[q] < b
    &&& forall|x: int, y: int| a <= x < y < b ==> #[trigger] perm[x] != #[trigger] perm[y]
    &&& forall|q0: int| a <= q0 < b ==> #[trigger] has_source(perm, q0)
}

/// The entries at positions `[a, b)` are in non-decreasing order.
pub open spec fn sorted_between(s: Seq<i64>, a: int, b: int) -> bool {
    forall|x: int, y: int| a <= x < y < b ==> #[trigger] s[x] <= #[trigger] s[y]
}

/// Sorted between `a` and `b`, except that the entry at `j` may be smaller
/// than those before it.
spec fn sorted_except(s: Seq<i64>, a: int, b: int, j: int) -> bool {
    forall|x: int, y: int|
        a <= x < y < b && y != j ==> #[trigger] s[x] <= #[trigger] s[y]
}

/// Sorts the keys at positions `[a, b)` into non-decreasing order, moving the
/// values along; the returned permutation tells where each entry came from.
pub fn sort_region<V: Copy>(keys: &mut Vec<i64>, vals: &mut Vec<V>, a: usize, b: usize) -> (perm: Ghost<Seq<int>>)
    requires
        a <= b <= old(keys)@.len(),
        old(vals)@.len() == old(keys)@.len(),
    ensures
        final(keys)@.len() == old(keys)@.len(),
        final(vals)@.len() == old(vals)@.len(),
        perm@.len() == old(keys)@.len(),
        region_permutation(perm@, a as int, b as int),
        forall|q: int| 0 <= q < old(keys)@.len() ==> #[trigger] final(keys)@[q] == old(keys)@[perm@[q]],
        forall|q: int| 0 <= q < old(vals)@.len() ==> #[trigger] final(vals)@[q] == old(vals)@[perm@[q]],
        sorted_between(final(keys)@, a as int, b as int),
{
    let ghost k0 = keys@;
    let ghost v0 = vals@;
    let ghost n = keys@.len();
    let ghost mut perm: Seq<int> = Seq::new(n, |q: int| q);
    proof {
        assert forall|q0: int| a <= q0 < b implies #[trigger] has_source(perm, q0) by {
            assert(perm[q0] == q0);
        }
    }
    if b - a <= 1 {
        return Ghost(perm);
    }
    let mut i: usize = a + 1;
    while i < b
        invariant
            a < i <= b,
            b <= n,
            n == k0.len(),
            n == v0.len(),
            keys@.len() == n,
            vals@.len() == n,
            perm.len() == n,
            region_permutation(perm, a as int, b as int),
            forall|q: int| 0 <= q < n ==> #[trigger] keys@[q] == k0[perm[q]],
            forall|q: int| 0 <= q < n ==> #[trigger] vals@[q] == v0[perm[q]],
            sorted_between(keys@, a as int, i as int),
        decreases b - i,
    {
        let mut j: usize = i;
        while j > a && keys[j - 1] > keys[j]
            invariant
                a <= j <= i < b,
                b <= n,
                n == k0.len(),
                n == v0.len(),
                keys@.len() == n,
                vals@.len() == n,
                perm.len() == n,
                region_permutation(perm, a as int, b as int),
                forall|q: int| 0 <= q < n ==> #[trigger] keys@[q] == k0[perm[q]],
                forall|q: int| 0 <= q < n ==> #[trigger] vals@[q] == v0[perm[q]],
                sorted_except(keys@, a as int, i + 1, j as int),
                forall|y: int| j < y <= i ==> keys@[j as int] <= #[trigger] keys@[y],
            decreases j,
        {
            let kx = keys[j - 1];
            let ky = keys[j];
            keys.set(j - 1, ky);
            keys.set(j, kx);
            let vx = vals[j - 1];
            let vy = vals[j];
            vals.set(j - 1, vy);
            vals.set(j, vx);
            proof {
                let p_old = perm;
                perm = perm.update(j - 1, p_old[j as int]).update(j as int, p_old[j - 1]);
                assert forall|q: int| 0 <= q < perm.len() && !(a <= q < b) implies #[trigger] perm[q] == q by {
                    assert(p_old[q] == q);
                }
                assert forall|q: int| a <= q < b implies a <= #[trigger] perm[q] < b by {
                    assert(a <= p_old[q] < b);
                }
                assert forall|x: int, y: int| a <= x < y < b implies #[trigger] perm[x] != #[trigger] perm[y] by {
                    let ox = if x == j - 1 {
                        j as int
                    } else if x == j {
                        j - 1
                    } else {
                        x
                    };
                    let oy = if y == j - 1 {
                        j as int
                    } else if y == j {
                        j - 1
                    } else {
                        y
                    };
                    assert(perm[x] == p_old[ox]);
                    assert(perm[y] == p_old[oy]);
                    if ox < oy {
                        assert(p_old[ox] != p_old[oy]);
                    } else {
                        assert(p_old[oy] != p_old[ox]);
                    }
                }
                assert forall|q0: int| a <= q0 < b implies #[trigger] has_source(perm, q0) by {
                    assert(has_source(p_old, q0));
                    let q = choose|q: int| 0 <= q < p_old.len() && #[trigger] p_old[q] == q0;
                    let nq = if q == j - 1 {
                        j as int
                    } else if q == j {
                        j - 1
                    } else {
                        q
                    };
                    assert(perm[nq] == q0);
                }
                assert forall|x: int, y: int| a <= x < y < i + 1 && y != j - 1 implies #[trigger] keys@[x]
                    <= #[trigger] keys@[y] by {
                    if x == j - 1 {
                        if y == j {
                        } else {
                            assert(ky <= keys@[y]);
                        }
                    } else if x == j {
                        assert(kx <= keys@[y]);
                    } else if y == j {
                        assert(keys@[x] <= kx);
                    }
                }
            }
            j -= 1;
        }
        proof {
            assert forall|x: int, y: int| a <= x < y < i + 1 implies #[trigger] keys@[x] <= #[trigger] keys@[y] by {
                if y == j {
                    if x < j - 1 {
                        assert(keys@[x] <= keys@[j - 1]);
                    }
                }
            }
        }
        i += 1;
    }
    Ghost(perm)
}

} // verus!
