//! Expansion of sparse storage into row-major dense storage.

use vstd::prelude::*;
use super::tensor::{csr_entries, csr_holds, csc_entries, csc_holds, coo_entries, coo_last_holds, dense_of};
use super::validate::{compressed_valid, coo_valid, coo_entry_ok, entry_ok, line_ok, ptr_at};

verus! {

/// The dense value of cell `(r, c)`: the stored entry, or `zero`.
pub open spec fn cell<V>(entries: Map<(int, int), V>, r: int, c: int, zero: V) -> V {
    if entries.contains_key((r, c)) {
        entries[(r, c)]
    } else {
        zero
    }
}

/// Every cell of a row-major buffer of `shape` holds the dense value of `entries`.
pub open spec fn holds_cells<V>(d: Seq<V>, entries: Map<(int, int), V>, shape: [usize; 2], zero: V) -> bool {
    &&& d.len() == shape[0] * shape[1]
    &&& forall|r: int, c: int|
        0 <= r < shape[0] && 0 <= c < shape[1] ==> #[trigger] d[r * shape[1] + c] == cell(
            entries,
            r,
            c,
            zero,
        )
}

pub(crate) proof fn lemma_cell_position(r: int, c: int, rows: int, cols: int)
    by (nonlinear_arith)
    requires
        0 <= r < rows,
        0 <= c < cols,
    ensures
        0 <= r * cols + c < rows * cols,
        (r * cols + c) / cols == r,
        (r * cols + c) % cols == c,
{
}

pub(crate) proof fn lemma_position_cell(p: int, rows: int, cols: int)
    by (nonlinear_arith)
    requires
        0 <= p < rows * cols,
        cols > 0,
    ensures
        0 <= p / cols < rows,
        0 <= p % cols < cols,
        p == (p / cols) * cols + p % cols,
{
}

/// A buffer that holds every cell is the dense matrix of the entries.
pub(crate) proof fn lemma_cells_dense<V>(d: Seq<V>, entries: Map<(int, int), V>, shape: [usize; 2], zero: V)
    requires
        holds_cells(d, entries, shape, zero),
    ensures
        d == dense_of(entries, shape, zero),
{
    let target = dense_of(entries, shape, zero);
    assert forall|p: int| 0 <= p < d.len() implies d[p] == target[p] by {
        let cols = shape[1] as int;
        if cols == 0 {
            assert(shape[0] * shape[1] == 0) by (nonlinear_arith)
                requires
                    cols == 0,
                    shape[1] == cols,
            ;
        }
        lemma_position_cell(p, shape[0] as int, cols);
        let r = p / cols;
        let c = p % cols;
        assert(d[r * shape[1] + c] == cell(entries, r, c, zero));
    }
    assert(d =~= target);
}

/// Indices of a valid line strictly increase over the whole line.
pub(crate) proof fn lemma_line_strict(ptrs: Seq<i64>, idx: Seq<i64>, nnz: usize, n_inner: usize, i: int, j1: int, j2: int)
    requires
        line_ok(ptrs, idx, nnz, n_inner, i),
        ptr_at(ptrs, i) <= j1 < j2 < ptr_at(ptrs, i + 1),
    ensures
        idx[j1] < idx[j2],
    decreases j2 - j1,
{
    assert(entry_ok(idx, nnz, n_inner, ptr_at(ptrs, i), j2));
    if j2 - 1 > j1 {
        lemma_line_strict(ptrs, idx, nnz, n_inner, i, j1, j2 - 1);
    }
}

/// Expands a CSR structure of `shape` into its row-major dense matrix, with
/// `zero` at the cells it does not store.
pub fn csr_to_dense<V: Copy>(
    values: &Vec<V>,
    col_indices: &Vec<i64>,
    row_pointers: &Vec<i64>,
    shape: [usize; 2],
    zero: V,
) -> (dense: Vec<V>)
    requires
        compressed_valid(values@.len() as usize, col_indices@, row_pointers@, shape[0], shape[1]),
        shape[0] * shape[1] <= usize::MAX,
    ensures
        dense@ == dense_of(csr_entries(values@, col_indices@, row_pointers@, shape), shape, zero),
{
    let n_rows = shape[0];
    let n_cols = shape[1];
    let total = n_rows * n_cols;
    let n_values = values.len();
    let ghost nnz = n_values;
    let ghost entries = csr_entries(values@, col_indices@, row_pointers@, shape);
    let mut dense: Vec<V> = Vec::with_capacity(total);
    let mut p: usize = 0;
    while p < total
        invariant
            p <= total,
            dense@.len() == p,
            forall|q: int| 0 <= q < p ==> dense@[q] == zero,
        decreases total - p,
    {
        dense.push(zero);
        p += 1;
    }
    proof {
        assert forall|r: int, c: int|
            0 <= r < n_rows && 0 <= c < n_cols implies #[trigger] dense@[r * n_cols + c] == zero by {
            lemma_cell_position(r, c, n_rows as int, n_cols as int);
        }
    }
    let mut i: usize = 0;
    while i < n_rows
        invariant
            n_rows == shape[0],
            n_cols == shape[1],
            total == n_rows * n_cols,
            total <= usize::MAX,
            nnz == values@.len(),
            entries == csr_entries(values@, col_indices@, row_pointers@, shape),
            compressed_valid(nnz, col_indices@, row_pointers@, n_rows, n_cols),
            i <= n_rows,
            dense@.len() == total,
            forall|r: int, c: int|
                0 <= r < i && 0 <= c < n_cols ==> #[trigger] dense@[r * n_cols + c] == cell(
                    entries,
                    r,
                    c,
                    zero,
                ),
            forall|r: int, c: int|
                i <= r < n_rows && 0 <= c < n_cols ==> #[trigger] dense@[r * n_cols + c] == zero,
        decreases n_rows - i,
    {
        assert(line_ok(row_pointers@, col_indices@, nnz, n_cols, i as int));
        let start = row_pointers[i] as usize;
        let end = row_pointers[i + 1] as usize;
        assert(start as int == ptr_at(row_pointers@, i as int));
        assert(end as int == ptr_at(row_pointers@, i + 1));
        let ghost before = dense@;
        let mut j: usize = start;
        while j < end
            invariant
                n_rows == shape[0],
                n_cols == shape[1],
                total == n_rows * n_cols,
                nnz == values@.len(),
                compressed_valid(nnz, col_indices@, row_pointers@, n_rows, n_cols),
                line_ok(row_pointers@, col_indices@, nnz, n_cols, i as int),
                i < n_rows,
                start == ptr_at(row_pointers@, i as int),
                end == ptr_at(row_pointers@, i + 1),
                start <= j <= end,
                dense@.len() == total,
                forall|q: int|
                    0 <= q < total && !(i * n_cols <= q < i * n_cols + n_cols) ==> #[trigger] dense@[q]
                        == before[q],
                forall|k: int| start <= k < j ==> #[trigger] dense@[i * n_cols + col_indices@[k]] == values@[k],
                forall|c: int|
                    0 <= c < n_cols && (forall|k: int| start <= k < j ==> col_indices@[k] != c)
                        ==> #[trigger] dense@[i * n_cols + c] == before[i * n_cols + c],
            decreases end - j,
        {
            assert(entry_ok(col_indices@, nnz, n_cols, start as int, j as int));
            let col = col_indices[j] as usize;
            proof {
                lemma_cell_position(i as int, col as int, n_rows as int, n_cols as int);
            }
            let pos = i * n_cols + col;
            let ghost prev = dense@;
            dense.set(pos, values[j]);
            proof {
                assert forall|k: int| start <= k < j + 1 implies #[trigger] dense@[i * n_cols
                    + col_indices@[k]] == values@[k] by {
                    assert(entry_ok(col_indices@, nnz, n_cols, start as int, k));
                    lemma_cell_position(i as int, col_indices@[k] as int, n_rows as int, n_cols as int);
                    if k < j {
                        lemma_line_strict(row_pointers@, col_indices@, nnz, n_cols, i as int, k, j as int);
                        assert(prev[i * n_cols + col_indices@[k]] == values@[k]);
                    }
                }
                assert forall|q: int|
                    0 <= q < total && !(i * n_cols <= q < i * n_cols + n_cols) implies #[trigger] dense@[q]
                    == before[q] by {
                    assert(q != pos);
                    assert(prev[q] == before[q]);
                }
                assert forall|c: int|
                    0 <= c < n_cols && (forall|k: int| start <= k < j + 1 ==> col_indices@[k] != c) implies #[trigger] dense@[i * n_cols + c] == before[i * n_cols + c] by {
                    assert(col_indices@[j as int] != c);
                    lemma_cell_position(i as int, c, n_rows as int, n_cols as int);
                    assert(prev[i * n_cols + c] == before[i * n_cols + c]);
                }
            }
            j += 1;
        }
        proof {
            assert forall|r: int, c: int|
                0 <= r < i + 1 && 0 <= c < n_cols implies #[trigger] dense@[r * n_cols + c] == cell(
                entries,
                r,
                c,
                zero,
            ) by {
                lemma_cell_position(r, c, n_rows as int, n_cols as int);
                if r < i {
                    assert(r * n_cols + c < i * n_cols) by (nonlinear_arith)
                        requires
                            r < i,
                            c < n_cols,
                    ;
                    assert(dense@[r * n_cols + c] == before[r * n_cols + c]);
                } else {
                    if entries.contains_key((r, c)) {
                        let k = choose|k: int| csr_holds(col_indices@, row_pointers@, r, c, k);
                        assert(dense@[i * n_cols + col_indices@[k]] == values@[k]);
                    } else {
                        assert forall|k: int| start <= k < end implies col_indices@[k] != c by {
                            if col_indices@[k] == c {
                                assert(csr_holds(col_indices@, row_pointers@, r, c, k));
                            }
                        }
                        assert(before[i * n_cols + c] == zero);
                    }
                }
            }
            assert forall|r: int, c: int|
                i + 1 <= r < n_rows && 0 <= c < n_cols implies #[trigger] dense@[r * n_cols + c] == zero by {
                lemma_cell_position(r, c, n_rows as int, n_cols as int);
                assert(r * n_cols + c >= i * n_cols + n_cols) by (nonlinear_arith)
                    requires
                        r > i,
                        c >= 0,
                ;
                assert(dense@[r * n_cols + c] == before[r * n_cols + c]);
            }
        }
        i += 1;
    }
    proof {
        lemma_cells_dense(dense@, entries, shape, zero);
    }
    dense
}

/// Expands a CSC structure of `shape` into its row-major dense matrix, with
/// `zero` at the cells it does not store.
pub fn csc_to_dense<V: Copy>(
    values: &Vec<V>,
    row_indices: &Vec<i64>,
    col_pointers: &Vec<i64>,
    shape: [usize; 2],
    zero: V,
) -> (dense: Vec<V>)
    requires
        compressed_valid(values@.len() as usize, row_indices@, col_pointers@, shape[1], shape[0]),
        shape[0] * shape[1] <= usize::MAX,
    ensures
        dense@ == dense_of(csc_entries(values@, row_indices@, col_pointers@, shape), shape, zero),
{
    let n_rows = shape[0];
    let n_cols = shape[1];
    let total = n_rows * n_cols;
    let n_values = values.len();
    let ghost nnz = n_values;
    let ghost entries = csc_entries(values@, row_indices@, col_pointers@, shape);
    let mut dense: Vec<V> = Vec::with_capacity(total);
    let mut p: usize = 0;
    while p < total
        invariant
            p <= total,
            dense@.len() == p,
            forall|q: int| 0 <= q < p ==> dense@[q] == zero,
        decreases total - p,
    {
        dense.push(zero);
        p += 1;
    }
    proof {
        assert forall|r: int, c: int|
            0 <= r < n_rows && 0 <= c < n_cols implies #[trigger] dense@[r * n_cols + c] == zero by {
            lemma_cell_position(r, c, n_rows as int, n_cols as int);
        }
    }
    let mut j: usize = 0;
    while j < n_cols
        invariant
            n_rows == shape[0],
            n_cols == shape[1],
            total == n_rows * n_cols,
            total <= usize::MAX,
            nnz == values@.len(),
            entries == csc_entries(values@, row_indices@, col_pointers@, shape),
            compressed_valid(nnz, row_indices@, col_pointers@, n_cols, n_rows),
            j <= n_cols,
            dense@.len() == total,
            forall|r: int, c: int|
                0 <= r < n_rows && 0 <= c < j ==> #[trigger] dense@[r * n_cols + c] == cell(
                    entries,
                    r,
                    c,
                    zero,
                ),
            forall|r: int, c: int|
                0 <= r < n_rows && j <= c < n_cols ==> #[trigger] dense@[r * n_cols + c] == zero,
        decreases n_cols - j,
    {
        assert(line_ok(col_pointers@, row_indices@, nnz, n_rows, j as int));
        let start = col_pointers[j] as usize;
        let end = col_pointers[j + 1] as usize;
        assert(start as int == ptr_at(col_pointers@, j as int));
        assert(end as int == ptr_at(col_pointers@, j + 1));
        let ghost before = dense@;
        let mut i: usize = start;
        while i < end
            invariant
                n_rows == shape[0],
                n_cols == shape[1],
                total == n_rows * n_cols,
                nnz == values@.len(),
                compressed_valid(nnz, row_indices@, col_pointers@, n_cols, n_rows),
                line_ok(col_pointers@, row_indices@, nnz, n_rows, j as int),
                j < n_cols,
                start == ptr_at(col_pointers@, j as int),
                end == ptr_at(col_pointers@, j + 1),
                start <= i <= end,
                dense@.len() == total,
                forall|r: int, c: int|
                    0 <= r < n_rows && 0 <= c < n_cols && c != j ==> #[trigger] dense@[r * n_cols + c]
                        == before[r * n_cols + c],
                forall|k: int| start <= k < i ==> #[trigger] dense@[row_indices@[k] * n_cols + j] == values@[k],
                forall|r: int|
                    0 <= r < n_rows && (forall|k: int| start <= k < i ==> row_indices@[k] != r)
                        ==> #[trigger] dense@[r * n_cols + j] == before[r * n_cols + j],
            decreases end - i,
        {
            assert(entry_ok(row_indices@, nnz, n_rows, start as int, i as int));
            let row = row_indices[i] as usize;
            proof {
                lemma_cell_position(row as int, j as int, n_rows as int, n_cols as int);
            }
            let pos = row * n_cols + j;
            let ghost prev = dense@;
            dense.set(pos, values[i]);
            proof {
                assert forall|k: int| start <= k < i + 1 implies #[trigger] dense@[row_indices@[k] * n_cols
                    + j] == values@[k] by {
                    assert(entry_ok(row_indices@, nnz, n_rows, start as int, k));
                    lemma_cell_position(row_indices@[k] as int, j as int, n_rows as int, n_cols as int);
                    if k < i {
                        lemma_line_strict(col_pointers@, row_indices@, nnz, n_rows, j as int, k, i as int);
                        assert(prev[row_indices@[k] * n_cols + j] == values@[k]);
                        assert(row_indices@[k] * n_cols + j != pos) by (nonlinear_arith)
                            requires
                                row_indices@[k] < row,
                                pos == row * n_cols + j,
                                0 <= j < n_cols,
                        ;
                    }
                }
                assert forall|r: int, c: int|
                    0 <= r < n_rows && 0 <= c < n_cols && c != j implies #[trigger] dense@[r * n_cols + c]
                    == before[r * n_cols + c] by {
                    lemma_cell_position(r, c, n_rows as int, n_cols as int);
                    lemma_cell_position(row as int, j as int, n_rows as int, n_cols as int);
                    assert(prev[r * n_cols + c] == before[r * n_cols + c]);
                }
                assert forall|r: int|
                    0 <= r < n_rows && (forall|k: int| start <= k < i + 1 ==> row_indices@[k] != r) implies #[trigger] dense@[r * n_cols + j] == before[r * n_cols + j] by {
                    assert(row_indices@[i as int] != r);
                    lemma_cell_position(r, j as int, n_rows as int, n_cols as int);
                    assert(r * n_cols + j != pos) by (nonlinear_arith)
                        requires
                            r != row,
                            pos == row * n_cols + j,
                            0 <= j < n_cols,
                    ;
                    assert(prev[r * n_cols + j] == before[r * n_cols + j]);
                }
            }
            i += 1;
        }
        proof {
            assert forall|r: int, c: int|
                0 <= r < n_rows && 0 <= c < j + 1 implies #[trigger] dense@[r * n_cols + c] == cell(
                entries,
                r,
                c,
                zero,
            ) by {
                if c < j {
                    assert(dense@[r * n_cols + c] == before[r * n_cols + c]);
                } else {
                    if entries.contains_key((r, c)) {
                        let k = choose|k: int| csc_holds(row_indices@, col_pointers@, r, c, k);
                        assert(dense@[row_indices@[k] * n_cols + j] == values@[k]);
                    } else {
                        assert forall|k: int| start <= k < end implies row_indices@[k] != r by {
                            if row_indices@[k] == r {
                                assert(csc_holds(row_indices@, col_pointers@, r, c, k));
                            }
                        }
                        assert(before[r * n_cols + j] == zero);
                    }
                }
            }
            assert forall|r: int, c: int|
                0 <= r < n_rows && j + 1 <= c < n_cols implies #[trigger] dense@[r * n_cols + c] == zero by {
                assert(dense@[r * n_cols + c] == before[r * n_cols + c]);
            }
        }
        j += 1;
    }
    proof {
        lemma_cells_dense(dense@, entries, shape, zero);
    }
    dense
}

/// The entries of the first `p` positions of a coordinate list; of repeated
/// coordinates, the last one counts.
pub open spec fn coo_prefix_entries<V>(values: Seq<V>, row_indices: Seq<i64>, col_indices: Seq<i64>, p: int) -> Map<
    (int, int),
    V,
> {
    Map::new(
        |rc: (int, int)| exists|k: int| #[trigger] coo_last_holds(row_indices, col_indices, p, rc.0, rc.1, k),
        |rc: (int, int)| values[choose|k: int| #[trigger] coo_last_holds(row_indices, col_indices, p, rc.0, rc.1, k)],
    )
}

pub(crate) proof fn lemma_coo_last_unique(rows: Seq<i64>, cols: Seq<i64>, n: int, r: int, c: int, k1: int, k2: int)
    requires
        coo_last_holds(rows, cols, n, r, c, k1),
        coo_last_holds(rows, cols, n, r, c, k2),
    ensures
        k1 == k2,
{
    if k1 < k2 {
        assert(!(rows[k2] == r && cols[k2] == c));
    } else if k2 < k1 {
        assert(!(rows[k1] == r && cols[k1] == c));
    }
}

/// Writing position `p` of a coordinate list updates the prefix entries at its
/// coordinate and leaves the others as they were.
proof fn lemma_coo_prefix_step<V>(values: Seq<V>, rows: Seq<i64>, cols: Seq<i64>, p: int, r: int, c: int)
    requires
        0 <= p < values.len(),
        values.len() == rows.len(),
        values.len() == cols.len(),
    ensures
        (r == rows[p] && c == cols[p]) ==> coo_prefix_entries(values, rows, cols, p + 1).contains_key((r, c))
            && coo_prefix_entries(values, rows, cols, p + 1)[(r, c)] == values[p],
        !(r == rows[p] && c == cols[p]) ==> (coo_prefix_entries(values, rows, cols, p + 1).contains_key((r, c))
            <==> coo_prefix_entries(values, rows, cols, p).contains_key((r, c))),
        !(r == rows[p] && c == cols[p]) && coo_prefix_entries(values, rows, cols, p).contains_key((r, c)) ==>
            coo_prefix_entries(values, rows, cols, p + 1)[(r, c)] == coo_prefix_entries(values, rows, cols, p)[(r, c)],
{
    let next = coo_prefix_entries(values, rows, cols, p + 1);
    let cur = coo_prefix_entries(values, rows, cols, p);
    if r == rows[p] && c == cols[p] {
        assert(coo_last_holds(rows, cols, p + 1, r, c, p));
        assert(exists|k: int| #[trigger] coo_last_holds(rows, cols, p + 1, r, c, k));
        let k = choose|k: int| #[trigger] coo_last_holds(rows, cols, p + 1, r, c, k);
        lemma_coo_last_unique(rows, cols, p + 1, r, c, k, p);
        let rc = (r, c);
        assert(coo_last_holds(rows, cols, p + 1, rc.0, rc.1, p));
        assert(next.contains_key(rc));
        assert(next[rc] == values[k]);
    } else {
        assert forall|k: int| #[trigger] coo_last_holds(rows, cols, p + 1, r, c, k) <==> coo_last_holds(rows, cols, p, r, c, k) by {
        }
        if cur.contains_key((r, c)) {
            let k1 = choose|k: int| #[trigger] coo_last_holds(rows, cols, p, r, c, k);
            let k2 = choose|k: int| #[trigger] coo_last_holds(rows, cols, p + 1, r, c, k);
            assert(coo_last_holds(rows, cols, p + 1, r, c, k1));
            lemma_coo_last_unique(rows, cols, p + 1, r, c, k1, k2);
        }
    }
}

/// Expands a coordinate list of `shape` into its row-major dense matrix, with
/// `zero` at the cells it does not store; of repeated coordinates the last
/// one is written last and stays.
pub fn coo_to_dense<V: Copy>(
    values: &Vec<V>,
    row_indices: &Vec<i64>,
    col_indices: &Vec<i64>,
    shape: [usize; 2],
    zero: V,
) -> (dense: Vec<V>)
    requires
        coo_valid(values@.len() as usize, row_indices@, col_indices@, shape),
        shape[0] * shape[1] <= usize::MAX,
    ensures
        dense@ == dense_of(coo_entries(values@, row_indices@, col_indices@), shape, zero),
{
    let n_rows = shape[0];
    let n_cols = shape[1];
    let total = n_rows * n_cols;
    let nnz = values.len();
    let mut dense: Vec<V> = Vec::with_capacity(total);
    let mut p: usize = 0;
    while p < total
        invariant
            p <= total,
            dense@.len() == p,
            forall|q: int| 0 <= q < p ==> dense@[q] == zero,
        decreases total - p,
    {
        dense.push(zero);
        p += 1;
    }
    proof {
        assert forall|r: int, c: int|
            0 <= r < n_rows && 0 <= c < n_cols implies #[trigger] dense@[r * n_cols + c] == cell(
            coo_prefix_entries(values@, row_indices@, col_indices@, 0),
            r,
            c,
            zero,
        ) by {
            lemma_cell_position(r, c, n_rows as int, n_cols as int);
        }
    }
    let mut idx: usize = 0;
    while idx < nnz
        invariant
            n_rows == shape[0],
            n_cols == shape[1],
            total == n_rows * n_cols,
            total <= usize::MAX,
            nnz == values@.len(),
            coo_valid(nnz, row_indices@, col_indices@, shape),
            idx <= nnz,
            dense@.len() == total,
            forall|r: int, c: int|
                0 <= r < n_rows && 0 <= c < n_cols ==> #[trigger] dense@[r * n_cols + c] == cell(
                    coo_prefix_entries(values@, row_indices@, col_indices@, idx as int),
                    r,
                    c,
                    zero,
                ),
        decreases nnz - idx,
    {
        assert(coo_entry_ok(row_indices@, col_indices@, shape, idx as int));
        let row = row_indices[idx] as usize;
        let col = col_indices[idx] as usize;
        proof {
            lemma_cell_position(row as int, col as int, n_rows as int, n_cols as int);
        }
        let pos = row * n_cols + col;
        let ghost prev = dense@;
        dense.set(pos, values[idx]);
        proof {
            assert forall|r: int, c: int|
                0 <= r < n_rows && 0 <= c < n_cols implies #[trigger] dense@[r * n_cols + c] == cell(
                coo_prefix_entries(values@, row_indices@, col_indices@, idx + 1),
                r,
                c,
                zero,
            ) by {
                lemma_cell_position(r, c, n_rows as int, n_cols as int);
                lemma_coo_prefix_step(values@, row_indices@, col_indices@, idx as int, r, c);
                if r == row && c == col {
                } else {
                    assert(r * n_cols + c != pos) by (nonlinear_arith)
                        requires
                            r != row || c != col,
                            pos == row * n_cols + col,
                            0 <= c < n_cols,
                            0 <= col < n_cols,
                    ;
                    assert(prev[r * n_cols + c] == cell(
                        coo_prefix_entries(values@, row_indices@, col_indices@, idx as int),
                        r,
                        c,
                        zero,
                    ));
                }
            }
        }
        idx += 1;
    }
    proof {
        let entries = coo_entries(values@, row_indices@, col_indices@);
        assert(entries =~= coo_prefix_entries(values@, row_indices@, col_indices@, nnz as int));
        lemma_cells_dense(dense@, entries, shape, zero);
    }
    dense
}

} // verus!
