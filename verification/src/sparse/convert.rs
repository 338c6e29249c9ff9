//! Conversions between sparse formats and to dense storage.

use vstd::prelude::*;
use super::error::{SparseError, SparseResult};
use super::dense::{csr_to_dense, csc_to_dense, coo_to_dense, lemma_cell_position, lemma_position_cell};
use super::error::{shape_text, push_shape};
use super::mask::SparseMask;
use super::format::SparseFormat;
use super::tensor::{
    SparseTensor, SparseTensorData, dense_of, filled_vec, kept_values, csr_entries, csr_holds, csc_entries, csc_holds, coo_entries, coo_last_holds,
    masked_entries,
};
use super::validate::{compressed_valid, coo_valid, coo_entry_ok, header_ok, ptr_at, line_ok, entry_ok};
use super::dense::{lemma_line_strict, lemma_coo_last_unique};
use super::reorder::{
    expand_pointers, place_by_row, placed_by_row, pointers_ok, ptr_step_ok, has_source, lemma_ptrs_monotone,
    lemma_region_of, lemma_region_unique, sort_region, region_permutation, sorted_between,
};

verus! {

/// Row `r` of a CSR structure under construction holds, in increasing
/// column order, exactly the kept positions of row `r` of the mask, with
/// their values.
pub open spec fn mask_row_built<V>(
    mask: Seq<bool>,
    values: Seq<V>,
    n_cols: usize,
    ci: Seq<i64>,
    vs: Seq<V>,
    lo: int,
    hi: int,
    r: int,
    c_end: int,
) -> bool {
    &&& forall|k: int|
        #![trigger ci[k]]
        lo <= k < hi ==> {
            &&& 0 <= ci[k] < c_end
            &&& mask[r * n_cols + ci[k]]
            &&& vs[k] == values[r * n_cols + ci[k]]
            &&& (k > lo ==> ci[k] > ci[k - 1])
        }
    &&& forall|c: int|
        0 <= c < c_end && #[trigger] mask_at(mask, n_cols, r, c) ==> exists|k: int| lo <= k < hi && ci[k] == c
}

/// Row `r` of a finished CSR structure holds the kept positions of row `r`
/// of the mask.
pub open spec fn mask_row_ok<V>(
    mask: Seq<bool>,
    values: Seq<V>,
    n_cols: usize,
    ci: Seq<i64>,
    vs: Seq<V>,
    rp: Seq<i64>,
    r: int,
) -> bool {
    mask_row_built(mask, values, n_cols, ci, vs, rp[r] as int, rp[r + 1] as int, r, n_cols as int)
}

/// The mask entry of row `r`, column `c` of a row-major mask with `n_cols` columns.
pub open spec fn mask_at(mask: Seq<bool>, n_cols: usize, r: int, c: int) -> bool {
    mask[r * n_cols + c]
}

proof fn lemma_row_ok_entry<V>(
    mask: Seq<bool>,
    values: Seq<V>,
    n_cols: usize,
    ci: Seq<i64>,
    vs: Seq<V>,
    rp: Seq<i64>,
    r: int,
    k: int,
)
    requires
        mask_row_ok(mask, values, n_cols, ci, vs, rp, r),
        rp[r] <= k < rp[r + 1],
    ensures
        0 <= ci[k] < n_cols,
        mask[r * n_cols + ci[k]],
        vs[k] == values[r * n_cols + ci[k]],
        k > rp[r] ==> ci[k] > ci[k - 1],
{
}

proof fn lemma_row_ok_kept<V>(
    mask: Seq<bool>,
    values: Seq<V>,
    n_cols: usize,
    ci: Seq<i64>,
    vs: Seq<V>,
    rp: Seq<i64>,
    r: int,
    c: int,
) -> (k: int)
    requires
        mask_row_ok(mask, values, n_cols, ci, vs, rp, r),
        0 <= c < n_cols,
        mask[r * n_cols + c],
    ensures
        rp[r] <= k < rp[r + 1],
        ci[k] == c,
{
    assert(mask_at(mask, n_cols, r, c));
    choose|k: int| rp[r] as int <= k < rp[r + 1] as int && ci[k] == c
}

proof fn lemma_cast_offset(x: i64, bound: int)
    requires
        0 <= x <= bound,
        bound <= usize::MAX,
    ensures
        x as usize as int == x as int,
{
}

proof fn lemma_row_built_prefix<V>(
    mask: Seq<bool>,
    values: Seq<V>,
    n_cols: usize,
    ci1: Seq<i64>,
    vs1: Seq<V>,
    ci2: Seq<i64>,
    vs2: Seq<V>,
    lo: int,
    hi: int,
    r: int,
    c_end: int,
)
    requires
        0 <= lo <= hi <= ci1.len(),
        ci1.len() <= ci2.len(),
        vs1.len() == ci1.len(),
        vs1.len() <= vs2.len(),
        ci2.take(ci1.len() as int) == ci1,
        vs2.take(vs1.len() as int) == vs1,
        mask_row_built(mask, values, n_cols, ci1, vs1, lo, hi, r, c_end),
    ensures
        mask_row_built(mask, values, n_cols, ci2, vs2, lo, hi, r, c_end),
{
    assert forall|k: int| lo <= k < hi implies ci2[k] == ci1[k] && vs2[k] == vs1[k] by {
        assert(ci2.take(ci1.len() as int)[k] == ci2[k]);
        assert(vs2.take(vs1.len() as int)[k] == vs2[k]);
    }
    assert forall|c: int|
        0 <= c < c_end && #[trigger] mask_at(mask, n_cols, r, c) implies exists|k: int|
        lo <= k < hi && ci2[k] == c by {
        let k = choose|k: int| lo <= k < hi && ci1[k] == c;
        assert(ci2[k] == c);
    }
}

/// Builds the CSR form of a row-major mask over dense values of `shape`:
/// per row, the kept positions in increasing column order.
pub fn mask_to_csr<V: Copy>(mask: &[bool], values: &[V], shape: [usize; 2]) -> (r: SparseResult<SparseTensor<V>>)
    requires
        shape[0] < usize::MAX,
        shape[0] * shape[1] <= i64::MAX,
        mask@.len() >= shape[0] * shape[1],
        values@.len() >= shape[0] * shape[1],
    ensures
        r matches Ok(t) && t.wf() && t.spec_format() == SparseFormat::CSR && t.spec_shape() == shape
            && t.entries() == masked_entries(mask@, values@, shape) && t.spec_nnz() <= shape[0] * shape[1],
{
    let n_rows = shape[0];
    let n_cols = shape[1];
    let mask_len = mask.len();
    let mut row_pointers: Vec<i64> = Vec::with_capacity(n_rows + 1);
    let mut col_indices: Vec<i64> = Vec::new();
    let mut csr_values: Vec<V> = Vec::new();
    row_pointers.push(0);
    let mut row: usize = 0;
    while row < n_rows
        invariant
            n_rows == shape[0],
            n_cols == shape[1],
            n_rows < usize::MAX,
            n_rows * n_cols <= i64::MAX,
            mask_len == mask@.len(),
            mask@.len() >= n_rows * n_cols,
            values@.len() >= n_rows * n_cols,
            row <= n_rows,
            row_pointers@.len() == row + 1,
            row_pointers@[0] == 0,
            col_indices@.len() == csr_values@.len(),
            col_indices@.len() <= row * n_cols,
            row_pointers@[row as int] == col_indices@.len(),
            forall|r: int| 0 <= r <= row ==> 0 <= #[trigger] row_pointers@[r] <= col_indices@.len(),
            forall|r: int| 0 <= r < row ==> #[trigger] row_pointers@[r] <= row_pointers@[r + 1],
            forall|r: int|
                0 <= r < row ==> #[trigger] mask_row_ok(
                    mask@,
                    values@,
                    n_cols,
                    col_indices@,
                    csr_values@,
                    row_pointers@,
                    r,
                ),
        decreases n_rows - row,
    {
        proof {
            assert(row * n_cols + n_cols <= n_rows * n_cols) by (nonlinear_arith)
                requires
                    row < n_rows,
            ;
            assert((row + 1) * n_cols == row * n_cols + n_cols) by (nonlinear_arith);
            assert(n_cols <= n_rows * n_cols) by (nonlinear_arith)
                requires
                    row < n_rows,
            ;
        }
        let row_start = row * n_cols;
        let ghost lo = col_indices@.len() as int;
        let ghost ci_before = col_indices@;
        let ghost vs_before = csr_values@;
        let ghost rp_before = row_pointers@;
        let mut col: usize = 0;
        while col < n_cols
            invariant
                n_rows == shape[0],
                n_cols == shape[1],
                n_rows * n_cols <= i64::MAX,
                mask_len == mask@.len(),
                mask@.len() >= n_rows * n_cols,
                values@.len() >= n_rows * n_cols,
                row < n_rows,
                row_start == row * n_cols,
                row * n_cols + n_cols <= n_rows * n_cols,
                n_cols <= n_rows * n_cols,
                col <= n_cols,
                col_indices@.len() == csr_values@.len(),
                row_pointers@ == rp_before,
                lo == ci_before.len(),
                lo == vs_before.len(),
                lo <= col_indices@.len() <= lo + col,
                col_indices@.take(lo) == ci_before,
                csr_values@.take(lo) == vs_before,
                mask_row_built(
                    mask@,
                    values@,
                    n_cols,
                    col_indices@,
                    csr_values@,
                    lo,
                    col_indices@.len() as int,
                    row as int,
                    col as int,
                ),
            decreases n_cols - col,
        {
            let idx = row_start + col;
            let ghost ci_prev = col_indices@;
            let ghost vs_prev = csr_values@;
            let ghost hi_prev = col_indices@.len() as int;
            let keep = mask[idx];
            if keep {
                col_indices.push(col as i64);
                csr_values.push(values[idx]);
                proof {
                    assert(col_indices@.take(lo) =~= ci_before) by {
                        assert(ci_prev.take(lo) == ci_before);
                    }
                    assert(csr_values@.take(lo) =~= vs_before) by {
                        assert(vs_prev.take(lo) == vs_before);
                    }
                }
            }
            proof {
                let hi = col_indices@.len() as int;
                assert(keep ==> col_indices@ == ci_prev.push(col as i64) && csr_values@ == vs_prev.push(
                    values@[idx as int],
                ));
                assert(!keep ==> col_indices@ == ci_prev && csr_values@ == vs_prev);
                assert forall|k: int| lo <= k < hi implies {
                    &&& 0 <= col_indices@[k] < col + 1
                    &&& mask@[row * n_cols + col_indices@[k]]
                    &&& csr_values@[k] == values@[row * n_cols + col_indices@[k]]
                    &&& (k > lo ==> col_indices@[k] > col_indices@[k - 1])
                } by {
                    if k < hi_prev {
                        assert(col_indices@[k] == ci_prev[k]);
                        assert(csr_values@[k] == vs_prev[k]);
                        if k > lo {
                            assert(col_indices@[k - 1] == ci_prev[k - 1]);
                        }
                    } else {
                        assert(keep);
                        assert(k == hi_prev);
                        assert(mask@[idx as int]);
                        assert(col_indices@[k] == col as i64);
                        assert(csr_values@[k] == values@[idx as int]);
                        if k > lo {
                            assert(col_indices@[k - 1] == ci_prev[k - 1]);
                        }
                    }
                }
                assert forall|c: int|
                    0 <= c < col + 1 && #[trigger] mask_at(mask@, n_cols, row as int, c) implies exists|k: int|
                    lo <= k < hi && col_indices@[k] == c by {
                    if c == col {
                        assert(mask@[idx as int]);
                        assert(col_indices@[hi - 1] == c);
                    } else {
                        let k = choose|k: int| lo <= k < hi_prev && ci_prev[k] == c;
                        assert(col_indices@[k] == c);
                    }
                }
            }
            col += 1;
        }
        let ghost hi = col_indices@.len() as int;
        row_pointers.push(col_indices.len() as i64);
        proof {
            assert forall|r: int| 0 <= r < row + 1 implies #[trigger] mask_row_ok(
                mask@,
                values@,
                n_cols,
                col_indices@,
                csr_values@,
                row_pointers@,
                r,
            ) by {
                assert(row_pointers@[r] == rp_before.push(hi as i64)[r]);
                assert(row_pointers@[r + 1] == rp_before.push(hi as i64)[r + 1]);
                if r < row {
                    assert(mask_row_ok(mask@, values@, n_cols, ci_before, vs_before, rp_before, r));
                    lemma_row_built_prefix(
                        mask@,
                        values@,
                        n_cols,
                        ci_before,
                        vs_before,
                        col_indices@,
                        csr_values@,
                        rp_before[r] as int,
                        rp_before[r + 1] as int,
                        r,
                        n_cols as int,
                    );
                }
            }
            assert forall|r: int| 0 <= r <= row + 1 implies 0 <= #[trigger] row_pointers@[r]
                <= col_indices@.len() by {
                assert(row_pointers@[r] == rp_before.push(hi as i64)[r]);
            }
            assert forall|r: int| 0 <= r < row + 1 implies #[trigger] row_pointers@[r]
                <= row_pointers@[r + 1] by {
                assert(row_pointers@[r] == rp_before.push(hi as i64)[r]);
                assert(row_pointers@[r + 1] == rp_before.push(hi as i64)[r + 1]);
            }
        }
        row += 1;
    }
    let nnz = csr_values.len();
    proof {
        let ci = col_indices@;
        let vs = csr_values@;
        let rp = row_pointers@;
        if n_rows > 0 {
            assert(n_cols <= n_rows * n_cols) by (nonlinear_arith)
                requires
                    n_rows > 0,
            ;
        }
        assert forall|i: int| 0 <= i < n_rows implies line_ok(rp, ci, nnz, n_cols, i) by {
            assert(mask_row_ok(mask@, values@, n_cols, ci, vs, rp, i));
            lemma_cast_offset(rp[i], nnz as int);
            lemma_cast_offset(rp[i + 1], nnz as int);
            assert forall|j: int| ptr_at(rp, i) <= j < ptr_at(rp, i + 1) implies entry_ok(
                ci,
                nnz,
                n_cols,
                ptr_at(rp, i),
                j,
            ) by {
                lemma_row_ok_entry(mask@, values@, n_cols, ci, vs, rp, i, j);
            }
        }
        assert(compressed_valid(nnz, ci, rp, n_rows, n_cols));
        let target = masked_entries(mask@, values@, shape);
        let got = csr_entries(vs, ci, rp, shape);
        assert forall|rc: (int, int)| got.contains_key(rc) <==> target.contains_key(rc) by {
            if 0 <= rc.0 < n_rows && 0 <= rc.1 < n_cols {
                assert(mask_row_ok(mask@, values@, n_cols, ci, vs, rp, rc.0));
                lemma_cast_offset(rp[rc.0], nnz as int);
                lemma_cast_offset(rp[rc.0 + 1], nnz as int);
                if got.contains_key(rc) {
                    let k = choose|k: int| csr_holds(ci, rp, rc.0, rc.1, k);
                    lemma_row_ok_entry(mask@, values@, n_cols, ci, vs, rp, rc.0, k);
                }
                if target.contains_key(rc) {
                    let k = lemma_row_ok_kept(mask@, values@, n_cols, ci, vs, rp, rc.0, rc.1);
                    assert(csr_holds(ci, rp, rc.0, rc.1, k));
                }
            }
        }
        assert forall|rc: (int, int)| got.contains_key(rc) implies got[rc] == target[rc] by {
            assert(mask_row_ok(mask@, values@, n_cols, ci, vs, rp, rc.0));
            lemma_cast_offset(rp[rc.0], nnz as int);
            lemma_cast_offset(rp[rc.0 + 1], nnz as int);
            let k = choose|k: int| csr_holds(ci, rp, rc.0, rc.1, k);
            lemma_row_ok_entry(mask@, values@, n_cols, ci, vs, rp, rc.0, k);
        }
        assert(got =~= target);
    }
    let t = SparseTensor::from_csr(csr_values, col_indices, row_pointers, shape);
    Ok(t)
}

/// A valid compressed structure has valid pointers, and each stored index
/// lies within the inner dimension.
proof fn lemma_compressed_pointers(nnz: usize, idx: Seq<i64>, ptrs: Seq<i64>, n_outer: usize, n_inner: usize)
    requires
        compressed_valid(nnz, idx, ptrs, n_outer, n_inner),
        nnz <= i64::MAX,
    ensures
        pointers_ok(ptrs, n_outer as int, nnz as int),
        ptr_at(ptrs, 0) == 0,
        ptr_at(ptrs, n_outer as int) == nnz,
        forall|k: int| 0 <= k < nnz ==> 0 <= #[trigger] idx[k] < n_inner,
{
    assert forall|i: int| 0 <= i < n_outer implies #[trigger] ptr_step_ok(ptrs, i) by {
        assert(line_ok(ptrs, idx, nnz, n_inner, i));
    }
    assert forall|k: int| 0 <= k < nnz implies 0 <= #[trigger] idx[k] < n_inner by {
        let i = lemma_region_of(ptrs, n_outer as int, k);
        assert(line_ok(ptrs, idx, nnz, n_inner, i));
        assert(entry_ok(idx, nnz, n_inner, ptr_at(ptrs, i), k));
    }
}

/// An output position in the region of row `r` takes an entry of row `r`.
proof fn lemma_placed_row<V>(
    rows: Seq<i64>,
    cols: Seq<i64>,
    vals: Seq<V>,
    rp: Seq<i64>,
    oc: Seq<i64>,
    ov: Seq<V>,
    src: Seq<int>,
    n: int,
    r: int,
    j: int,
)
    requires
        placed_by_row(rows, cols, vals, rp, oc, ov, src),
        pointers_ok(rp, n, rows.len() as int),
        rows.len() <= usize::MAX,
        forall|k: int| 0 <= k < rows.len() ==> 0 <= #[trigger] rows[k] < n,
        0 <= r < n,
        ptr_at(rp, r) <= j < ptr_at(rp, r + 1),
    ensures
        0 <= j < rows.len(),
        0 <= src[j] < rows.len(),
        rows[src[j]] == r,
{
    lemma_ptrs_monotone(rp, n, r + 1, n);
    lemma_ptrs_monotone(rp, n, 0, r);
    assert(ptr_at(rp, n) == rows.len());
    assert(ptr_at(rp, 0) == 0);
    let y = rows[src[j]] as int;
    lemma_region_unique(rp, n, j, y, r);
}

/// Expanded lines do not decrease along the stored entries.
proof fn lemma_lines_monotone(ptrs: Seq<i64>, lines: Seq<i64>, n: int, nnz: int, k1: int, k2: int)
    requires
        pointers_ok(ptrs, n, nnz),
        lines.len() == nnz,
        forall|k: int|
            0 <= k < nnz ==> 0 <= #[trigger] lines[k] < n && ptr_at(ptrs, lines[k] as int) <= k < ptr_at(
                ptrs,
                lines[k] + 1,
            ),
        0 <= k1 <= k2 < nnz,
    ensures
        lines[k1] <= lines[k2],
{
    if lines[k1] > lines[k2] {
        lemma_ptrs_monotone(ptrs, n, lines[k2] + 1, lines[k1] as int);
        assert(lines[k1] >= 0 && lines[k2] >= 0);
    }
}

/// Two positions of one column that store the same row are the same position.
proof fn lemma_csc_unique(ri: Seq<i64>, cp: Seq<i64>, nnz: usize, n_rows: usize, n_cols: usize, r: int, c: int, k1: int, k2: int)
    requires
        compressed_valid(nnz, ri, cp, n_cols, n_rows),
        0 <= c < n_cols,
        csc_holds(ri, cp, r, c, k1),
        csc_holds(ri, cp, r, c, k2),
    ensures
        k1 == k2,
{
    assert(line_ok(cp, ri, nnz, n_rows, c));
    if k1 < k2 {
        lemma_line_strict(cp, ri, nnz, n_rows, c, k1, k2);
    } else if k2 < k1 {
        lemma_line_strict(cp, ri, nnz, n_rows, c, k2, k1);
    }
}

/// Converts a CSC structure of `shape` to CSR: entries are grouped by row
/// and, within a row, ordered by column.
pub fn csc_to_csr<V: Copy>(
    values: &Vec<V>,
    row_indices: &Vec<i64>,
    col_pointers: &Vec<i64>,
    shape: [usize; 2],
) -> (r: SparseResult<SparseTensor<V>>)
    requires
        compressed_valid(values@.len() as usize, row_indices@, col_pointers@, shape[1], shape[0]),
        shape[0] < usize::MAX,
        values@.len() <= i64::MAX,
        shape[1] <= i64::MAX,
    ensures
        r matches Ok(t) && t.wf() && t.spec_format() == SparseFormat::CSR && t.spec_shape() == shape
            && t.entries() == csc_entries(values@, row_indices@, col_pointers@, shape),
{
    let n_rows = shape[0];
    let n_cols = shape[1];
    let nnz = values.len();
    proof {
        lemma_compressed_pointers(nnz, row_indices@, col_pointers@, n_cols, n_rows);
    }
    let cols = expand_pointers(col_pointers, n_cols, nnz);
    let (row_pointers, csr_cols, csr_values, Ghost(src)) = place_by_row(row_indices, &cols, values, n_rows);
    proof {
        let ri = row_indices@;
        let cp = col_pointers@;
        let rp = row_pointers@;
        let oc = csr_cols@;
        let ov = csr_values@;
        let cl = cols@;
        assert(placed_by_row(ri, cl, values@, rp, oc, ov, src));
        assert forall|r: int| 0 <= r < n_rows implies line_ok(rp, oc, nnz, n_cols, r) by {
            assert(ptr_step_ok(rp, r));
            lemma_ptrs_monotone(rp, n_rows as int, r + 1, n_rows as int);
            assert forall|j: int| ptr_at(rp, r) <= j < ptr_at(rp, r + 1) implies entry_ok(
                oc,
                nnz,
                n_cols,
                ptr_at(rp, r),
                j,
            ) by {
                lemma_placed_row(ri, cl, values@, rp, oc, ov, src, n_rows as int, r, j);
                assert(0 <= cl[src[j]] < n_cols);
                if j > ptr_at(rp, r) {
                    lemma_placed_row(ri, cl, values@, rp, oc, ov, src, n_rows as int, r, j - 1);
                    assert(src[j - 1] < src[j]);
                    lemma_lines_monotone(cp, cl, n_cols as int, nnz as int, src[j - 1], src[j]);
                    if cl[src[j - 1]] == cl[src[j]] {
                        let c = cl[src[j]] as int;
                        assert(csc_holds(ri, cp, r, c, src[j - 1]));
                        assert(csc_holds(ri, cp, r, c, src[j]));
                        lemma_csc_unique(ri, cp, nnz, n_rows, n_cols, r, c, src[j - 1], src[j]);
                    }
                }
            }
        }
        assert(header_ok(nnz, oc, rp, n_rows));
        assert(compressed_valid(nnz, oc, rp, n_rows, n_cols));
        let got = csr_entries(ov, oc, rp, shape);
        let target = csc_entries(values@, ri, cp, shape);
        assert forall|rc: (int, int)| got.contains_key(rc) <==> target.contains_key(rc) by {
            let r = rc.0;
            let c = rc.1;
            if 0 <= r < n_rows && 0 <= c < n_cols {
                if got.contains_key(rc) {
                    let j = choose|j: int| csr_holds(oc, rp, r, c, j);
                    lemma_placed_row(ri, cl, values@, rp, oc, ov, src, n_rows as int, r, j);
                    assert(csc_holds(ri, cp, r, c, src[j]));
                }
                if target.contains_key(rc) {
                    let k = choose|k: int| csc_holds(ri, cp, r, c, k);
                    lemma_ptrs_monotone(cp, n_cols as int, c + 1, n_cols as int);
                    assert(0 <= k < nnz);
                    let kc = cl[k] as int;
                    lemma_region_unique(cp, n_cols as int, k, kc, c);
                    assert(has_source(src, k));
                    let j = choose|j: int| 0 <= j < src.len() && #[trigger] src[j] == k;
                    assert(csr_holds(oc, rp, r, c, j));
                }
            }
        }
        assert forall|rc: (int, int)| got.contains_key(rc) implies got[rc] == target[rc] by {
            let r = rc.0;
            let c = rc.1;
            let j = choose|j: int| csr_holds(oc, rp, r, c, j);
            lemma_placed_row(ri, cl, values@, rp, oc, ov, src, n_rows as int, r, j);
            assert(csc_holds(ri, cp, r, c, src[j]));
            let k = choose|k: int| csc_holds(ri, cp, r, c, k);
            lemma_csc_unique(ri, cp, nnz, n_rows, n_cols, r, c, src[j], k);
        }
        assert(got =~= target);
    }
    let t = SparseTensor::from_csr(csr_values, csr_cols, row_pointers, shape);
    Ok(t)
}

/// No two positions of a coordinate list store the same coordinate.
pub open spec fn coo_distinct(rows: Seq<i64>, cols: Seq<i64>) -> bool {
    forall|k1: int, k2: int|
        0 <= k1 < k2 < rows.len() ==> !(#[trigger] rows[k1] == #[trigger] rows[k2] && cols[k1] == cols[k2])
}

/// Every output position holds a distinct input entry, inside the region of
/// its row, and every input entry is held somewhere.
pub open spec fn grouped_by_row<V>(
    rows: Seq<i64>,
    cols: Seq<i64>,
    vals: Seq<V>,
    rp: Seq<i64>,
    oc: Seq<i64>,
    ov: Seq<V>,
    src: Seq<int>,
) -> bool {
    let nnz = rows.len() as int;
    &&& oc.len() == nnz
    &&& ov.len() == nnz
    &&& src.len() == nnz
    &&& forall|q: int|
        0 <= q < nnz ==> {
            &&& 0 <= #[trigger] src[q] < nnz
            &&& oc[q] == cols[src[q]]
            &&& ov[q] == vals[src[q]]
            &&& ptr_at(rp, rows[src[q]] as int) <= q < ptr_at(rp, rows[src[q]] + 1)
        }
    &&& forall|x: int, y: int| 0 <= x < y < nnz ==> #[trigger] src[x] != #[trigger] src[y]
    &&& forall|k: int| 0 <= k < nnz ==> #[trigger] has_source(src, k)
}

proof fn lemma_placed_grouped<V>(
    rows: Seq<i64>,
    cols: Seq<i64>,
    vals: Seq<V>,
    rp: Seq<i64>,
    oc: Seq<i64>,
    ov: Seq<V>,
    src: Seq<int>,
)
    requires
        placed_by_row(rows, cols, vals, rp, oc, ov, src),
    ensures
        grouped_by_row(rows, cols, vals, rp, oc, ov, src),
{
    assert forall|x: int, y: int| 0 <= x < y < rows.len() implies #[trigger] src[x] != #[trigger] src[y] by {
        if rows[src[x]] == rows[src[y]] {
            assert(src[x] < src[y]);
        }
    }
}

/// Rearranging the region of one row keeps the grouping, with sources
/// rearranged alike.
proof fn lemma_grouped_perm<V>(
    rows: Seq<i64>,
    cols: Seq<i64>,
    vals: Seq<V>,
    rp: Seq<i64>,
    oc0: Seq<i64>,
    ov0: Seq<V>,
    src0: Seq<int>,
    oc1: Seq<i64>,
    ov1: Seq<V>,
    perm: Seq<int>,
    n: int,
    r: int,
)
    requires
        grouped_by_row(rows, cols, vals, rp, oc0, ov0, src0),
        pointers_ok(rp, n, rows.len() as int),
        rows.len() <= usize::MAX,
        forall|k: int| 0 <= k < rows.len() ==> 0 <= #[trigger] rows[k] < n,
        0 <= r < n,
        perm.len() == rows.len(),
        region_permutation(perm, ptr_at(rp, r), ptr_at(rp, r + 1)),
        oc1.len() == oc0.len(),
        ov1.len() == ov0.len(),
        forall|q: int| 0 <= q < oc0.len() ==> #[trigger] oc1[q] == oc0[perm[q]],
        forall|q: int| 0 <= q < ov0.len() ==> #[trigger] ov1[q] == ov0[perm[q]],
    ensures
        grouped_by_row(rows, cols, vals, rp, oc1, ov1, Seq::new(rows.len(), |q: int| src0[perm[q]])),
{
    let nnz = rows.len() as int;
    let a = ptr_at(rp, r);
    let b = ptr_at(rp, r + 1);
    let src1 = Seq::new(rows.len(), |q: int| src0[perm[q]]);
    lemma_ptrs_monotone(rp, n, r + 1, n);
    assert(ptr_at(rp, n) == nnz);
    assert forall|q: int| 0 <= q < nnz implies {
        &&& 0 <= #[trigger] src1[q] < nnz
        &&& oc1[q] == cols[src1[q]]
        &&& ov1[q] == vals[src1[q]]
        &&& ptr_at(rp, rows[src1[q]] as int) <= q < ptr_at(rp, rows[src1[q]] + 1)
    } by {
        if a <= q < b {
            let pq = perm[q];
            assert(a <= pq < b);
            assert(0 <= src0[pq] < nnz);
            let y = rows[src0[pq]] as int;
            lemma_region_unique(rp, n, pq, y, r);
        } else {
            assert(perm[q] == q);
        }
    }
    assert forall|x: int, y: int| 0 <= x < y < nnz implies #[trigger] src1[x] != #[trigger] src1[y] by {
        let px = perm[x];
        let py = perm[y];
        if a <= x < b && a <= y < b {
            assert(px != py);
        } else if a <= x < b {
            assert(a <= px < b);
            assert(py == y);
        } else if a <= y < b {
            assert(a <= py < b);
            assert(px == x);
        } else {
            assert(px == x && py == y);
        }
        assert(0 <= px < nnz && 0 <= py < nnz);
        if px < py {
            assert(src0[px] != src0[py]);
        } else {
            assert(src0[py] != src0[px]);
        }
    }
    assert forall|k: int| 0 <= k < nnz implies #[trigger] has_source(src1, k) by {
        assert(has_source(src0, k));
        let q0 = choose|q: int| 0 <= q < src0.len() && #[trigger] src0[q] == k;
        if a <= q0 < b {
            assert(has_source(perm, q0));
            let q = choose|q: int| 0 <= q < perm.len() && #[trigger] perm[q] == q0;
            assert(src1[q] == k);
        } else {
            assert(perm[q0] == q0);
            assert(src1[q0] == k);
        }
    }
}

/// An output position in the region of row `r` holds an entry of row `r`.
proof fn lemma_grouped_row<V>(
    rows: Seq<i64>,
    cols: Seq<i64>,
    vals: Seq<V>,
    rp: Seq<i64>,
    oc: Seq<i64>,
    ov: Seq<V>,
    src: Seq<int>,
    n: int,
    r: int,
    j: int,
)
    requires
        grouped_by_row(rows, cols, vals, rp, oc, ov, src),
        pointers_ok(rp, n, rows.len() as int),
        rows.len() <= usize::MAX,
        forall|k: int| 0 <= k < rows.len() ==> 0 <= #[trigger] rows[k] < n,
        0 <= r < n,
        ptr_at(rp, r) <= j < ptr_at(rp, r + 1),
    ensures
        0 <= j < rows.len(),
        0 <= src[j] < rows.len(),
        rows[src[j]] == r,
{
    lemma_ptrs_monotone(rp, n, r + 1, n);
    assert(ptr_at(rp, n) == rows.len());
    let y = rows[src[j]] as int;
    lemma_region_unique(rp, n, j, y, r);
}

/// Converts a coordinate list of `shape` with no repeated coordinate to CSR:
/// entries are grouped by row and, within a row, ordered by column.
pub fn coo_to_csr<V: Copy>(
    values: &Vec<V>,
    row_indices: &Vec<i64>,
    col_indices: &Vec<i64>,
    shape: [usize; 2],
) -> (r: SparseResult<SparseTensor<V>>)
    requires
        coo_valid(values@.len() as usize, row_indices@, col_indices@, shape),
        coo_distinct(row_indices@, col_indices@),
        shape[0] < usize::MAX,
        values@.len() <= i64::MAX,
    ensures
        r matches Ok(t) && t.wf() && t.spec_format() == SparseFormat::CSR && t.spec_shape() == shape
            && t.entries() == coo_entries(values@, row_indices@, col_indices@),
{
    let n_rows = shape[0];
    let n_cols = shape[1];
    let nnz = values.len();
    proof {
        assert forall|k: int| 0 <= k < nnz implies 0 <= #[trigger] row_indices@[k] < n_rows by {
            assert(coo_entry_ok(row_indices@, col_indices@, shape, k));
        }
    }
    let (row_pointers, mut csr_cols, mut csr_values, Ghost(src0)) = place_by_row(
        row_indices,
        col_indices,
        values,
        n_rows,
    );
    let ghost mut src = src0;
    proof {
        lemma_placed_grouped(row_indices@, col_indices@, values@, row_pointers@, csr_cols@, csr_values@, src);
    }
    let mut r: usize = 0;
    while r < n_rows
        invariant
            n_rows == shape[0],
            n_rows < usize::MAX,
            nnz == values@.len(),
            nnz == row_indices@.len(),
            forall|k: int| 0 <= k < nnz ==> 0 <= #[trigger] row_indices@[k] < n_rows,
            pointers_ok(row_pointers@, n_rows as int, nnz as int),
            r <= n_rows,
            grouped_by_row(row_indices@, col_indices@, values@, row_pointers@, csr_cols@, csr_values@, src),
            forall|y: int|
                0 <= y < r ==> #[trigger] sorted_between(
                    csr_cols@,
                    ptr_at(row_pointers@, y),
                    ptr_at(row_pointers@, y + 1),
                ),
        decreases n_rows - r,
    {
        proof {
            lemma_ptrs_monotone(row_pointers@, n_rows as int, r + 1, n_rows as int);
            assert(ptr_step_ok(row_pointers@, r as int));
        }
        let a = row_pointers[r] as usize;
        let b = row_pointers[r + 1] as usize;
        let ghost oc0 = csr_cols@;
        let ghost ov0 = csr_values@;
        let Ghost(perm) = sort_region(&mut csr_cols, &mut csr_values, a, b);
        proof {
            lemma_grouped_perm(
                row_indices@,
                col_indices@,
                values@,
                row_pointers@,
                oc0,
                ov0,
                src,
                csr_cols@,
                csr_values@,
                perm,
                n_rows as int,
                r as int,
            );
            src = Seq::new(nnz as nat, |q: int| src[perm[q]]);
            assert forall|y: int| 0 <= y < r + 1 implies #[trigger] sorted_between(
                csr_cols@,
                ptr_at(row_pointers@, y),
                ptr_at(row_pointers@, y + 1),
            ) by {
                if y < r {
                    lemma_ptrs_monotone(row_pointers@, n_rows as int, y + 1, r as int);
                    assert(sorted_between(oc0, ptr_at(row_pointers@, y), ptr_at(row_pointers@, y + 1)));
                    assert forall|x1: int, x2: int|
                        ptr_at(row_pointers@, y) <= x1 < x2 < ptr_at(row_pointers@, y + 1) implies #[trigger] csr_cols@[x1]
                        <= #[trigger] csr_cols@[x2] by {
                        assert(perm[x1] == x1);
                        assert(perm[x2] == x2);
                        assert(oc0[x1] <= oc0[x2]);
                    }
                }
            }
        }
        r += 1;
    }
    proof {
        let ri = row_indices@;
        let cix = col_indices@;
        let rp = row_pointers@;
        let oc = csr_cols@;
        let ov = csr_values@;
        assert forall|y: int| 0 <= y < n_rows implies line_ok(rp, oc, nnz, n_cols, y) by {
            assert(ptr_step_ok(rp, y));
            assert(sorted_between(oc, ptr_at(rp, y), ptr_at(rp, y + 1)));
            assert forall|j: int| ptr_at(rp, y) <= j < ptr_at(rp, y + 1) implies entry_ok(
                oc,
                nnz,
                n_cols,
                ptr_at(rp, y),
                j,
            ) by {
                lemma_grouped_row(ri, cix, values@, rp, oc, ov, src, n_rows as int, y, j);
                assert(coo_entry_ok(ri, cix, shape, src[j]));
                if j > ptr_at(rp, y) {
                    lemma_grouped_row(ri, cix, values@, rp, oc, ov, src, n_rows as int, y, j - 1);
                    assert(oc[j - 1] <= oc[j]);
                    assert(src[j - 1] != src[j]);
                    if src[j - 1] < src[j] {
                        assert(!(ri[src[j - 1]] == ri[src[j]] && cix[src[j - 1]] == cix[src[j]]));
                    } else {
                        assert(!(ri[src[j]] == ri[src[j - 1]] && cix[src[j]] == cix[src[j - 1]]));
                    }
                }
            }
        }
        assert(header_ok(nnz, oc, rp, n_rows));
        assert(compressed_valid(nnz, oc, rp, n_rows, n_cols));
        let got = csr_entries(ov, oc, rp, shape);
        let target = coo_entries(values@, ri, cix);
        assert forall|rc: (int, int)| got.contains_key(rc) <==> target.contains_key(rc) by {
            let r = rc.0;
            let c = rc.1;
            if got.contains_key(rc) {
                let j = choose|j: int| csr_holds(oc, rp, r, c, j);
                lemma_grouped_row(ri, cix, values@, rp, oc, ov, src, n_rows as int, r, j);
                let k = src[j];
                assert forall|k2: int| k < k2 < nnz implies !(ri[k2] == r && cix[k2] == c) by {
                    assert(!(ri[k] == ri[k2] && cix[k] == cix[k2]));
                }
                assert(coo_last_holds(ri, cix, nnz as int, r, c, k));
            }
            if target.contains_key(rc) {
                let k = choose|k: int| coo_last_holds(ri, cix, values@.len() as int, rc.0, rc.1, k);
                assert(coo_entry_ok(ri, cix, shape, k));
                assert(has_source(src, k));
                let j = choose|j: int| 0 <= j < src.len() && #[trigger] src[j] == k;
                assert(csr_holds(oc, rp, r, c, j));
            }
        }
        assert forall|rc: (int, int)| got.contains_key(rc) implies got[rc] == target[rc] by {
            let r = rc.0;
            let c = rc.1;
            let j = choose|j: int| csr_holds(oc, rp, r, c, j);
            lemma_grouped_row(ri, cix, values@, rp, oc, ov, src, n_rows as int, r, j);
            let k = src[j];
            assert forall|k2: int| k < k2 < nnz implies !(ri[k2] == r && cix[k2] == c) by {
                assert(!(ri[k] == ri[k2] && cix[k] == cix[k2]));
            }
            assert(coo_last_holds(ri, cix, nnz as int, r, c, k));
            let k2 = choose|k: int| coo_last_holds(ri, cix, values@.len() as int, rc.0, rc.1, k);
            lemma_coo_last_unique(ri, cix, nnz as int, r, c, k, k2);
        }
        assert(got =~= target);
    }
    let t = SparseTensor::from_csr(csr_values, csr_cols, row_pointers, shape);
    Ok(t)
}

/// The conversions of the tensor that return: CSR, CSC and COO storage small
/// enough to index with `i64`, mask storage whose cells can be numbered with
/// `i64`, and coordinate lists without repeated coordinates.
pub open spec fn convertible<V>(t: SparseTensor<V>) -> bool {
    let shape = t.spec_shape();
    match t.spec_data() {
        SparseTensorData::Mask { .. } => shape[0] < usize::MAX && shape[0] * shape[1] <= i64::MAX,
        SparseTensorData::CSR { .. } => true,
        SparseTensorData::CSC { values, .. } => shape[0] < usize::MAX && values@.len() <= i64::MAX && shape[1]
            <= i64::MAX,
        SparseTensorData::COO { values, row_indices, col_indices } => shape[0] < usize::MAX && values@.len()
            <= i64::MAX && coo_distinct(row_indices@, col_indices@),
        _ => true,
    }
}

/// The error of a conversion that is not available.
pub open spec fn is_conversion_error(e: SparseError, from: SparseFormat, to: SparseFormat, reason: Seq<char>) -> bool {
    e matches SparseError::ConversionFailed { from: f, to: t, reason: r } && f == from && t == to && r@ == reason
}

/// The reason given when a source format cannot be converted to CSR.
pub open spec fn to_csr_refusal(f: SparseFormat) -> Seq<char> {
    match f {
        SparseFormat::BlockCSR { .. } => "BlockCSR → CSR not yet implemented"@,
        _ => "N:M → CSR not yet implemented"@,
    }
}

/// The reason given when CSR cannot be converted to a target format.
pub open spec fn from_csr_refusal(f: SparseFormat) -> Seq<char> {
    match f {
        SparseFormat::CSC => "CSR → CSC not yet implemented"@,
        SparseFormat::BlockCSR { .. } => "CSR → BlockCSR not yet implemented"@,
        _ => "CSR → N:M not yet implemented"@,
    }
}

/// `r` is a valid CSR tensor of `shape` holding `entries`.
pub open spec fn is_csr_result<V>(r: SparseResult<SparseTensor<V>>, shape: [usize; 2], entries: Map<(int, int), V>) -> bool {
    match r {
        Ok(t) => t.wf() && t.spec_format() == SparseFormat::CSR && t.spec_shape() == shape && t.entries() == entries,
        Err(_) => false,
    }
}

/// `r` is a valid tensor of `format` and `shape` holding `entries`.
pub open spec fn is_same_result<V>(
    r: SparseResult<SparseTensor<V>>,
    format: SparseFormat,
    shape: [usize; 2],
    entries: Map<(int, int), V>,
) -> bool {
    match r {
        Ok(t) => t.wf() && t.spec_format() == format && t.spec_shape() == shape && t.entries() == entries,
        Err(_) => false,
    }
}

/// `r` is a valid mask tensor of `shape` that keeps every position, over
/// the dense form of `entries`.
pub open spec fn is_full_mask_result<V>(
    r: SparseResult<SparseTensor<V>>,
    shape: [usize; 2],
    entries: Map<(int, int), V>,
    zero: V,
) -> bool {
    match r {
        Ok(t) => t.wf() && t.spec_format() == SparseFormat::Mask && t.spec_shape() == shape && match t.spec_data() {
            SparseTensorData::Mask { mask, values } => mask@ == Seq::new(
                (shape[0] * shape[1]) as nat,
                |i: int| true,
            ) && values@ == dense_of(entries, shape, zero),
            _ => false,
        },
        Err(_) => false,
    }
}

/// `r` is the refusal to convert `from` to `to` for `reason`.
pub open spec fn is_refusal<V>(r: SparseResult<SparseTensor<V>>, from: SparseFormat, to: SparseFormat, reason: Seq<char>) -> bool {
    match r {
        Ok(_) => false,
        Err(e) => is_conversion_error(e, from, to, reason),
    }
}

/// The outcome of converting a tensor of `format`, `shape` and `entries` to
/// `target`.
pub open spec fn conversion_outcome<V>(
    r: SparseResult<SparseTensor<V>>,
    format: SparseFormat,
    shape: [usize; 2],
    entries: Map<(int, int), V>,
    target: SparseFormat,
    zero: V,
) -> bool {
    if target == format {
        is_same_result(r, format, shape, entries)
    } else if format is BlockCSR || format is NInM {
        is_refusal(r, format, SparseFormat::CSR, to_csr_refusal(format))
    } else if target == SparseFormat::CSR {
        is_csr_result(r, shape, entries)
    } else if target == SparseFormat::Mask {
        is_full_mask_result(r, shape, entries, zero)
    } else {
        is_refusal(r, SparseFormat::CSR, target, from_csr_refusal(target))
    }
}

/// The CSR form of a tensor: mask, CSC and COO storage are converted and
/// CSR storage is copied; block-CSR and N:M storage cannot be converted yet.
pub fn to_csr<V: Copy>(tensor: &SparseTensor<V>) -> (r: SparseResult<SparseTensor<V>>)
    requires
        tensor.wf(),
        convertible(*tensor),
    ensures
        tensor.spec_format() is BlockCSR || tensor.spec_format() is NInM ==> is_refusal(
            r,
            tensor.spec_format(),
            SparseFormat::CSR,
            to_csr_refusal(tensor.spec_format()),
        ),
        !(tensor.spec_format() is BlockCSR || tensor.spec_format() is NInM) ==> is_csr_result(
            r,
            tensor.spec_shape(),
            tensor.entries(),
        ),
{
    let shape = tensor.shape();
    match tensor.data() {
        SparseTensorData::Mask { mask, values } => mask_to_csr(mask.as_slice(), values.as_slice(), shape),
        SparseTensorData::CSR { .. } => Ok(tensor.copy()),
        SparseTensorData::CSC { values, row_indices, col_pointers } => csc_to_csr(
            values,
            row_indices,
            col_pointers,
            shape,
        ),
        SparseTensorData::COO { values, row_indices, col_indices } => coo_to_csr(
            values,
            row_indices,
            col_indices,
            shape,
        ),
        SparseTensorData::BlockCSR { .. } => Err(
            SparseError::ConversionFailed {
                from: tensor.format(),
                to: SparseFormat::CSR,
                reason: String::from_str("BlockCSR → CSR not yet implemented"),
            },
        ),
        SparseTensorData::NInM { .. } => Err(
            SparseError::ConversionFailed {
                from: tensor.format(),
                to: SparseFormat::CSR,
                reason: String::from_str("N:M → CSR not yet implemented"),
            },
        ),
    }
}

/// The dense form of a tensor, with `zero` at the cells it does not store;
/// mask storage already holds its dense values.
pub fn to_dense<V: Copy>(tensor: &SparseTensor<V>, zero: V) -> (dense: Vec<V>)
    requires
        tensor.wf(),
        !(tensor.spec_format() is BlockCSR || tensor.spec_format() is NInM),
        tensor.spec_shape()[0] * tensor.spec_shape()[1] <= usize::MAX,
    ensures
        (tensor.spec_data() matches SparseTensorData::Mask { values, .. } ==> dense@ == values@),
        !(tensor.spec_data() is Mask) ==> dense@ == dense_of(tensor.entries(), tensor.spec_shape(), zero),
{
    let shape = tensor.shape();
    match tensor.data() {
        SparseTensorData::Mask { values, .. } => super::tensor::copy_vec(values),
        SparseTensorData::CSR { values, col_indices, row_pointers } => csr_to_dense(
            values,
            col_indices,
            row_pointers,
            shape,
            zero,
        ),
        SparseTensorData::CSC { values, row_indices, col_pointers } => csc_to_dense(
            values,
            row_indices,
            col_pointers,
            shape,
            zero,
        ),
        SparseTensorData::COO { values, row_indices, col_indices } => coo_to_dense(
            values,
            row_indices,
            col_indices,
            shape,
            zero,
        ),
        SparseTensorData::BlockCSR { .. } => Vec::new(),
        SparseTensorData::NInM { .. } => Vec::new(),
    }
}

/// Converts a CSR tensor to `target`: to mask storage of its dense form with
/// every position kept, or a copy for CSR; CSC, block-CSR and N:M targets
/// are not available yet.
pub fn from_csr<V: Copy>(csr: &SparseTensor<V>, target: SparseFormat, zero: V) -> (r: SparseResult<SparseTensor<V>>)
    requires
        csr.wf(),
        csr.spec_format() == SparseFormat::CSR,
        target != SparseFormat::COO,
        target == SparseFormat::Mask ==> csr.spec_shape()[0] * csr.spec_shape()[1] <= usize::MAX,
    ensures
        target == SparseFormat::Mask ==> is_full_mask_result(r, csr.spec_shape(), csr.entries(), zero),
        target == SparseFormat::CSR ==> is_csr_result(r, csr.spec_shape(), csr.entries()),
        !(target == SparseFormat::Mask || target == SparseFormat::CSR) ==> is_refusal(
            r,
            SparseFormat::CSR,
            target,
            from_csr_refusal(target),
        ),
{
    match target {
        SparseFormat::Mask => {
            let dense = to_dense(csr, zero);
            let shape = csr.shape();
            let keep = filled_vec(true, dense.len());
            let t = SparseTensor::from_dense(&dense, &keep, shape, SparseFormat::Mask, zero);
            proof {
                assert(super::tensor::kept_values(dense@, keep@, zero) =~= dense@);
            }
            Ok(t)
        },
        SparseFormat::CSR => Ok(csr.copy()),
        SparseFormat::CSC => Err(
            SparseError::ConversionFailed {
                from: SparseFormat::CSR,
                to: target,
                reason: String::from_str("CSR → CSC not yet implemented"),
            },
        ),
        SparseFormat::COO => Err(
            SparseError::ConversionFailed {
                from: SparseFormat::CSR,
                to: target,
                reason: String::from_str("CSR → COO is not available"),
            },
        ),
        SparseFormat::BlockCSR { .. } => Err(
            SparseError::ConversionFailed {
                from: SparseFormat::CSR,
                to: target,
                reason: String::from_str("CSR → BlockCSR not yet implemented"),
            },
        ),
        SparseFormat::NInM { .. } => Err(
            SparseError::ConversionFailed {
                from: SparseFormat::CSR,
                to: target,
                reason: String::from_str("CSR → N:M not yet implemented"),
            },
        ),
    }
}

/// Converts a tensor to `target`, through CSR: a tensor already in `target`
/// is copied; otherwise it is converted to CSR first (see `to_csr`), and the
/// CSR form is converted to `target` (see `from_csr`).
pub fn convert_format<V: Copy>(tensor: &SparseTensor<V>, target: SparseFormat, zero: V) -> (r: SparseResult<
    SparseTensor<V>,
>)
    requires
        tensor.wf(),
        convertible(*tensor),
        !(target == SparseFormat::COO && tensor.spec_format() != SparseFormat::COO),
        target == SparseFormat::Mask ==> tensor.spec_shape()[0] * tensor.spec_shape()[1] <= usize::MAX,
    ensures
        conversion_outcome(r, tensor.spec_format(), tensor.spec_shape(), tensor.entries(), target, zero),
{
    if tensor.format() == target {
        return Ok(tensor.copy());
    }
    let csr = if tensor.format() == SparseFormat::CSR {
        tensor.copy()
    } else {
        match to_csr(tensor) {
            Ok(t) => t,
            Err(e) => {
                return Err(e);
            },
        }
    };
    if target == SparseFormat::CSR {
        return Ok(csr);
    }
    from_csr(&csr, target, zero)
}

impl<V: Copy> SparseTensor<V> {
    /// Converts the tensor to `target` (see `convert_format`).
    pub fn to_format(&self, target: SparseFormat, zero: V) -> (r: SparseResult<SparseTensor<V>>)
        requires
            self.wf(),
            convertible(*self),
            !(target == SparseFormat::COO && self.spec_format() != SparseFormat::COO),
            target == SparseFormat::Mask ==> self.spec_shape()[0] * self.spec_shape()[1] <= usize::MAX,
        ensures
            conversion_outcome(r, self.spec_format(), self.spec_shape(), self.entries(), target, zero),
    {
        convert_format(self, target, zero)
    }

    /// The dense form of the tensor (see `to_dense`).
    pub fn to_dense(&self, zero: V) -> (dense: Vec<V>)
        requires
            self.wf(),
            !(self.spec_format() is BlockCSR || self.spec_format() is NInM),
            self.spec_shape()[0] * self.spec_shape()[1] <= usize::MAX,
        ensures
            (self.spec_data() matches SparseTensorData::Mask { values, .. } ==> dense@ == values@),
            !(self.spec_data() is Mask) ==> dense@ == dense_of(self.entries(), self.spec_shape(), zero),
    {
        to_dense(self, zero)
    }
}

/// The dense form of masked storage is its values with `zero` at the pruned
/// positions: converting a mask to CSR and back to dense loses nothing but
/// the pruned values.
pub proof fn lemma_masked_dense<V>(mask: Seq<bool>, values: Seq<V>, shape: [usize; 2], zero: V)
    requires
        mask.len() == shape[0] * shape[1],
        values.len() == shape[0] * shape[1],
    ensures
        dense_of(masked_entries(mask, values, shape), shape, zero) == kept_values(values, mask, zero),
{
    let entries = masked_entries(mask, values, shape);
    let lhs = dense_of(entries, shape, zero);
    let rhs = kept_values(values, mask, zero);
    let cols = shape[1] as int;
    assert forall|p: int| 0 <= p < lhs.len() implies lhs[p] == rhs[p] by {
        if cols == 0 {
            assert(shape[0] * shape[1] == 0) by (nonlinear_arith)
                requires
                    cols == 0,
                    shape[1] == cols,
            ;
        }
        lemma_position_cell(p, shape[0] as int, cols);
        let rc = (p / cols, p % cols);
        assert(rc.0 * shape[1] + rc.1 == p);
    }
    assert(lhs =~= rhs);
}

impl<V: Copy> SparseTensor<V> {
    /// The CSR tensor of the kept weights of a mask: the weights must have
    /// the mask's shape.
    pub fn from_mask(mask: &SparseMask, weights: &Vec<V>, weights_shape: [usize; 2]) -> (r: SparseResult<Self>)
        requires
            mask.wf(),
            weights@.len() == weights_shape[0] * weights_shape[1],
            mask.spec_shape()[0] < usize::MAX,
            mask.spec_shape()[0] * mask.spec_shape()[1] <= i64::MAX,
        ensures
            weights_shape != mask.spec_shape() ==> (r matches Err(SparseError::InvalidTensor { reason })
                && reason@ == "Mask shape "@ + shape_text(mask.spec_shape()) + " doesn't match weights shape "@
                + shape_text(weights_shape)),
            weights_shape == mask.spec_shape() ==> is_csr_result(
                r,
                weights_shape,
                masked_entries(mask.spec_mask(), weights@, weights_shape),
            ),
            weights_shape == mask.spec_shape() ==> (r matches Ok(t) && t.spec_nnz() <= weights_shape[0]
                * weights_shape[1]),
    {
        let shape = mask.shape();
        if weights_shape[0] != shape[0] || weights_shape[1] != shape[1] {
            let mut reason = String::from_str("Mask shape ");
            push_shape(&mut reason, shape);
            reason.append(" doesn't match weights shape ");
            push_shape(&mut reason, weights_shape);
            return Err(SparseError::InvalidTensor { reason });
        }
        assert(weights_shape =~= shape);
        mask_to_csr(mask.tensor().as_slice(), weights.as_slice(), shape)
    }
}

} // verus!
