//! Structural validation of sparse formats over plain index arrays.
//!
//! Each validator scans its input in order and reports the first violation
//! it meets; its contract states when the input is valid and which
//! violation is reported otherwise.

use vstd::prelude::*;
use crate::text::{decimal, signed_decimal, push_usize_decimal, push_signed_decimal};
use super::error::{SparseError, SparseResult};

verus! {

/// The orientation of a compressed format: CSR compresses rows, CSC columns.
#[derive(Debug, Clone, Copy, PartialEq, Eq, Structural)]
pub enum CompressedAxis {
    /// Compressed rows (CSR): pointers per row, column indices
    Rows,
    /// Compressed columns (CSC): pointers per column, row indices
    Columns,
}

/// The pointer entry at `i`, read as an offset.
pub open spec fn ptr_at(ptrs: Seq<i64>, i: int) -> int {
    ptrs[i] as usize as int
}

/// The stored index at position `j` of a line starting at `start` is
/// present, in bounds, and larger than the previous index of the line.
pub open spec fn entry_ok(idx: Seq<i64>, nnz: usize, n_inner: usize, start: int, j: int) -> bool {
    &&& j < nnz
    &&& 0 <= idx[j] && idx[j] < n_inner as i64
    &&& (j == start || idx[j] > idx[j - 1])
}

/// Line `i` (a row of CSR, a column of CSC) has non-decreasing pointers and
/// only valid entries.
pub open spec fn line_ok(ptrs: Seq<i64>, idx: Seq<i64>, nnz: usize, n_inner: usize, i: int) -> bool {
    &&& ptr_at(ptrs, i) <= ptr_at(ptrs, i + 1)
    &&& forall|j: int|
        ptr_at(ptrs, i) <= j < ptr_at(ptrs, i + 1) ==> entry_ok(idx, nnz, n_inner, ptr_at(ptrs, i), j)
}

/// The lengths and the first and last pointers are consistent.
pub open spec fn header_ok(nnz: usize, idx: Seq<i64>, ptrs: Seq<i64>, n_outer: usize) -> bool {
    &&& idx.len() == nnz
    &&& ptrs.len() == n_outer + 1
    &&& ptrs[0] == 0
    &&& ptrs[n_outer as int] == nnz as i64
}

/// A valid compressed structure: consistent lengths and end pointers, and
/// every line with non-decreasing pointers and strictly increasing in-bounds
/// indices.
pub open spec fn compressed_valid(
    nnz: usize,
    idx: Seq<i64>,
    ptrs: Seq<i64>,
    n_outer: usize,
    n_inner: usize,
) -> bool {
    &&& header_ok(nnz, idx, ptrs, n_outer)
    &&& forall|i: int| 0 <= i < n_outer ==> line_ok(ptrs, idx, nnz, n_inner, i)
}

/// `i` is the first line that is not valid.
pub open spec fn is_first_bad_line(
    ptrs: Seq<i64>,
    idx: Seq<i64>,
    nnz: usize,
    n_outer: usize,
    n_inner: usize,
    i: int,
) -> bool {
    &&& 0 <= i < n_outer
    &&& !line_ok(ptrs, idx, nnz, n_inner, i)
    &&& forall|k: int| 0 <= k < i ==> line_ok(ptrs, idx, nnz, n_inner, k)
}

/// `j` is the first invalid entry of line `i`.
pub open spec fn is_first_bad_entry(
    ptrs: Seq<i64>,
    idx: Seq<i64>,
    nnz: usize,
    n_inner: usize,
    i: int,
    j: int,
) -> bool {
    &&& ptr_at(ptrs, i) <= j < ptr_at(ptrs, i + 1)
    &&& !entry_ok(idx, nnz, n_inner, ptr_at(ptrs, i), j)
    &&& forall|k: int| ptr_at(ptrs, i) <= k < j ==> entry_ok(idx, nnz, n_inner, ptr_at(ptrs, i), k)
}

/// The name of the format.
pub open spec fn axis_format(a: CompressedAxis) -> Seq<char> {
    match a {
        CompressedAxis::Rows => "CSR"@,
        CompressedAxis::Columns => "CSC"@,
    }
}

/// The name of the index array.
pub open spec fn axis_index_name(a: CompressedAxis) -> Seq<char> {
    match a {
        CompressedAxis::Rows => "col_indices"@,
        CompressedAxis::Columns => "row_indices"@,
    }
}

/// The name of the pointer array.
pub open spec fn axis_pointer_name(a: CompressedAxis) -> Seq<char> {
    match a {
        CompressedAxis::Rows => "row_pointers"@,
        CompressedAxis::Columns => "col_pointers"@,
    }
}

/// The name of the number of lines.
pub open spec fn axis_count_name(a: CompressedAxis) -> Seq<char> {
    match a {
        CompressedAxis::Rows => "n_rows"@,
        CompressedAxis::Columns => "n_cols"@,
    }
}

/// The name of one line.
pub open spec fn axis_line_name(a: CompressedAxis) -> Seq<char> {
    match a {
        CompressedAxis::Rows => "row"@,
        CompressedAxis::Columns => "column"@,
    }
}

/// The message of the first violation of a compressed structure that is not
/// valid.
pub open spec fn compressed_message(
    a: CompressedAxis,
    nnz: usize,
    idx: Seq<i64>,
    ptrs: Seq<i64>,
    n_outer: usize,
    n_inner: usize,
) -> Seq<char> {
    let f = axis_format(a) + " "@;
    let ix = axis_index_name(a);
    let px = axis_pointer_name(a);
    if idx.len() != nnz {
        f + ix + " length "@ + decimal(idx.len()) + " doesn't match values length "@ + decimal(
            nnz as nat,
        )
    } else if ptrs.len() != n_outer + 1 {
        f + px + " length "@ + decimal(ptrs.len()) + " doesn't match "@ + axis_count_name(a)
            + " + 1 = "@ + decimal((n_outer + 1) as nat)
    } else if ptrs[0] != 0 {
        f + px + "[0] must be 0, got "@ + signed_decimal(ptrs[0] as int)
    } else if ptrs[n_outer as int] != nnz as i64 {
        f + px + "["@ + decimal(n_outer as nat) + "] must be "@ + decimal(nnz as nat) + ", got "@
            + signed_decimal(ptrs[n_outer as int] as int)
    } else {
        let i = choose|i: int| is_first_bad_line(ptrs, idx, nnz, n_outer, n_inner, i);
        let start = ptr_at(ptrs, i);
        let end = ptr_at(ptrs, i + 1);
        if end < start {
            f + px + " not monotonic: "@ + px + "["@ + decimal(i as nat) + "] = "@ + decimal(
                start as nat,
            ) + ", "@ + px + "["@ + decimal((i + 1) as nat) + "] = "@ + decimal(end as nat)
        } else {
            let j = choose|j: int| is_first_bad_entry(ptrs, idx, nnz, n_inner, i, j);
            if j >= nnz {
                f + px + "["@ + decimal((i + 1) as nat) + "] = "@ + decimal(end as nat)
                    + " exceeds values length "@ + decimal(nnz as nat)
            } else if idx[j] < 0 || idx[j] >= n_inner as i64 {
                f + ix + "["@ + decimal(j as nat) + "] = "@ + signed_decimal(idx[j] as int)
                    + " out of bounds [0, "@ + decimal(n_inner as nat) + ")"@
            } else {
                f + ix + " not sorted in "@ + axis_line_name(a) + " "@ + decimal(i as nat) + ": "@
                    + ix + "["@ + decimal(j as nat) + "] = "@ + signed_decimal(idx[j] as int)
                    + " <= previous "@ + signed_decimal(if j == start {
                    -1
                } else {
                    idx[j - 1] as int
                })
            }
        }
    }
}

fn axis_names(a: CompressedAxis) -> (r: (&'static str, &'static str, &'static str))
    ensures
        r.0@ == axis_format(a) + " "@,
        r.1@ == axis_index_name(a),
        r.2@ == axis_pointer_name(a),
{
    proof {
        reveal_strlit("CSR ");
        reveal_strlit("CSC ");
        reveal_strlit("CSR");
        reveal_strlit("CSC");
        reveal_strlit(" ");
    }
    match a {
        CompressedAxis::Rows => ("CSR ", "col_indices", "row_pointers"),
        CompressedAxis::Columns => ("CSC ", "row_indices", "col_pointers"),
    }
}

fn axis_more_names(a: CompressedAxis) -> (r: (&'static str, &'static str))
    ensures
        r.0@ == axis_count_name(a),
        r.1@ == axis_line_name(a),
{
    match a {
        CompressedAxis::Rows => ("n_rows", "row"),
        CompressedAxis::Columns => ("n_cols", "column"),
    }
}

proof fn lemma_first_bad_line_unique(
    ptrs: Seq<i64>,
    idx: Seq<i64>,
    nnz: usize,
    n_outer: usize,
    n_inner: usize,
    i: int,
)
    requires
        is_first_bad_line(ptrs, idx, nnz, n_outer, n_inner, i),
    ensures
        (choose|k: int| is_first_bad_line(ptrs, idx, nnz, n_outer, n_inner, k)) == i,
{
    let c = choose|k: int| is_first_bad_line(ptrs, idx, nnz, n_outer, n_inner, k);
    assert(is_first_bad_line(ptrs, idx, nnz, n_outer, n_inner, c));
    if c < i {
        assert(line_ok(ptrs, idx, nnz, n_inner, c));
    } else if i < c {
        assert(line_ok(ptrs, idx, nnz, n_inner, i));
    }
}

proof fn lemma_first_bad_entry_unique(
    ptrs: Seq<i64>,
    idx: Seq<i64>,
    nnz: usize,
    n_inner: usize,
    i: int,
    j: int,
)
    requires
        is_first_bad_entry(ptrs, idx, nnz, n_inner, i, j),
    ensures
        (choose|k: int| is_first_bad_entry(ptrs, idx, nnz, n_inner, i, k)) == j,
{
    let c = choose|k: int| is_first_bad_entry(ptrs, idx, nnz, n_inner, i, k);
    assert(is_first_bad_entry(ptrs, idx, nnz, n_inner, i, c));
    if c < j {
        assert(entry_ok(idx, nnz, n_inner, ptr_at(ptrs, i), c));
    } else if j < c {
        assert(entry_ok(idx, nnz, n_inner, ptr_at(ptrs, i), j));
    }
}

/// Validates a compressed structure (CSR for `Rows`, CSC for `Columns`) of
/// `nnz` values, reporting the first violation met by an in-order scan.
pub fn validate_compressed(
    axis: CompressedAxis,
    nnz: usize,
    idx: &[i64],
    ptrs: &[i64],
    n_outer: usize,
    n_inner: usize,
) -> (r: SparseResult<()>)
    requires
        n_outer < usize::MAX,
    ensures
        r is Ok <==> compressed_valid(nnz, idx@, ptrs@, n_outer, n_inner),
        r matches Err(e) ==> e matches SparseError::InvalidTensor { reason } && reason@
            == compressed_message(axis, nnz, idx@, ptrs@, n_outer, n_inner),
{
    let (f, ix, px) = axis_names(axis);
    if idx.len() != nnz {
        let mut s = String::from_str(f);
        s.append(ix);
        s.append(" length ");
        push_usize_decimal(&mut s, idx.len());
        s.append(" doesn't match values length ");
        push_usize_decimal(&mut s, nnz);
        return Err(SparseError::InvalidTensor { reason: s });
    }
    if ptrs.len() != n_outer + 1 {
        let (count_name, _) = axis_more_names(axis);
        let mut s = String::from_str(f);
        s.append(px);
        s.append(" length ");
        push_usize_decimal(&mut s, ptrs.len());
        s.append(" doesn't match ");
        s.append(count_name);
        s.append(" + 1 = ");
        push_usize_decimal(&mut s, n_outer + 1);
        return Err(SparseError::InvalidTensor { reason: s });
    }
    if ptrs[0] != 0 {
        let mut s = String::from_str(f);
        s.append(px);
        s.append("[0] must be 0, got ");
        push_signed_decimal(&mut s, ptrs[0]);
        return Err(SparseError::InvalidTensor { reason: s });
    }
    if ptrs[n_outer] != nnz as i64 {
        let mut s = String::from_str(f);
        s.append(px);
        s.append("[");
        push_usize_decimal(&mut s, n_outer);
        s.append("] must be ");
        push_usize_decimal(&mut s, nnz);
        s.append(", got ");
        push_signed_decimal(&mut s, ptrs[n_outer]);
        return Err(SparseError::InvalidTensor { reason: s });
    }
    let mut i: usize = 0;
    while i < n_outer
        invariant
            i <= n_outer,
            n_outer < usize::MAX,
            header_ok(nnz, idx@, ptrs@, n_outer),
                f@ == axis_format(axis) + " "@,
            ix@ == axis_index_name(axis),
            px@ == axis_pointer_name(axis),
            forall|k: int| 0 <= k < i ==> line_ok(ptrs@, idx@, nnz, n_inner, k),
        decreases n_outer - i,
    {
        let start = ptrs[i] as usize;
        let end = ptrs[i + 1] as usize;
        if end < start {
            proof {
                assert(is_first_bad_line(ptrs@, idx@, nnz, n_outer, n_inner, i as int));
                lemma_first_bad_line_unique(ptrs@, idx@, nnz, n_outer, n_inner, i as int);
            }
            let mut s = String::from_str(f);
            s.append(px);
            s.append(" not monotonic: ");
            s.append(px);
            s.append("[");
            push_usize_decimal(&mut s, i);
            s.append("] = ");
            push_usize_decimal(&mut s, start);
            s.append(", ");
            s.append(px);
            s.append("[");
            push_usize_decimal(&mut s, i + 1);
            s.append("] = ");
            push_usize_decimal(&mut s, end);
            return Err(SparseError::InvalidTensor { reason: s });
        }
        let mut prev: i64 = -1;
        let mut j: usize = start;
        while j < end
            invariant
                i < n_outer,
                n_outer < usize::MAX,
                start == ptr_at(ptrs@, i as int),
                end == ptr_at(ptrs@, i as int + 1),
                start <= j <= end,
                header_ok(nnz, idx@, ptrs@, n_outer),
                        f@ == axis_format(axis) + " "@,
                ix@ == axis_index_name(axis),
                px@ == axis_pointer_name(axis),
                forall|k: int| 0 <= k < i ==> line_ok(ptrs@, idx@, nnz, n_inner, k),
                forall|k: int| start <= k < j ==> entry_ok(idx@, nnz, n_inner, start as int, k),
                j == start ==> prev == -1,
                j > start ==> prev == idx@[j - 1],
            decreases end - j,
        {
            if j >= nnz {
                proof {
                    assert(!entry_ok(idx@, nnz, n_inner, start as int, j as int));
                    assert(!line_ok(ptrs@, idx@, nnz, n_inner, i as int));
                    assert(is_first_bad_line(ptrs@, idx@, nnz, n_outer, n_inner, i as int));
                    lemma_first_bad_line_unique(ptrs@, idx@, nnz, n_outer, n_inner, i as int);
                    assert(is_first_bad_entry(ptrs@, idx@, nnz, n_inner, i as int, j as int));
                    lemma_first_bad_entry_unique(ptrs@, idx@, nnz, n_inner, i as int, j as int);
                }
                let mut s = String::from_str(f);
                s.append(px);
                s.append("[");
                push_usize_decimal(&mut s, i + 1);
                s.append("] = ");
                push_usize_decimal(&mut s, end);
                s.append(" exceeds values length ");
                push_usize_decimal(&mut s, nnz);
                return Err(SparseError::InvalidTensor { reason: s });
            }
            let col = idx[j];
            if col < 0 || col >= n_inner as i64 {
                proof {
                    assert(!entry_ok(idx@, nnz, n_inner, start as int, j as int));
                    assert(!line_ok(ptrs@, idx@, nnz, n_inner, i as int));
                    assert(is_first_bad_line(ptrs@, idx@, nnz, n_outer, n_inner, i as int));
                    lemma_first_bad_line_unique(ptrs@, idx@, nnz, n_outer, n_inner, i as int);
                    assert(is_first_bad_entry(ptrs@, idx@, nnz, n_inner, i as int, j as int));
                    lemma_first_bad_entry_unique(ptrs@, idx@, nnz, n_inner, i as int, j as int);
                }
                let mut s = String::from_str(f);
                s.append(ix);
                s.append("[");
                push_usize_decimal(&mut s, j);
                s.append("] = ");
                push_signed_decimal(&mut s, col);
                s.append(" out of bounds [0, ");
                push_usize_decimal(&mut s, n_inner);
                s.append(")");
                return Err(SparseError::InvalidTensor { reason: s });
            }
            if col <= prev {
                let (_, line_name) = axis_more_names(axis);
                proof {
                    assert(!entry_ok(idx@, nnz, n_inner, start as int, j as int));
                    assert(!line_ok(ptrs@, idx@, nnz, n_inner, i as int));
                    assert(is_first_bad_line(ptrs@, idx@, nnz, n_outer, n_inner, i as int));
                    lemma_first_bad_line_unique(ptrs@, idx@, nnz, n_outer, n_inner, i as int);
                    assert(is_first_bad_entry(ptrs@, idx@, nnz, n_inner, i as int, j as int));
                    lemma_first_bad_entry_unique(ptrs@, idx@, nnz, n_inner, i as int, j as int);
                }
                let mut s = String::from_str(f);
                s.append(ix);
                s.append(" not sorted in ");
                s.append(line_name);
                s.append(" ");
                push_usize_decimal(&mut s, i);
                s.append(": ");
                s.append(ix);
                s.append("[");
                push_usize_decimal(&mut s, j);
                s.append("] = ");
                push_signed_decimal(&mut s, col);
                s.append(" <= previous ");
                push_signed_decimal(&mut s, prev);
                return Err(SparseError::InvalidTensor { reason: s });
            }
            prev = col;
            j += 1;
        }
        i += 1;
    }
    Ok(())
}

/// Validates CSR structure: `col_indices` and `row_pointers` for the
/// values of a matrix of `shape`.
pub fn validate_csr<V>(
    values: &[V],
    col_indices: &[i64],
    row_pointers: &[i64],
    shape: [usize; 2],
) -> (r: SparseResult<()>)
    requires
        shape[0] < usize::MAX,
    ensures
        r is Ok <==> compressed_valid(values@.len() as usize, col_indices@, row_pointers@, shape[0], shape[1]),
        r matches Err(e) ==> e matches SparseError::InvalidTensor { reason } && reason@
            == compressed_message(
            CompressedAxis::Rows,
            values@.len() as usize,
            col_indices@,
            row_pointers@,
            shape[0],
            shape[1],
        ),
{
    validate_compressed(CompressedAxis::Rows, values.len(), col_indices, row_pointers, shape[0], shape[1])
}

/// Validates CSC structure: `row_indices` and `col_pointers` for the
/// values of a matrix of `shape`.
pub fn validate_csc<V>(
    values: &[V],
    row_indices: &[i64],
    col_pointers: &[i64],
    shape: [usize; 2],
) -> (r: SparseResult<()>)
    requires
        shape[1] < usize::MAX,
    ensures
        r is Ok <==> compressed_valid(values@.len() as usize, row_indices@, col_pointers@, shape[1], shape[0]),
        r matches Err(e) ==> e matches SparseError::InvalidTensor { reason } && reason@
            == compressed_message(
            CompressedAxis::Columns,
            values@.len() as usize,
            row_indices@,
            col_pointers@,
            shape[1],
            shape[0],
        ),
{
    validate_compressed(CompressedAxis::Columns, values.len(), row_indices, col_pointers, shape[1], shape[0])
}

/// Entry `i` of a coordinate list lies within a matrix of `shape`.
pub open spec fn coo_entry_ok(rows: Seq<i64>, cols: Seq<i64>, shape: [usize; 2], i: int) -> bool {
    &&& 0 <= rows[i] && rows[i] < shape[0] as i64
    &&& 0 <= cols[i] && cols[i] < shape[1] as i64
}

/// A valid coordinate list: three arrays of the same length and every
/// coordinate within the matrix.
pub open spec fn coo_valid(nnz: usize, rows: Seq<i64>, cols: Seq<i64>, shape: [usize; 2]) -> bool {
    &&& rows.len() == nnz
    &&& cols.len() == nnz
    &&& forall|i: int| 0 <= i < nnz ==> coo_entry_ok(rows, cols, shape, i)
}

/// `i` is the first coordinate outside the matrix.
pub open spec fn is_first_bad_coo(rows: Seq<i64>, cols: Seq<i64>, shape: [usize; 2], nnz: usize, i: int) -> bool {
    &&& 0 <= i < nnz
    &&& !coo_entry_ok(rows, cols, shape, i)
    &&& forall|k: int| 0 <= k < i ==> coo_entry_ok(rows, cols, shape, k)
}

/// The message of the first violation of a coordinate list that is not valid.
pub open spec fn coo_message(nnz: usize, rows: Seq<i64>, cols: Seq<i64>, shape: [usize; 2]) -> Seq<char> {
    if rows.len() != nnz {
        "COO row_indices length "@ + decimal(rows.len()) + " doesn't match values length "@
            + decimal(nnz as nat)
    } else if cols.len() != nnz {
        "COO col_indices length "@ + decimal(cols.len()) + " doesn't match values length "@
            + decimal(nnz as nat)
    } else {
        let i = choose|i: int| is_first_bad_coo(rows, cols, shape, nnz, i);
        if rows[i] < 0 || rows[i] >= shape[0] as i64 {
            "COO row_indices["@ + decimal(i as nat) + "] = "@ + signed_decimal(rows[i] as int)
                + " out of bounds [0, "@ + decimal(shape[0] as nat) + ")"@
        } else {
            "COO col_indices["@ + decimal(i as nat) + "] = "@ + signed_decimal(cols[i] as int)
                + " out of bounds [0, "@ + decimal(shape[1] as nat) + ")"@
        }
    }
}

/// Entry `j` of a coordinate list repeats the coordinate of an earlier entry.
pub open spec fn coo_repeats(rows: Seq<i64>, cols: Seq<i64>, j: int) -> bool {
    exists|i: int| 0 <= i < j && #[trigger] rows[i] == rows[j] && cols[i] == cols[j]
}

/// No entry of a coordinate list repeats the coordinate of an earlier one.
pub open spec fn coo_no_repeats(rows: Seq<i64>, cols: Seq<i64>, nnz: usize) -> bool {
    forall|j: int| 0 <= j < nnz ==> !#[trigger] coo_repeats(rows, cols, j)
}

/// `j` is the first entry that repeats an earlier coordinate.
pub open spec fn is_first_repeat(rows: Seq<i64>, cols: Seq<i64>, nnz: usize, j: int) -> bool {
    &&& 0 <= j < nnz
    &&& coo_repeats(rows, cols, j)
    &&& forall|k: int| 0 <= k < j ==> !#[trigger] coo_repeats(rows, cols, k)
}

/// The message of the first repeated coordinate.
pub open spec fn coo_duplicate_message(rows: Seq<i64>, cols: Seq<i64>, nnz: usize) -> Seq<char> {
    let j = choose|j: int| is_first_repeat(rows, cols, nnz, j);
    "COO duplicate coordinate ("@ + signed_decimal(rows[j] as int) + ", "@ + signed_decimal(cols[j] as int)
        + ") at index "@ + decimal(j as nat)
}

proof fn lemma_first_repeat_unique(rows: Seq<i64>, cols: Seq<i64>, nnz: usize, j: int)
    requires
        is_first_repeat(rows, cols, nnz, j),
    ensures
        (choose|k: int| is_first_repeat(rows, cols, nnz, k)) == j,
{
    let c = choose|k: int| is_first_repeat(rows, cols, nnz, k);
    assert(is_first_repeat(rows, cols, nnz, c));
    if c < j {
        assert(!coo_repeats(rows, cols, c));
    } else if j < c {
        assert(!coo_repeats(rows, cols, j));
    }
}

proof fn lemma_first_bad_coo_unique(rows: Seq<i64>, cols: Seq<i64>, shape: [usize; 2], nnz: usize, i: int)
    requires
        is_first_bad_coo(rows, cols, shape, nnz, i),
    ensures
        (choose|k: int| is_first_bad_coo(rows, cols, shape, nnz, k)) == i,
{
    let c = choose|k: int| is_first_bad_coo(rows, cols, shape, nnz, k);
    assert(is_first_bad_coo(rows, cols, shape, nnz, c));
    if c < i {
        assert(coo_entry_ok(rows, cols, shape, c));
    } else if i < c {
        assert(coo_entry_ok(rows, cols, shape, i));
    }
}

/// Validates a coordinate list of the values of a matrix of `shape`:
/// equal lengths and every coordinate in bounds, and, when
/// `check_duplicates` holds, no coordinate listed twice.
pub fn validate_coo<V>(
    values: &[V],
    row_indices: &[i64],
    col_indices: &[i64],
    shape: [usize; 2],
    check_duplicates: bool,
) -> (r: SparseResult<()>)
    ensures
        r is Ok <==> coo_valid(values@.len() as usize, row_indices@, col_indices@, shape) && (check_duplicates
            ==> coo_no_repeats(row_indices@, col_indices@, values@.len() as usize)),
        r matches Err(e) ==> e matches SparseError::InvalidTensor { reason } && reason@ == if coo_valid(
            values@.len() as usize,
            row_indices@,
            col_indices@,
            shape,
        ) {
            coo_duplicate_message(row_indices@, col_indices@, values@.len() as usize)
        } else {
            coo_message(values@.len() as usize, row_indices@, col_indices@, shape)
        },
{
    let nnz = values.len();
    if row_indices.len() != nnz {
        let mut s = String::from_str("COO row_indices length ");
        push_usize_decimal(&mut s, row_indices.len());
        s.append(" doesn't match values length ");
        push_usize_decimal(&mut s, nnz);
        return Err(SparseError::InvalidTensor { reason: s });
    }
    if col_indices.len() != nnz {
        let mut s = String::from_str("COO col_indices length ");
        push_usize_decimal(&mut s, col_indices.len());
        s.append(" doesn't match values length ");
        push_usize_decimal(&mut s, nnz);
        return Err(SparseError::InvalidTensor { reason: s });
    }
    let mut i: usize = 0;
    while i < nnz
        invariant
            i <= nnz,
            nnz == values@.len(),
            row_indices@.len() == nnz,
            col_indices@.len() == nnz,
            forall|k: int| 0 <= k < i ==> coo_entry_ok(row_indices@, col_indices@, shape, k),
        decreases nnz - i,
    {
        let row = row_indices[i];
        let col = col_indices[i];
        if row < 0 || row >= shape[0] as i64 {
            proof {
                assert(!coo_entry_ok(row_indices@, col_indices@, shape, i as int));
                lemma_first_bad_coo_unique(row_indices@, col_indices@, shape, nnz, i as int);
            }
            let mut s = String::from_str("COO row_indices[");
            push_usize_decimal(&mut s, i);
            s.append("] = ");
            push_signed_decimal(&mut s, row);
            s.append(" out of bounds [0, ");
            push_usize_decimal(&mut s, shape[0]);
            s.append(")");
            return Err(SparseError::InvalidTensor { reason: s });
        }
        if col < 0 || col >= shape[1] as i64 {
            proof {
                assert(!coo_entry_ok(row_indices@, col_indices@, shape, i as int));
                lemma_first_bad_coo_unique(row_indices@, col_indices@, shape, nnz, i as int);
            }
            let mut s = String::from_str("COO col_indices[");
            push_usize_decimal(&mut s, i);
            s.append("] = ");
            push_signed_decimal(&mut s, col);
            s.append(" out of bounds [0, ");
            push_usize_decimal(&mut s, shape[1]);
            s.append(")");
            return Err(SparseError::InvalidTensor { reason: s });
        }
        i += 1;
    }
    if check_duplicates {
        let mut j: usize = 0;
        while j < nnz
            invariant
                j <= nnz,
                check_duplicates,
                nnz == values@.len(),
                row_indices@.len() == nnz,
                col_indices@.len() == nnz,
                coo_valid(nnz, row_indices@, col_indices@, shape),
                forall|k: int| 0 <= k < j ==> !#[trigger] coo_repeats(row_indices@, col_indices@, k),
            decreases nnz - j,
        {
            let mut i: usize = 0;
            while i < j
                invariant
                    i <= j,
                    j < nnz,
                    check_duplicates,
                    nnz == values@.len(),
                    row_indices@.len() == nnz,
                    col_indices@.len() == nnz,
                    coo_valid(nnz, row_indices@, col_indices@, shape),
                    forall|k: int| 0 <= k < j ==> !#[trigger] coo_repeats(row_indices@, col_indices@, k),
                    forall|k: int|
                        0 <= k < i ==> !(#[trigger] row_indices@[k] == row_indices@[j as int] && col_indices@[k]
                            == col_indices@[j as int]),
                decreases j - i,
            {
                if row_indices[i] == row_indices[j] && col_indices[i] == col_indices[j] {
                    proof {
                        assert(coo_repeats(row_indices@, col_indices@, j as int));
                        assert(is_first_repeat(row_indices@, col_indices@, nnz, j as int));
                        assert(!coo_no_repeats(row_indices@, col_indices@, nnz));
                        lemma_first_repeat_unique(row_indices@, col_indices@, nnz, j as int);
                    }
                    let mut s = String::from_str("COO duplicate coordinate (");
                    push_signed_decimal(&mut s, row_indices[j]);
                    s.append(", ");
                    push_signed_decimal(&mut s, col_indices[j]);
                    s.append(") at index ");
                    push_usize_decimal(&mut s, j);
                    return Err(SparseError::InvalidTensor { reason: s });
                }
                i += 1;
            }
            proof {
                assert(!coo_repeats(row_indices@, col_indices@, j as int));
            }
            j += 1;
        }
    }
    Ok(())
}

/// The `(outer, inner)` extents of an N:M check along `dim`: rows then
/// columns for `dim == 0`, columns then rows otherwise.
pub open spec fn nm_extents(shape: [usize; 2], dim: usize) -> (usize, usize) {
    if dim == 0 {
        (shape[0], shape[1])
    } else {
        (shape[1], shape[0])
    }
}

/// Row-major position of element `j` of line `i` of an N:M check along `dim`.
pub open spec fn nm_position(shape: [usize; 2], dim: usize, i: int, j: int) -> int {
    if dim == 0 {
        i * shape[1] + j
    } else {
        j * shape[1] + i
    }
}

/// Number of kept mask entries among elements `lo..hi` of line `i`.
pub open spec fn nm_count(mask: Seq<bool>, shape: [usize; 2], dim: usize, i: int, lo: int, hi: int) -> nat
    decreases hi - lo,
{
    if hi <= lo {
        0
    } else {
        nm_count(mask, shape, dim, i, lo, hi - 1) + if mask[nm_position(shape, dim, i, hi - 1)] {
            1nat
        } else {
            0nat
        }
    }
}

/// Group `g` (elements `g*m..g*m+m`) of line `i` holds exactly `n` kept entries.
pub open spec fn nm_group_ok(mask: Seq<bool>, shape: [usize; 2], n: usize, m: usize, dim: usize, i: int, g: int) -> bool {
    nm_count(mask, shape, dim, i, g * m, g * m + m) == n
}

/// The mask follows the N:M pattern along `dim`: lines split evenly into
/// groups of `m`, each group holding exactly `n` kept entries.
pub open spec fn nm_pattern_valid(mask: Seq<bool>, shape: [usize; 2], n: usize, m: usize, dim: usize) -> bool {
    let (outer, inner) = nm_extents(shape, dim);
    &&& inner % m == 0
    &&& forall|i: int, g: int|
        0 <= i < outer && 0 <= g < (inner / m) as int ==> nm_group_ok(mask, shape, n, m, dim, i, g)
}

/// `(i, g)` is the first group, in line order, that breaks the pattern.
pub open spec fn is_first_bad_group(mask: Seq<bool>, shape: [usize; 2], n: usize, m: usize, dim: usize, i: int, g: int) -> bool {
    let (outer, inner) = nm_extents(shape, dim);
    &&& 0 <= i < outer
    &&& 0 <= g < (inner / m) as int
    &&& !nm_group_ok(mask, shape, n, m, dim, i, g)
    &&& forall|i2: int, g2: int|
        0 <= i2 < i && 0 <= g2 < (inner / m) as int ==> nm_group_ok(mask, shape, n, m, dim, i2, g2)
    &&& forall|g2: int| 0 <= g2 < g ==> nm_group_ok(mask, shape, n, m, dim, i, g2)
}

/// The message of the first violation of a mask that breaks the pattern.
pub open spec fn nm_message(mask: Seq<bool>, shape: [usize; 2], n: usize, m: usize, dim: usize) -> Seq<char> {
    let (outer, inner) = nm_extents(shape, dim);
    if inner % m != 0 {
        "Dimension "@ + decimal(inner as nat) + " not aligned to M="@ + decimal(m as nat) + ": "@
            + decimal(inner as nat) + " % "@ + decimal(m as nat) + " != 0"@
    } else {
        let (i, g) = choose|i: int, g: int| is_first_bad_group(mask, shape, n, m, dim, i, g);
        decimal(n as nat) + ":M violation at "@ + (if dim == 0 {
            "row"@
        } else {
            "col"@
        }) + "="@ + decimal(i as nat) + ", block starting at "@ + decimal((g * m) as nat)
            + ": found "@ + decimal(nm_count(mask, shape, dim, i, g * m, g * m + m))
            + " non-zeros, expected "@ + decimal(n as nat)
    }
}

/// The entries of group `g` of line `i` of an N:M check along `dim`:
/// elements `g*m .. g*m+m` of row `i` for `dim == 0`, of column `i`
/// otherwise, read from the row-major mask.
pub open spec fn nm_group(mask: Seq<bool>, shape: [usize; 2], dim: usize, m: usize, i: int, g: int) -> Seq<bool> {
    Seq::new(
        m as nat,
        |t: int|
            if dim == 0 {
                mask[i * shape[1] + (g * m + t)]
            } else {
                mask[(g * m + t) * shape[1] + i]
            },
    )
}

/// The number of `true` entries of `s`.
pub open spec fn kept_in(s: Seq<bool>) -> nat {
    s.filter(|b: bool| b).len()
}

proof fn lemma_nm_count_kept(mask: Seq<bool>, shape: [usize; 2], dim: usize, i: int, lo: int, t: nat)
    ensures
        nm_count(mask, shape, dim, i, lo, lo + t) == kept_in(
            Seq::new(t, |u: int| mask[nm_position(shape, dim, i, lo + u)]),
        ),
    decreases t,
{
    let sq = Seq::new(t, |u: int| mask[nm_position(shape, dim, i, lo + u)]);
    reveal_with_fuel(Seq::<_>::filter, 1);
    if t == 0 {
        assert(sq.filter(|b: bool| b) =~= Seq::<bool>::empty());
    } else {
        let t1 = (t - 1) as nat;
        lemma_nm_count_kept(mask, shape, dim, i, lo, t1);
        let sq1 = Seq::new(t1, |u: int| mask[nm_position(shape, dim, i, lo + u)]);
        assert(sq.drop_last() =~= sq1);
        assert(lo + t - 1 == lo + t1);
    }
}

/// A mask passes the N:M check along `dim` exactly when the lines split
/// evenly into groups of `m` and every group holds exactly `n` kept
/// entries, counted directly over the group's entries.
pub proof fn lemma_nm_valid_iff_exact_counts(mask: Seq<bool>, shape: [usize; 2], n: usize, m: usize, dim: usize)
    requires
        m > 0,
    ensures
        nm_pattern_valid(mask, shape, n, m, dim) <==> {
            &&& (if dim == 0 { shape[1] } else { shape[0] }) % m == 0
            &&& forall|i: int, g: int|
                0 <= i < (if dim == 0 { shape[0] } else { shape[1] }) && 0 <= g < ((if dim == 0 {
                    shape[1]
                } else {
                    shape[0]
                }) / m) as int ==> kept_in(#[trigger] nm_group(mask, shape, dim, m, i, g)) == n
        },
{
    assert forall|i: int, g: int| #![trigger nm_group(mask, shape, dim, m, i, g)]
        nm_count(mask, shape, dim, i, g * m, g * m + m) == kept_in(nm_group(mask, shape, dim, m, i, g)) by {
        lemma_nm_count_kept(mask, shape, dim, i, g * m, m as nat);
        assert(Seq::new(m as nat, |u: int| mask[nm_position(shape, dim, i, g * m + u)]) =~= nm_group(
            mask,
            shape,
            dim,
            m,
            i,
            g,
        ));
    }
    let (outer, inner) = nm_extents(shape, dim);
    assert(outer == (if dim == 0 { shape[0] } else { shape[1] }));
    assert(inner == (if dim == 0 { shape[1] } else { shape[0] }));
    if nm_pattern_valid(mask, shape, n, m, dim) {
        assert forall|i: int, g: int|
            0 <= i < outer && 0 <= g < (inner / m) as int implies kept_in(
                #[trigger] nm_group(mask, shape, dim, m, i, g),
            ) == n by {
            assert(nm_group_ok(mask, shape, n, m, dim, i, g));
        }
    }
    if inner % m == 0 && forall|i: int, g: int|
        0 <= i < outer && 0 <= g < (inner / m) as int ==> kept_in(#[trigger] nm_group(mask, shape, dim, m, i, g))
            == n {
        assert forall|i: int, g: int|
            0 <= i < outer && 0 <= g < (inner / m) as int implies nm_group_ok(mask, shape, n, m, dim, i, g) by {
            assert(kept_in(nm_group(mask, shape, dim, m, i, g)) == n);
        }
    }
}

proof fn lemma_first_bad_group_unique(mask: Seq<bool>, shape: [usize; 2], n: usize, m: usize, dim: usize, i: int, g: int)
    requires
        is_first_bad_group(mask, shape, n, m, dim, i, g),
    ensures
        (choose|i2: int, g2: int| is_first_bad_group(mask, shape, n, m, dim, i2, g2)) == (i, g),
{
    let (ci, cg) = choose|i2: int, g2: int| is_first_bad_group(mask, shape, n, m, dim, i2, g2);
    assert(is_first_bad_group(mask, shape, n, m, dim, ci, cg));
    if ci < i {
        assert(nm_group_ok(mask, shape, n, m, dim, ci, cg));
    } else if i < ci {
        assert(nm_group_ok(mask, shape, n, m, dim, i, g));
    } else if cg < g {
        assert(nm_group_ok(mask, shape, n, m, dim, i, cg));
    } else if g < cg {
        assert(nm_group_ok(mask, shape, n, m, dim, i, g));
    }
}

proof fn lemma_position_in_bounds(a: int, b: int, i: int, j: int)
    by (nonlinear_arith)
    requires
        0 <= i < a,
        0 <= j < b,
    ensures
        0 <= i * b + j < a * b,
{
}

/// Checks that `mask` (row-major, of `shape`) has exactly `n` kept entries
/// in every group of `m` consecutive elements along `dim` (rows for
/// `dim == 0`, columns otherwise), reporting the first group that does not.
pub fn validate_nm_pattern(mask: &[bool], shape: [usize; 2], n: usize, m: usize, dim: usize) -> (r: SparseResult<()>)
    requires
        mask@.len() == shape[0] * shape[1],
        m > 0,
    ensures
        r is Ok <==> nm_pattern_valid(mask@, shape, n, m, dim),
        r is Ok <==> {
            &&& (if dim == 0 { shape[1] } else { shape[0] }) % m == 0
            &&& forall|i: int, g: int|
                0 <= i < (if dim == 0 { shape[0] } else { shape[1] }) && 0 <= g < ((if dim == 0 {
                    shape[1]
                } else {
                    shape[0]
                }) / m) as int ==> kept_in(#[trigger] nm_group(mask@, shape, dim, m, i, g)) == n
        },
        r matches Err(e) ==> e matches SparseError::NInMViolation { details } && details@
            == nm_message(mask@, shape, n, m, dim),
{
    proof {
        lemma_nm_valid_iff_exact_counts(mask@, shape, n, m, dim);
    }
    let (outer, inner) = if dim == 0 {
        (shape[0], shape[1])
    } else {
        (shape[1], shape[0])
    };
    if inner % m != 0 {
        let mut s = String::from_str("Dimension ");
        push_usize_decimal(&mut s, inner);
        s.append(" not aligned to M=");
        push_usize_decimal(&mut s, m);
        s.append(": ");
        push_usize_decimal(&mut s, inner);
        s.append(" % ");
        push_usize_decimal(&mut s, m);
        s.append(" != 0");
        proof {
                    lemma_nm_valid_iff_exact_counts(mask@, shape, n, m, dim);
                }
                return Err(SparseError::NInMViolation { details: s });
    }
    let len = mask.len();
    let ghost groups = (inner / m) as int;
    proof {
        assert(inner == groups * m) by (nonlinear_arith)
            requires
                inner % m == 0,
                m > 0,
                groups == (inner / m) as int,
        ;
    }
    let mut i: usize = 0;
    while i < outer
        invariant
            outer == nm_extents(shape, dim).0,
            inner == nm_extents(shape, dim).1,
            mask@.len() == shape[0] * shape[1],
            len == mask@.len(),
            m > 0,
            inner % m == 0,
            groups == (inner / m) as int,
            inner == groups * m,
            i <= outer,
            forall|i2: int, g2: int|
                0 <= i2 < i && 0 <= g2 < groups ==> nm_group_ok(mask@, shape, n, m, dim, i2, g2),
        decreases outer - i,
    {
        let mut block_start: usize = 0;
        let ghost mut g: int = 0;
        while block_start < inner
            invariant
                outer == nm_extents(shape, dim).0,
            inner == nm_extents(shape, dim).1,
                mask@.len() == shape[0] * shape[1],
                len == mask@.len(),
                inner % m == 0,
                m > 0,
                groups == (inner / m) as int,
                inner == groups * m,
                i < outer,
                0 <= g <= groups,
                block_start == g * m,
                forall|i2: int, g2: int|
                    0 <= i2 < i && 0 <= g2 < groups ==> nm_group_ok(mask@, shape, n, m, dim, i2, g2),
                forall|g2: int| 0 <= g2 < g ==> nm_group_ok(mask@, shape, n, m, dim, i as int, g2),
            decreases inner - block_start,
        {
            proof {
                assert(g < groups);
                assert(block_start + m <= inner) by (nonlinear_arith)
                    requires
                        block_start == g * m,
                        g < groups,
                        inner == groups * m,
                ;
            }
            let block_end = block_start + m;
            let mut count: usize = 0;
            let mut j: usize = block_start;
            while j < block_end
                invariant
                    outer == nm_extents(shape, dim).0,
            inner == nm_extents(shape, dim).1,
                    mask@.len() == shape[0] * shape[1],
                    len == mask@.len(),
                    i < outer,
                    block_start <= j <= block_end,
                    block_end <= inner,
                    block_end == block_start + m,
                    count == nm_count(mask@, shape, dim, i as int, block_start as int, j as int),
                    count <= j - block_start,
                decreases block_end - j,
            {
                let pos = if dim == 0 {
                    proof {
                        lemma_position_in_bounds(shape[0] as int, shape[1] as int, i as int, j as int);
                        assert(i * inner <= i * inner + j);
                    assert(i * inner + j < mask@.len());
                    }
                    i * inner + j
                } else {
                    proof {
                        lemma_position_in_bounds(shape[0] as int, shape[1] as int, j as int, i as int);
                        assert(j * outer <= j * outer + i);
                        assert(j * outer + i < mask@.len());
                    }
                    j * outer + i
                };
                assert(pos == nm_position(shape, dim, i as int, j as int));
                if mask[pos] {
                    count += 1;
                }
                j += 1;
            }
            if count != n {
                proof {
                    assert(count == nm_count(mask@, shape, dim, i as int, g * m, g * m + m));
                    assert(is_first_bad_group(mask@, shape, n, m, dim, i as int, g));
                    lemma_first_bad_group_unique(mask@, shape, n, m, dim, i as int, g);
                }
                let mut s = String::new();
                push_usize_decimal(&mut s, n);
                s.append(":M violation at ");
                let line_name = if dim == 0 { "row" } else { "col" };
                assert(line_name@ == if dim == 0 { "row"@ } else { "col"@ });
                s.append(line_name);
                s.append("=");
                push_usize_decimal(&mut s, i);
                s.append(", block starting at ");
                push_usize_decimal(&mut s, block_start);
                s.append(": found ");
                push_usize_decimal(&mut s, count);
                s.append(" non-zeros, expected ");
                push_usize_decimal(&mut s, n);
                proof {
                    let (ci, cg) = choose|i2: int, g2: int| is_first_bad_group(mask@, shape, n, m, dim, i2, g2);
                    assert(ci == i && cg == g);
                    assert(inner % m == 0);
                    assert(s@ == nm_message(mask@, shape, n, m, dim));
                }
                proof {
                    lemma_nm_valid_iff_exact_counts(mask@, shape, n, m, dim);
                }
                return Err(SparseError::NInMViolation { details: s });
            }
            proof {
                assert(block_end == (g + 1) * m) by (nonlinear_arith)
                    requires
                        block_end == block_start + m,
                        block_start == g * m,
                ;
                g = g + 1;
            }
            block_start = block_end;
        }
        proof {
            assert(g == groups) by (nonlinear_arith)
                requires
                    block_start == g * m,
                    block_start >= inner,
                    inner == groups * m,
                    g <= groups,
                    m > 0,
            ;
        }
        i += 1;
    }
    proof {
        lemma_nm_valid_iff_exact_counts(mask@, shape, n, m, dim);
    }
    Ok(())
}

} // verus!
