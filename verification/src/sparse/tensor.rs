//! Sparse tensors over plain values.
//!
//! A `SparseTensor<V>` holds a matrix in one of the sparse formats, with
//! values of type `V` and indices as `i64`. Its meaning is the map of its
//! stored entries, from coordinates `(row, col)` to values.

use vstd::prelude::*;
use super::format::{SparseFormat, valid_block_size, valid_nm};
use super::validate::{compressed_valid, ptr_at, coo_valid, coo_entry_ok, validate_csr, validate_csc, validate_coo};
use super::error::SparseResult;

verus! {

/// Format-specific storage of a sparse tensor.
#[derive(Debug, Clone)]
pub enum SparseTensorData<V> {
    /// Boolean mask with dense values (zero where the mask is false), both row-major
    Mask { mask: Vec<bool>, values: Vec<V> },
    /// Compressed sparse row
    CSR { values: Vec<V>, col_indices: Vec<i64>, row_pointers: Vec<i64> },
    /// Compressed sparse column
    CSC { values: Vec<V>, row_indices: Vec<i64>, col_pointers: Vec<i64> },
    /// Coordinate list
    COO { values: Vec<V>, row_indices: Vec<i64>, col_indices: Vec<i64> },
    /// Block-sparse CSR: dense blocks of `block_size * block_size` values, flattened
    BlockCSR {
        blocks: Vec<V>,
        block_col_indices: Vec<i64>,
        block_row_pointers: Vec<i64>,
        block_size: usize,
    },
    /// N:M structured sparsity: packed values and the metadata of which N of M are kept
    NInM { values: Vec<V>, metadata: Vec<i64>, n: usize, m: usize },
}

/// A sparse matrix of `shape` in one of the sparse formats.
#[derive(Debug, Clone)]
pub struct SparseTensor<V> {
    format: SparseFormat,
    shape: [usize; 2],
    data: SparseTensorData<V>,
}

/// Position `k` of a CSR structure stores the entry at `(r, c)`.
pub open spec fn csr_holds(col_indices: Seq<i64>, row_pointers: Seq<i64>, r: int, c: int, k: int) -> bool {
    &&& ptr_at(row_pointers, r) <= k < ptr_at(row_pointers, r + 1)
    &&& col_indices[k] == c
}

/// The entries stored by a CSR structure of `shape`.
pub open spec fn csr_entries<V>(
    values: Seq<V>,
    col_indices: Seq<i64>,
    row_pointers: Seq<i64>,
    shape: [usize; 2],
) -> Map<(int, int), V> {
    Map::new(
        |rc: (int, int)|
            0 <= rc.0 < shape[0] && 0 <= rc.1 < shape[1] && exists|k: int|
                csr_holds(col_indices, row_pointers, rc.0, rc.1, k),
        |rc: (int, int)| values[choose|k: int| csr_holds(col_indices, row_pointers, rc.0, rc.1, k)],
    )
}

/// The entries of a row-major mask over dense values: the kept positions.
pub open spec fn masked_entries<V>(mask: Seq<bool>, values: Seq<V>, shape: [usize; 2]) -> Map<(int, int), V> {
    Map::new(
        |rc: (int, int)|
            0 <= rc.0 < shape[0] && 0 <= rc.1 < shape[1] && mask[rc.0 * shape[1] + rc.1],
        |rc: (int, int)| values[rc.0 * shape[1] + rc.1],
    )
}

/// The row-major dense matrix of `shape` holding `entries`, and `zero`
/// elsewhere.
pub open spec fn dense_of<V>(entries: Map<(int, int), V>, shape: [usize; 2], zero: V) -> Seq<V> {
    Seq::new(
        (shape[0] * shape[1]) as nat,
        |p: int|
            if entries.contains_key((p / shape[1] as int, p % shape[1] as int)) {
                entries[(p / shape[1] as int, p % shape[1] as int)]
            } else {
                zero
            },
    )
}

/// Position `k` of a CSC structure stores the entry at `(r, c)`.
pub open spec fn csc_holds(row_indices: Seq<i64>, col_pointers: Seq<i64>, r: int, c: int, k: int) -> bool {
    &&& ptr_at(col_pointers, c) <= k < ptr_at(col_pointers, c + 1)
    &&& row_indices[k] == r
}

/// The entries stored by a CSC structure of `shape`.
pub open spec fn csc_entries<V>(
    values: Seq<V>,
    row_indices: Seq<i64>,
    col_pointers: Seq<i64>,
    shape: [usize; 2],
) -> Map<(int, int), V> {
    Map::new(
        |rc: (int, int)|
            0 <= rc.0 < shape[0] && 0 <= rc.1 < shape[1] && exists|k: int|
                csc_holds(row_indices, col_pointers, rc.0, rc.1, k),
        |rc: (int, int)| values[choose|k: int| csc_holds(row_indices, col_pointers, rc.0, rc.1, k)],
    )
}

/// Position `k` of a coordinate list stores `(r, c)` and no later position does.
pub open spec fn coo_last_holds(row_indices: Seq<i64>, col_indices: Seq<i64>, nnz: int, r: int, c: int, k: int) -> bool {
    &&& 0 <= k < nnz
    &&& row_indices[k] == r
    &&& col_indices[k] == c
    &&& forall|k2: int| k < k2 < nnz ==> !(row_indices[k2] == r && col_indices[k2] == c)
}

/// The entries stored by a coordinate list; of repeated coordinates, the
/// last one counts.
pub open spec fn coo_entries<V>(values: Seq<V>, row_indices: Seq<i64>, col_indices: Seq<i64>) -> Map<
    (int, int),
    V,
> {
    Map::new(
        |rc: (int, int)|
            exists|k: int| coo_last_holds(row_indices, col_indices, values.len() as int, rc.0, rc.1, k),
        |rc: (int, int)|
            values[choose|k: int|
                coo_last_holds(row_indices, col_indices, values.len() as int, rc.0, rc.1, k)],
    )
}

/// The number of `true` entries.
pub open spec fn count_true(s: Seq<bool>) -> nat
    decreases s.len(),
{
    if s.len() == 0 {
        0
    } else {
        count_true(s.drop_last()) + if s.last() {
            1nat
        } else {
            0nat
        }
    }
}

/// Counts the kept positions of a mask.
pub fn count_kept(mask: &Vec<bool>) -> (r: usize)
    ensures
        r == count_true(mask@),
{
    let mut count: usize = 0;
    let mut i: usize = 0;
    while i < mask.len()
        invariant
            i <= mask@.len(),
            count == count_true(mask@.take(i as int)),
            count <= i,
        decreases mask@.len() - i,
    {
        proof {
            assert(mask@.take(i + 1).drop_last() =~= mask@.take(i as int));
        }
        if mask[i] {
            count += 1;
        }
        i += 1;
    }
    proof {
        assert(mask@.take(mask@.len() as int) =~= mask@);
    }
    count
}

/// A copy of a vector of copyable values.
pub fn copy_vec<V: Copy>(v: &Vec<V>) -> (r: Vec<V>)
    ensures
        r@ == v@,
{
    let mut r: Vec<V> = Vec::with_capacity(v.len());
    let mut i: usize = 0;
    while i < v.len()
        invariant
            i <= v@.len(),
            r@ == v@.take(i as int),
        decreases v@.len() - i,
    {
        r.push(v[i]);
        proof {
            assert(r@ =~= v@.take(i + 1));
        }
        i += 1;
    }
    proof {
        assert(v@.take(v@.len() as int) =~= v@);
    }
    r
}

/// `n` copies of `x`.
pub fn filled_vec<T: Copy>(x: T, n: usize) -> (r: Vec<T>)
    ensures
        r@ == Seq::new(n as nat, |i: int| x),
{
    let mut r: Vec<T> = Vec::with_capacity(n);
    let mut i: usize = 0;
    while i < n
        invariant
            i <= n,
            r@ == Seq::new(i as nat, |j: int| x),
        decreases n - i,
    {
        r.push(x);
        proof {
            assert(r@ =~= Seq::new((i + 1) as nat, |j: int| x));
        }
        i += 1;
    }
    r
}

proof fn lemma_ceil_div(n: int, b: int)
    requires
        0 <= n,
        0 < b,
    ensures
        (n + b - 1) / b == n / b + if n % b == 0 {
            0int
        } else {
            1int
        },
{
    let q = n / b;
    let r = n % b;
    vstd::arithmetic::div_mod::lemma_fundamental_div_mod(n, b);
    assert(b * q == q * b) by (nonlinear_arith);
    if r == 0 {
        vstd::arithmetic::div_mod::lemma_fundamental_div_mod_converse(n + b - 1, b, q, b - 1);
    } else {
        assert((q + 1) * b == q * b + b) by (nonlinear_arith);
        vstd::arithmetic::div_mod::lemma_fundamental_div_mod_converse(n + b - 1, b, q + 1, r - 1);
    }
}

/// The dense values kept by `keep`, with `zero` at the other positions.
pub open spec fn kept_values<V>(dense: Seq<V>, keep: Seq<bool>, zero: V) -> Seq<V> {
    Seq::new(dense.len(), |i: int| if keep[i] { dense[i] } else { zero })
}

/// The storage that `from_dense` builds for mask, block-CSR and N:M formats.
pub open spec fn from_dense_storage<V>(
    data: SparseTensorData<V>,
    dense: Seq<V>,
    keep: Seq<bool>,
    shape: [usize; 2],
    format: SparseFormat,
    zero: V,
) -> bool {
    let total = shape[0] * shape[1];
    match (format, data) {
        (SparseFormat::Mask, SparseTensorData::Mask { mask, values }) => mask@ == keep && values@ == kept_values(
            dense,
            keep,
            zero,
        ),
        (
            SparseFormat::BlockCSR { block_size: bs },
            SparseTensorData::BlockCSR { blocks, block_col_indices, block_row_pointers, block_size },
        ) => block_size == bs && blocks@.len() == 0 && block_col_indices@.len() == 0 && block_row_pointers@
            == Seq::new(((shape[0] + bs - 1) / bs as int + 1) as nat, |i: int| 0i64),
        (SparseFormat::NInM { n: n0, m: m0 }, SparseTensorData::NInM { values, metadata, n, m }) => n == n0 && m
            == m0 && values@ == Seq::new(((total / m as int) * n) as nat, |i: int| zero) && metadata@ == Seq::new(
            (total / m as int) as nat,
            |i: int| 0i64,
        ),
        _ => false,
    }
}

/// Two storages of the same variant hold equal contents.
pub open spec fn same_storage<V>(a: SparseTensorData<V>, b: SparseTensorData<V>) -> bool {
    match (a, b) {
        (SparseTensorData::Mask { mask: m1, values: v1 }, SparseTensorData::Mask { mask: m2, values: v2 }) =>
            m1@ == m2@ && v1@ == v2@,
        (
            SparseTensorData::CSR { values: v1, col_indices: c1, row_pointers: p1 },
            SparseTensorData::CSR { values: v2, col_indices: c2, row_pointers: p2 },
        ) => v1@ == v2@ && c1@ == c2@ && p1@ == p2@,
        (
            SparseTensorData::CSC { values: v1, row_indices: r1, col_pointers: p1 },
            SparseTensorData::CSC { values: v2, row_indices: r2, col_pointers: p2 },
        ) => v1@ == v2@ && r1@ == r2@ && p1@ == p2@,
        (
            SparseTensorData::COO { values: v1, row_indices: r1, col_indices: c1 },
            SparseTensorData::COO { values: v2, row_indices: r2, col_indices: c2 },
        ) => v1@ == v2@ && r1@ == r2@ && c1@ == c2@,
        (
            SparseTensorData::BlockCSR {
                blocks: b1,
                block_col_indices: c1,
                block_row_pointers: p1,
                block_size: s1,
            },
            SparseTensorData::BlockCSR {
                blocks: b2,
                block_col_indices: c2,
                block_row_pointers: p2,
                block_size: s2,
            },
        ) => b1@ == b2@ && c1@ == c2@ && p1@ == p2@ && s1 == s2,
        (
            SparseTensorData::NInM { values: v1, metadata: d1, n: n1, m: m1 },
            SparseTensorData::NInM { values: v2, metadata: d2, n: n2, m: m2 },
        ) => v1@ == v2@ && d1@ == d2@ && n1 == n2 && m1 == m2,
        _ => false,
    }
}

/// The values a storage holds: the dense values of a mask, the stored values
/// of CSR, CSC, COO and N:M, the blocks of block CSR.
pub open spec fn stored_values<V>(data: SparseTensorData<V>) -> Seq<V> {
    match data {
        SparseTensorData::Mask { values, .. } => values@,
        SparseTensorData::CSR { values, .. } => values@,
        SparseTensorData::CSC { values, .. } => values@,
        SparseTensorData::COO { values, .. } => values@,
        SparseTensorData::BlockCSR { blocks, .. } => blocks@,
        SparseTensorData::NInM { values, .. } => values@,
    }
}

/// Two storages of the same variant agree on everything but their stored
/// values.
pub open spec fn same_structure<V>(a: SparseTensorData<V>, b: SparseTensorData<V>) -> bool {
    match (a, b) {
        (SparseTensorData::Mask { mask: m1, .. }, SparseTensorData::Mask { mask: m2, .. }) => m1@ == m2@,
        (
            SparseTensorData::CSR { col_indices: c1, row_pointers: p1, .. },
            SparseTensorData::CSR { col_indices: c2, row_pointers: p2, .. },
        ) => c1@ == c2@ && p1@ == p2@,
        (
            SparseTensorData::CSC { row_indices: r1, col_pointers: p1, .. },
            SparseTensorData::CSC { row_indices: r2, col_pointers: p2, .. },
        ) => r1@ == r2@ && p1@ == p2@,
        (
            SparseTensorData::COO { row_indices: r1, col_indices: c1, .. },
            SparseTensorData::COO { row_indices: r2, col_indices: c2, .. },
        ) => r1@ == r2@ && c1@ == c2@,
        (
            SparseTensorData::BlockCSR { block_col_indices: c1, block_row_pointers: p1, block_size: s1, .. },
            SparseTensorData::BlockCSR { block_col_indices: c2, block_row_pointers: p2, block_size: s2, .. },
        ) => c1@ == c2@ && p1@ == p2@ && s1 == s2,
        (
            SparseTensorData::NInM { metadata: d1, n: n1, m: m1, .. },
            SparseTensorData::NInM { metadata: d2, n: n2, m: m2, .. },
        ) => d1@ == d2@ && n1 == n2 && m1 == m2,
        _ => false,
    }
}

impl<V> SparseTensor<V> {
    /// The stored entries, from coordinates to values, of a tensor in mask,
    /// CSR, CSC or COO format.
    pub open spec fn entries(&self) -> Map<(int, int), V> {
        match self.spec_data() {
            SparseTensorData::Mask { mask, values } => masked_entries(mask@, values@, self.spec_shape()),
            SparseTensorData::CSR { values, col_indices, row_pointers } => csr_entries(
                values@,
                col_indices@,
                row_pointers@,
                self.spec_shape(),
            ),
            SparseTensorData::CSC { values, row_indices, col_pointers } => csc_entries(
                values@,
                row_indices@,
                col_pointers@,
                self.spec_shape(),
            ),
            SparseTensorData::COO { values, row_indices, col_indices } => coo_entries(
                values@,
                row_indices@,
                col_indices@,
            ),
            _ => Map::empty(),
        }
    }

    /// The storage format.
    pub closed spec fn spec_format(&self) -> SparseFormat {
        self.format
    }

    /// The shape `[n_rows, n_cols]`.
    pub closed spec fn spec_shape(&self) -> [usize; 2] {
        self.shape
    }

    /// The format-specific storage.
    pub closed spec fn spec_data(&self) -> SparseTensorData<V> {
        self.data
    }

    /// The storage agrees with the format and shape, and CSR, CSC and COO
    /// storage is structurally valid.
    pub open spec fn wf(&self) -> bool {
        let shape = self.spec_shape();
        match self.spec_data() {
            SparseTensorData::Mask { mask, values } => {
                &&& self.spec_format() == SparseFormat::Mask
                &&& mask@.len() == shape[0] * shape[1]
                &&& values@.len() == shape[0] * shape[1]
            },
            SparseTensorData::CSR { values, col_indices, row_pointers } => {
                &&& self.spec_format() == SparseFormat::CSR
                &&& shape[0] < usize::MAX
                &&& compressed_valid(values@.len() as usize, col_indices@, row_pointers@, shape[0], shape[1])
            },
            SparseTensorData::CSC { values, row_indices, col_pointers } => {
                &&& self.spec_format() == SparseFormat::CSC
                &&& shape[1] < usize::MAX
                &&& compressed_valid(values@.len() as usize, row_indices@, col_pointers@, shape[1], shape[0])
            },
            SparseTensorData::COO { values, row_indices, col_indices } => {
                &&& self.spec_format() == SparseFormat::COO
                &&& coo_valid(values@.len() as usize, row_indices@, col_indices@, shape)
            },
            SparseTensorData::BlockCSR { block_size, .. } => {
                &&& self.spec_format() == (SparseFormat::BlockCSR { block_size })
                &&& valid_block_size(block_size)
            },
            SparseTensorData::NInM { n, m, .. } => {
                &&& self.spec_format() == (SparseFormat::NInM { n, m })
                &&& valid_nm(n, m)
                &&& shape[0] * shape[1] <= usize::MAX
            },
        }
    }

    /// The number of stored entries: the kept positions of a mask, the
    /// stored values of CSR, CSC and COO, the cells of the stored blocks of
    /// block-CSR, and `n` per group of `m` for N:M.
    pub open spec fn spec_nnz(&self) -> nat {
        let shape = self.spec_shape();
        match self.spec_data() {
            SparseTensorData::Mask { mask, .. } => count_true(mask@),
            SparseTensorData::CSR { values, .. } => values@.len(),
            SparseTensorData::CSC { values, .. } => values@.len(),
            SparseTensorData::COO { values, .. } => values@.len(),
            SparseTensorData::BlockCSR { blocks, block_size, .. } => ((blocks@.len() / (block_size
                * block_size) as nat) * block_size * block_size) as nat,
            SparseTensorData::NInM { n, m, .. } => (((shape[0] * shape[1]) as nat / m as nat) * n) as nat,
        }
    }

    /// The number of stored entries.
    pub fn nnz(&self) -> (r: usize)
        requires
            self.wf(),
        ensures
            r == self.spec_nnz(),
    {
        match &self.data {
            SparseTensorData::Mask { mask, .. } => count_kept(mask),
            SparseTensorData::CSR { values, .. } => values.len(),
            SparseTensorData::CSC { values, .. } => values.len(),
            SparseTensorData::COO { values, .. } => values.len(),
            SparseTensorData::BlockCSR { blocks, block_size, .. } => {
                let bs = *block_size;
                assert(valid_block_size(bs));
                assert(16 <= bs * bs <= 128 * 128) by (nonlinear_arith)
                    requires
                        4 <= bs <= 128,
                ;
                let cells = bs * bs;
                let n_blocks = blocks.len() / cells;
                proof {
                    assert(n_blocks * cells <= blocks@.len()) by (nonlinear_arith)
                        requires
                            n_blocks == blocks@.len() / (cells as nat),
                            cells > 0,
                    ;
                    assert(n_blocks * bs * bs == n_blocks * cells) by (nonlinear_arith)
                        requires
                            cells == bs * bs,
                    ;
                }
                n_blocks * cells
            },
            SparseTensorData::NInM { n, m, .. } => {
                let total = self.shape[0] * self.shape[1];
                let n_groups = total / *m;
                proof {
                    assert(n_groups * *n <= n_groups * *m) by (nonlinear_arith)
                        requires
                            *n <= *m,
                    ;
                    assert(n_groups * *m <= total) by (nonlinear_arith)
                        requires
                            n_groups == total / *m,
                            *m > 0,
                    ;
                }
                n_groups * *n
            },
        }
    }

    /// A CSR tensor of `shape` from its three arrays, which must form a
    /// valid CSR structure.
    pub fn from_csr(values: Vec<V>, col_indices: Vec<i64>, row_pointers: Vec<i64>, shape: [usize; 2]) -> (t: Self)
        requires
            shape[0] < usize::MAX,
            compressed_valid(values@.len() as usize, col_indices@, row_pointers@, shape[0], shape[1]),
        ensures
            t.wf(),
            t.spec_format() == SparseFormat::CSR,
            t.spec_shape() == shape,
            t.spec_data() == (SparseTensorData::CSR { values, col_indices, row_pointers }),
    {
        SparseTensor {
            format: SparseFormat::CSR,
            shape,
            data: SparseTensorData::CSR { values, col_indices, row_pointers },
        }
    }

    /// A tensor of `format` from a row-major dense matrix of `shape` and the
    /// positions to keep. Mask storage keeps the kept values and puts `zero`
    /// at the others; CSR, CSC and COO storage hold exactly the kept cells.
    /// Block and N:M storage, whose contents no operation of the library
    /// reads, are built empty of stored entries.
    pub fn from_dense(dense: &Vec<V>, keep: &Vec<bool>, shape: [usize; 2], format: SparseFormat, zero: V) -> (t: Self)
        where
            V: Copy,
        requires
            dense@.len() == shape[0] * shape[1],
            keep@.len() == shape[0] * shape[1],
            format == SparseFormat::CSR ==> shape[0] < usize::MAX,
            format == SparseFormat::CSC ==> shape[1] < usize::MAX,
            format matches SparseFormat::BlockCSR { block_size } ==> valid_block_size(block_size),
            format matches SparseFormat::NInM { n, m } ==> valid_nm(n, m),
            format == SparseFormat::CSR || format == SparseFormat::CSC || format == SparseFormat::COO ==> shape[0]
                * shape[1] <= i64::MAX,
        ensures
            t.wf(),
            t.spec_format() == format,
            t.spec_shape() == shape,
            !(format is BlockCSR || format is NInM) ==> t.entries() == masked_entries(keep@, dense@, shape),
            format is Mask || format is BlockCSR || format is NInM ==> from_dense_storage(
                t.spec_data(),
                dense@,
                keep@,
                shape,
                format,
                zero,
            ),
    {
        let n_rows = shape[0];
        let n_cols = shape[1];
        let data = match format {
            SparseFormat::Mask => {
                let mut values: Vec<V> = Vec::with_capacity(dense.len());
                let mut i: usize = 0;
                while i < dense.len()
                    invariant
                        i <= dense@.len(),
                        keep@.len() == dense@.len(),
                        values@ == kept_values(dense@, keep@, zero).take(i as int),
                    decreases dense@.len() - i,
                {
                    let v = if keep[i] {
                        dense[i]
                    } else {
                        zero
                    };
                    values.push(v);
                    proof {
                        assert(values@ =~= kept_values(dense@, keep@, zero).take(i + 1));
                    }
                    i += 1;
                }
                proof {
                    assert(kept_values(dense@, keep@, zero).take(dense@.len() as int) =~= kept_values(
                        dense@,
                        keep@,
                        zero,
                    ));
                }
                proof {
                    assert(masked_entries(keep@, values@, shape) =~= masked_entries(keep@, dense@, shape)) by {
                        assert forall|rc: (int, int)| #[trigger] masked_entries(keep@, values@, shape).contains_key(rc)
                            implies values@[rc.0 * shape[1] + rc.1] == dense@[rc.0 * shape[1] + rc.1] by {
                            crate::sparse::dense::lemma_cell_position(rc.0, rc.1, shape[0] as int, shape[1] as int);
                        }
                    }
                }
                SparseTensorData::Mask { mask: copy_vec(keep), values }
            },
            SparseFormat::CSR => {
                return crate::sparse::convert::mask_to_csr(keep.as_slice(), dense.as_slice(), shape).unwrap();
            },
            SparseFormat::CSC => {
                return csc_from_dense(dense, keep, shape);
            },
            SparseFormat::COO => {
                return coo_from_dense(dense, keep, shape);
            },
            SparseFormat::BlockCSR { block_size } => {
                proof {
                    assert(n_rows / block_size <= n_rows / 4) by (nonlinear_arith)
                        requires
                            block_size >= 4,
                            n_rows >= 0,
                    ;
                    assert(n_rows / 4 + 2 < usize::MAX) by (nonlinear_arith)
                        requires
                            n_rows <= usize::MAX,
                            usize::MAX >= 0xffff_ffff,
                    ;
                }
                let n_block_rows = n_rows / block_size + if n_rows % block_size == 0 {
                    0
                } else {
                    1
                };
                proof {
                    lemma_ceil_div(n_rows as int, block_size as int);
                    assert(n_block_rows <= n_rows) by (nonlinear_arith)
                        requires
                            block_size >= 4,
                            n_block_rows == n_rows / block_size + if n_rows % block_size == 0 {
                                0int
                            } else {
                                1int
                            },
                    ;
                }
                SparseTensorData::BlockCSR {
                    blocks: Vec::new(),
                    block_col_indices: Vec::new(),
                    block_row_pointers: filled_vec(0i64, n_block_rows + 1),
                    block_size,
                }
            },
            SparseFormat::NInM { n, m } => {
                let total = dense.len();
                let n_groups = total / m;
                proof {
                    assert(n_groups * n <= total) by (nonlinear_arith)
                        requires
                            n_groups == total / m,
                            0 < n <= m,
                    ;
                }
                SparseTensorData::NInM { values: filled_vec(zero, n_groups * n), metadata: filled_vec(0i64, n_groups), n, m }
            },
        };
        SparseTensor { format, shape, data }
    }

    /// A copy of the tensor.
    pub fn copy(&self) -> (r: Self)
        where
            V: Copy,
        ensures
            r.spec_format() == self.spec_format(),
            r.spec_shape() == self.spec_shape(),
            same_storage(r.spec_data(), self.spec_data()),
            self.wf() ==> r.wf(),
            r.entries() == self.entries(),
            r.spec_nnz() == self.spec_nnz(),
    {
        let data = match &self.data {
            SparseTensorData::Mask { mask, values } => SparseTensorData::Mask {
                mask: copy_vec(mask),
                values: copy_vec(values),
            },
            SparseTensorData::CSR { values, col_indices, row_pointers } => SparseTensorData::CSR {
                values: copy_vec(values),
                col_indices: copy_vec(col_indices),
                row_pointers: copy_vec(row_pointers),
            },
            SparseTensorData::CSC { values, row_indices, col_pointers } => SparseTensorData::CSC {
                values: copy_vec(values),
                row_indices: copy_vec(row_indices),
                col_pointers: copy_vec(col_pointers),
            },
            SparseTensorData::COO { values, row_indices, col_indices } => SparseTensorData::COO {
                values: copy_vec(values),
                row_indices: copy_vec(row_indices),
                col_indices: copy_vec(col_indices),
            },
            SparseTensorData::BlockCSR { blocks, block_col_indices, block_row_pointers, block_size } =>
                SparseTensorData::BlockCSR {
                blocks: copy_vec(blocks),
                block_col_indices: copy_vec(block_col_indices),
                block_row_pointers: copy_vec(block_row_pointers),
                block_size: *block_size,
            },
            SparseTensorData::NInM { values, metadata, n, m } => SparseTensorData::NInM {
                values: copy_vec(values),
                metadata: copy_vec(metadata),
                n: *n,
                m: *m,
            },
        };
        SparseTensor { format: self.format, shape: self.shape, data }
    }

    /// The storage format.
    pub fn format(&self) -> (f: SparseFormat)
        ensures
            f == self.spec_format(),
    {
        self.format
    }

    /// The shape `[n_rows, n_cols]`.
    pub fn shape(&self) -> (s: [usize; 2])
        ensures
            s == self.spec_shape(),
    {
        self.shape
    }

    /// The format-specific storage.
    pub fn data(&self) -> (d: &SparseTensorData<V>)
        ensures
            *d == self.spec_data(),
    {
        &self.data
    }

    /// The values the tensor stores (see `stored_values`).
    pub fn stored_values(&self) -> (r: &Vec<V>)
        ensures
            r@ == stored_values(self.spec_data()),
    {
        match &self.data {
            SparseTensorData::Mask { values, .. } => values,
            SparseTensorData::CSR { values, .. } => values,
            SparseTensorData::CSC { values, .. } => values,
            SparseTensorData::COO { values, .. } => values,
            SparseTensorData::BlockCSR { blocks, .. } => blocks,
            SparseTensorData::NInM { values, .. } => values,
        }
    }

    /// The tensor with its stored values replaced by `values`, of the same
    /// number; format, shape and structure stay.
    pub fn with_stored_values(self, values: Vec<V>) -> (r: Self)
        requires
            self.wf(),
            values@.len() == stored_values(self.spec_data()).len(),
        ensures
            r.wf(),
            r.spec_format() == self.spec_format(),
            r.spec_shape() == self.spec_shape(),
            same_structure(r.spec_data(), self.spec_data()),
            stored_values(r.spec_data()) == values@,
            r.entries().dom() == self.entries().dom(),
    {
        let SparseTensor { format, shape, data } = self;
        let data = match data {
            SparseTensorData::Mask { mask, .. } => SparseTensorData::Mask { mask, values },
            SparseTensorData::CSR { col_indices, row_pointers, .. } => SparseTensorData::CSR {
                values,
                col_indices,
                row_pointers,
            },
            SparseTensorData::CSC { row_indices, col_pointers, .. } => SparseTensorData::CSC {
                values,
                row_indices,
                col_pointers,
            },
            SparseTensorData::COO { row_indices, col_indices, .. } => SparseTensorData::COO {
                values,
                row_indices,
                col_indices,
            },
            SparseTensorData::BlockCSR { block_col_indices, block_row_pointers, block_size, .. } =>
                SparseTensorData::BlockCSR { blocks: values, block_col_indices, block_row_pointers, block_size },
            SparseTensorData::NInM { metadata, n, m, .. } => SparseTensorData::NInM { values, metadata, n, m },
        };
        let r = SparseTensor { format, shape, data };
        proof {
            assert(r.entries().dom() =~= self.entries().dom());
        }
        r
    }
}

/// The row-major position of entry `k` of a coordinate list.
spec fn coo_pos(rows: Seq<i64>, cols: Seq<i64>, n_cols: int, k: int) -> int {
    rows[k] * n_cols + cols[k]
}

/// The coordinate list holds, in increasing position, exactly the kept
/// cells before position `p`, with their dense values.
spec fn coo_lists_kept<V>(
    rows: Seq<i64>,
    cols: Seq<i64>,
    vals: Seq<V>,
    keep: Seq<bool>,
    dense: Seq<V>,
    shape: [usize; 2],
    p: int,
) -> bool {
    let n_cols = shape[1] as int;
    &&& rows.len() == vals.len()
    &&& cols.len() == vals.len()
    &&& forall|k: int|
        0 <= k < vals.len() ==> {
            &&& 0 <= #[trigger] rows[k] < shape[0]
            &&& 0 <= cols[k] < shape[1]
            &&& coo_pos(rows, cols, n_cols, k) < p
            &&& keep[coo_pos(rows, cols, n_cols, k)]
            &&& vals[k] == dense[coo_pos(rows, cols, n_cols, k)]
        }
    &&& forall|k1: int, k2: int|
        0 <= k1 < k2 < vals.len() ==> coo_pos(rows, cols, n_cols, k1) < coo_pos(rows, cols, n_cols, k2)
    &&& forall|q: int|
        0 <= q < p && #[trigger] keep[q] ==> exists|k: int| 0 <= k < vals.len() && coo_pos(rows, cols, n_cols, k) == q
}

/// The coordinate list of the kept cells of a row-major dense matrix, in
/// row-major order.
fn coo_from_dense<V: Copy>(dense: &Vec<V>, keep: &Vec<bool>, shape: [usize; 2]) -> (t: SparseTensor<V>)
    requires
        dense@.len() == shape[0] * shape[1],
        keep@.len() == shape[0] * shape[1],
        shape[0] * shape[1] <= i64::MAX,
    ensures
        t.wf(),
        t.spec_format() == SparseFormat::COO,
        t.spec_shape() == shape,
        t.entries() == masked_entries(keep@, dense@, shape),
{
    let n_cols = shape[1];
    let total = dense.len();
    let mut rows: Vec<i64> = Vec::new();
    let mut cols: Vec<i64> = Vec::new();
    let mut vals: Vec<V> = Vec::new();
    let mut p: usize = 0;
    while p < total
        invariant
            p <= total,
            total == shape[0] * shape[1],
            n_cols == shape[1],
            total <= i64::MAX,
            dense@.len() == total,
            keep@.len() == total,
            coo_lists_kept(rows@, cols@, vals@, keep@, dense@, shape, p as int),
        decreases total - p,
    {
        if keep[p] {
            proof {
                if n_cols == 0 {
                    assert(shape[0] * shape[1] == 0) by (nonlinear_arith)
                        requires
                            shape[1] == 0,
                    ;
                }
                crate::sparse::dense::lemma_position_cell(p as int, shape[0] as int, n_cols as int);
            }
            let r = p / n_cols;
            let c = p % n_cols;
            let ghost r0 = rows@;
            let ghost c0 = cols@;
            let ghost v0 = vals@;
            rows.push(r as i64);
            cols.push(c as i64);
            vals.push(dense[p]);
            proof {
                let m = v0.len() as int;
                assert(coo_pos(rows@, cols@, n_cols as int, m) == p);
                assert forall|k: int| 0 <= k < m implies rows@[k] == r0[k] && cols@[k] == c0[k] && vals@[k]
                    == v0[k] && #[trigger] coo_pos(rows@, cols@, n_cols as int, k) == coo_pos(r0, c0, n_cols as int, k) by {
                }
                assert forall|q: int| 0 <= q < p + 1 && #[trigger] keep@[q] implies exists|k: int|
                    0 <= k < vals@.len() && coo_pos(rows@, cols@, n_cols as int, k) == q by {
                    if q < p {
                        let k = choose|k: int| 0 <= k < v0.len() && coo_pos(r0, c0, n_cols as int, k) == q;
                        assert(coo_pos(rows@, cols@, n_cols as int, k) == q);
                    } else {
                        assert(coo_pos(rows@, cols@, n_cols as int, m) == q);
                    }
                }
                assert forall|k1: int, k2: int| 0 <= k1 < k2 < vals@.len() implies coo_pos(
                    rows@,
                    cols@,
                    n_cols as int,
                    k1,
                ) < coo_pos(rows@, cols@, n_cols as int, k2) by {
                    if k2 < m {
                        assert(coo_pos(r0, c0, n_cols as int, k1) < coo_pos(r0, c0, n_cols as int, k2));
                    } else {
                        assert(coo_pos(r0, c0, n_cols as int, k1) < p);
                    }
                }
                assert forall|k: int| 0 <= k < vals@.len() implies {
                    &&& 0 <= #[trigger] rows@[k] < shape[0]
                    &&& 0 <= cols@[k] < shape[1]
                    &&& coo_pos(rows@, cols@, n_cols as int, k) < p + 1
                    &&& keep@[coo_pos(rows@, cols@, n_cols as int, k)]
                    &&& vals@[k] == dense@[coo_pos(rows@, cols@, n_cols as int, k)]
                } by {
                    if k < m {
                        assert(0 <= r0[k] < shape[0]);
                    }
                }
            }
        } else {
            proof {
                assert forall|q: int| 0 <= q < p + 1 && #[trigger] keep@[q] implies exists|k: int|
                    0 <= k < vals@.len() && coo_pos(rows@, cols@, n_cols as int, k) == q by {
                    assert(q < p);
                }
            }
        }
        p += 1;
    }
    let nnz = vals.len();
    let ghost target = masked_entries(keep@, dense@, shape);
    let ghost got = coo_entries(vals@, rows@, cols@);
    proof {
        let nc = n_cols as int;
        assert forall|rc: (int, int)| got.contains_key(rc) <==> target.contains_key(rc) by {
            if got.contains_key(rc) {
                let k = choose|k: int| coo_last_holds(rows@, cols@, vals@.len() as int, rc.0, rc.1, k);
                assert(0 <= rows@[k] < shape[0]);
            }
            if target.contains_key(rc) {
                let q = rc.0 * nc + rc.1;
                crate::sparse::dense::lemma_cell_position(rc.0, rc.1, shape[0] as int, nc);
                assert(keep@[q]);
                let k = choose|k: int| 0 <= k < vals@.len() && coo_pos(rows@, cols@, nc, k) == q;
                assert(0 <= rows@[k] < shape[0]);
                crate::sparse::dense::lemma_cell_position(rows@[k] as int, cols@[k] as int, shape[0] as int, nc);
                assert(rows@[k] == rc.0 && cols@[k] == rc.1);
                assert forall|k2: int| k < k2 < vals@.len() implies !(rows@[k2] == rc.0 && cols@[k2] == rc.1) by {
                    assert(coo_pos(rows@, cols@, nc, k) < coo_pos(rows@, cols@, nc, k2));
                }
                assert(coo_last_holds(rows@, cols@, vals@.len() as int, rc.0, rc.1, k));
            }
        }
        assert forall|rc: (int, int)| got.contains_key(rc) implies got[rc] == target[rc] by {
            let k = choose|k: int| coo_last_holds(rows@, cols@, vals@.len() as int, rc.0, rc.1, k);
            assert(0 <= rows@[k] < shape[0]);
        }
        assert(got =~= target);
        assert forall|i: int| 0 <= i < vals@.len() implies coo_entry_ok(rows@, cols@, shape, i) by {
            assert(0 <= rows@[i] < shape[0]);
            assert(0 <= cols@[i] < shape[1]);
            assert(shape[0] <= shape[0] * shape[1] && shape[1] <= shape[0] * shape[1]) by (nonlinear_arith)
                requires
                    shape[0] > 0,
                    shape[1] > 0,
            ;
        }
        assert(coo_valid(nnz, rows@, cols@, shape));
    }
    SparseTensor { format: SparseFormat::COO, shape, data: SparseTensorData::COO { values: vals, row_indices: rows, col_indices: cols } }
}

/// The row-major entries of the transpose of a row-major matrix of `shape`.
spec fn transposed<T>(s: Seq<T>, shape: [usize; 2]) -> Seq<T> {
    let rows = shape[0] as int;
    let cols = shape[1] as int;
    Seq::new((rows * cols) as nat, |j: int| s[(j % rows) * cols + j / rows])
}

/// A row-major matrix of `shape` transposed, kept cells and values alike.
fn transpose_cells<T: Copy>(s: &Vec<T>, shape: [usize; 2]) -> (t: Vec<T>)
    requires
        s@.len() == shape[0] * shape[1],
    ensures
        t@ == transposed(s@, shape),
{
    let rows = shape[0];
    let cols = shape[1];
    let total = s.len();
    let mut t: Vec<T> = Vec::with_capacity(total);
    let mut j: usize = 0;
    while j < total
        invariant
            j <= total,
            total == rows * cols,
            rows == shape[0],
            cols == shape[1],
            s@.len() == total,
            t@ == transposed(s@, shape).take(j as int),
        decreases total - j,
    {
        proof {
            assert(rows > 0) by {
                if rows == 0 {
                    assert(rows * cols == 0) by (nonlinear_arith)
                        requires
                            rows == 0,
                    ;
                }
            }
            assert(j < cols * rows) by (nonlinear_arith)
                requires
                    j < rows * cols,
            ;
            crate::sparse::dense::lemma_position_cell(j as int, cols as int, rows as int);
            crate::sparse::dense::lemma_cell_position((j % rows) as int, (j / rows) as int, rows as int, cols as int);
        }
        let at = (j % rows) * cols + j / rows;
        t.push(s[at]);
        proof {
            assert(t@ =~= transposed(s@, shape).take(j + 1));
        }
        j += 1;
    }
    proof {
        assert(transposed(s@, shape).take(total as int) =~= transposed(s@, shape));
    }
    t
}

/// The CSC storage of the kept cells of a row-major dense matrix: the CSR
/// storage of its transpose.
fn csc_from_dense<V: Copy>(dense: &Vec<V>, keep: &Vec<bool>, shape: [usize; 2]) -> (t: SparseTensor<V>)
    requires
        dense@.len() == shape[0] * shape[1],
        keep@.len() == shape[0] * shape[1],
        shape[1] < usize::MAX,
        shape[0] * shape[1] <= i64::MAX,
    ensures
        t.wf(),
        t.spec_format() == SparseFormat::CSC,
        t.spec_shape() == shape,
        t.entries() == masked_entries(keep@, dense@, shape),
{
    let rows = shape[0];
    let cols = shape[1];
    let kt = transpose_cells(keep, shape);
    let dt = transpose_cells(dense, shape);
    proof {
        assert(cols * rows == rows * cols) by (nonlinear_arith);
    }
    let csr = crate::sparse::convert::mask_to_csr(kt.as_slice(), dt.as_slice(), [cols, rows]).unwrap();
    let data = match csr.data {
        SparseTensorData::CSR { values, col_indices, row_pointers } => SparseTensorData::CSC {
            values,
            row_indices: col_indices,
            col_pointers: row_pointers,
        },
        _ => {
            proof {
                assert(false);
            }
            SparseTensorData::CSC { values: Vec::new(), row_indices: Vec::new(), col_pointers: Vec::new() }
        },
    };
    let t = SparseTensor { format: SparseFormat::CSC, shape, data };
    proof {
        let tshape = [cols, rows];
        let (v, ri, cp) = (stored_values(data), data->CSC_row_indices@, data->CSC_col_pointers@);
        assert(csr.entries() == csr_entries(v, ri, cp, tshape));
        let target = masked_entries(keep@, dense@, shape);
        let got = t.entries();
        let nnz = v.len() as usize;
        assert(compressed_valid(nnz, ri, cp, cols, rows));
        assert forall|rc: (int, int)| got.contains_key(rc) <==> target.contains_key(rc) by {
            if 0 <= rc.0 < rows && 0 <= rc.1 < cols {
                crate::sparse::dense::lemma_cell_position(rc.1, rc.0, cols as int, rows as int);
                crate::sparse::dense::lemma_cell_position(rc.0, rc.1, rows as int, cols as int);
                assert(csr.entries().contains_key((rc.1, rc.0)) == kt@[rc.1 * rows + rc.0]);
                if got.contains_key(rc) {
                    let k = choose|k: int| csc_holds(ri, cp, rc.0, rc.1, k);
                    assert(csr_holds(ri, cp, rc.1, rc.0, k));
                }
                if csr.entries().contains_key((rc.1, rc.0)) {
                    let k = choose|k: int| csr_holds(ri, cp, rc.1, rc.0, k);
                    assert(csc_holds(ri, cp, rc.0, rc.1, k));
                }
            }
        }
        assert forall|rc: (int, int)| got.contains_key(rc) implies got[rc] == target[rc] by {
            crate::sparse::dense::lemma_cell_position(rc.1, rc.0, cols as int, rows as int);
            crate::sparse::dense::lemma_cell_position(rc.0, rc.1, rows as int, cols as int);
            let k1 = choose|k: int| csc_holds(ri, cp, rc.0, rc.1, k);
            assert(csr_holds(ri, cp, rc.1, rc.0, k1));
            let k2 = choose|k: int| csr_holds(ri, cp, rc.1, rc.0, k);
            assert(csr.entries().contains_key((rc.1, rc.0)));
            assert(csr.entries()[(rc.1, rc.0)] == dt@[rc.1 * rows + rc.0]);
            assert(crate::sparse::validate::line_ok(cp, ri, nnz, rows, rc.1));
            if k1 < k2 {
                crate::sparse::dense::lemma_line_strict(cp, ri, nnz, rows, rc.1, k1, k2);
            } else if k2 < k1 {
                crate::sparse::dense::lemma_line_strict(cp, ri, nnz, rows, rc.1, k2, k1);
            }
        }
        assert(got =~= target);
    }
    t
}

/// Checks the structure of a tensor: CSR, CSC and COO storage are validated,
/// mask, block-CSR and N:M storage have nothing more to check. Every tensor
/// built by this library passes.
pub fn validate_sparse_tensor<V>(tensor: &SparseTensor<V>) -> (r: SparseResult<()>)
    requires
        tensor.wf(),
    ensures
        r is Ok,
{
    let shape = tensor.shape();
    match tensor.data() {
        SparseTensorData::Mask { .. } => Ok(()),
        SparseTensorData::CSR { values, col_indices, row_pointers } => {
            validate_csr(values.as_slice(), col_indices.as_slice(), row_pointers.as_slice(), shape)
        },
        SparseTensorData::CSC { values, row_indices, col_pointers } => {
            validate_csc(values.as_slice(), row_indices.as_slice(), col_pointers.as_slice(), shape)
        },
        SparseTensorData::COO { values, row_indices, col_indices } => validate_coo(
            values.as_slice(),
            row_indices.as_slice(),
            col_indices.as_slice(),
            shape,
            false,
        ),
        SparseTensorData::BlockCSR { .. } => Ok(()),
        SparseTensorData::NInM { .. } => Ok(()),
    }
}

} // verus!
