//! Decomposition of a matrix into square blocks, and its reconstruction.

use vstd::prelude::*;
use crate::sparse::tensor::{SparseTensor, SparseTensorData};
use crate::sparse::dense::lemma_cell_position;
use crate::sparse::tensor::filled_vec;
use super::block::{Block, BlockData, BlockLocation};
use super::super::error::SparseRAMResult;

verus! {

/// The number of blocks of side `bs` that cover `n` cells.
pub open spec fn blocks_along(n: nat, bs: nat) -> nat {
    ((n + bs - 1) / bs as int) as nat
}

/// The values of block `(br, bc)` of side `bs`, row-major inside the block,
/// over a row-major dense matrix of `shape`: `zero` past the matrix edge.
pub open spec fn block_cells<V>(dense: Seq<V>, shape: [usize; 2], bs: nat, br: int, bc: int, zero: V) -> Seq<V> {
    Seq::new(
        bs * bs,
        |i: int|
            {
                let r = br * bs + i / bs as int;
                let c = bc * bs + i % bs as int;
                if r < shape[0] && c < shape[1] {
                    dense[r * shape[1] + c]
                } else {
                    zero
                }
            },
    )
}

/// The blocks of a dense matrix of `shape`, in row-major block order, each
/// active and without storage yet.
pub open spec fn decomposition<V>(dense: Seq<V>, shape: [usize; 2], bs: usize, zero: V) -> Seq<(Block, Seq<V>)> {
    let nbc = blocks_along(shape[1] as nat, bs as nat);
    let nbr = blocks_along(shape[0] as nat, bs as nat);
    Seq::new(
        nbr * nbc,
        |k: int|
            (
                Block {
                    row: (k / nbc as int) as usize,
                    col: (k % nbc as int) as usize,
                    size: bs,
                    is_active: true,
                    location: BlockLocation::Deleted,
                },
                block_cells(dense, shape, bs as nat, k / nbc as int, k % nbc as int, zero),
            ),
    )
}

/// Every block of a decomposition is active, of the decomposition's side,
/// and has no storage yet.
pub proof fn lemma_decomposition_blocks_active<V>(dense: Seq<V>, shape: [usize; 2], bs: usize, zero: V)
    ensures
        forall|k: int|
            0 <= k < decomposition(dense, shape, bs, zero).len() ==> (#[trigger] decomposition(
                dense,
                shape,
                bs,
                zero,
            )[k]).0.is_active && decomposition(dense, shape, bs, zero)[k].0.size == bs && decomposition(
                dense,
                shape,
                bs,
                zero,
            )[k].0.location == BlockLocation::Deleted,
{
}

/// The blocks with their values, as plain values.
pub open spec fn block_views<V>(blocks: Seq<BlockData<V>>) -> Seq<(Block, Seq<V>)> {
    Seq::new(blocks.len(), |k: int| (blocks[k].block, blocks[k].data@))
}

/// Block `b` of side `bs` covers cell `(r, c)`.
pub open spec fn covers(b: Block, bs: int, r: int, c: int) -> bool {
    &&& b.row * bs <= r < b.row * bs + bs
    &&& b.col * bs <= c < b.col * bs + bs
}

/// The value that the first `k` blocks leave at cell `(r, c)`: that of the
/// last of them that covers the cell, or `zero`.
pub open spec fn last_cover<V>(blocks: Seq<(Block, Seq<V>)>, k: int, bs: int, r: int, c: int, zero: V) -> V
    decreases k,
{
    if k <= 0 {
        zero
    } else if covers(blocks[k - 1].0, bs, r, c) {
        blocks[k - 1].1[(r - blocks[k - 1].0.row * bs) * bs + (c - blocks[k - 1].0.col * bs)]
    } else {
        last_cover(blocks, k - 1, bs, r, c, zero)
    }
}

proof fn lemma_blocks_along(n: nat, bs: nat)
    requires
        bs > 0,
    ensures
        blocks_along(n, bs) * bs >= n,
        blocks_along(n, bs) * bs < n + bs,
        blocks_along(n, bs) <= n,
{
    let q = (n + bs - 1) / bs as int;
    vstd::arithmetic::div_mod::lemma_fundamental_div_mod((n + bs - 1) as int, bs as int);
    let rem = (n + bs - 1) % bs as int;
    assert(bs * q + rem == n + bs - 1);
    assert(0 <= rem < bs);
    assert(q * bs == bs * q) by (nonlinear_arith);
    assert(q <= n) by (nonlinear_arith)
        requires
            bs * q + rem == n + bs - 1,
            0 <= rem,
            bs >= 1,
            q >= 0,
    ;
    assert(q * bs < n + bs) by (nonlinear_arith)
        requires
            bs * q + rem == n + bs - 1,
            0 <= rem,
            q * bs == bs * q,
    ;
    assert(q * bs >= n) by (nonlinear_arith)
        requires
            bs * q + rem == n + bs - 1,
            rem < bs,
            q * bs == bs * q,
    ;
}

/// Extracts block `(block_row, block_col)` of side `block_size` from a
/// row-major dense matrix of `shape`, padding with `zero` past the edge.
pub fn extract_block_from_dense<V: Copy>(
    dense: &Vec<V>,
    shape: [usize; 2],
    block_row: usize,
    block_col: usize,
    block_size: usize,
    zero: V,
) -> (r: SparseRAMResult<BlockData<V>>)
    requires
        dense@.len() == shape[0] * shape[1],
        block_row * block_size + block_size <= usize::MAX,
        block_col * block_size + block_size <= usize::MAX,
        block_size * block_size <= usize::MAX,
    ensures
        r matches Ok(b) && b.block == (Block {
            row: block_row,
            col: block_col,
            size: block_size,
            is_active: true,
            location: BlockLocation::Deleted,
        }) && b.data@ == block_cells(dense@, shape, block_size as nat, block_row as int, block_col as int, zero),
{
    let n_rows = shape[0];
    let n_cols = shape[1];
    let total = dense.len();
    let bs = block_size;
    let row_start = block_row * bs;
    let col_start = block_col * bs;
    let ghost target = block_cells(dense@, shape, bs as nat, block_row as int, block_col as int, zero);
    let mut data: Vec<V> = Vec::with_capacity(bs * bs);
    let mut i: usize = 0;
    while i < bs
        invariant
            i <= bs,
            bs * bs <= usize::MAX,
            row_start == block_row * bs,
            col_start == block_col * bs,
            row_start + bs <= usize::MAX,
            col_start + bs <= usize::MAX,
            n_rows == shape[0],
            n_cols == shape[1],
            dense@.len() == n_rows * n_cols,
            total == n_rows * n_cols,
            target == block_cells(dense@, shape, bs as nat, block_row as int, block_col as int, zero),
            target.len() == bs * bs,
            data@ == target.take(i * bs),
        decreases bs - i,
    {
        let mut j: usize = 0;
        while j < bs
            invariant
                i < bs,
                j <= bs,
                bs * bs <= usize::MAX,
                row_start == block_row * bs,
                col_start == block_col * bs,
                row_start + bs <= usize::MAX,
                col_start + bs <= usize::MAX,
                n_rows == shape[0],
                n_cols == shape[1],
                dense@.len() == n_rows * n_cols,
                total == n_rows * n_cols,
                target == block_cells(dense@, shape, bs as nat, block_row as int, block_col as int, zero),
                target.len() == bs * bs,
                data@ == target.take(i * bs + j),
            decreases bs - j,
        {
            proof {
                lemma_cell_position(i as int, j as int, bs as int, bs as int);
            }
            let r = row_start + i;
            let c = col_start + j;
            let v = if r < n_rows && c < n_cols {
                proof {
                    lemma_cell_position(r as int, c as int, n_rows as int, n_cols as int);
                }
                dense[r * n_cols + c]
            } else {
                zero
            };
            data.push(v);
            proof {
                assert(data@ =~= target.take(i * bs + j + 1));
            }
            j += 1;
        }
        proof {
            assert(i * bs + bs == (i + 1) * bs) by (nonlinear_arith);
        }
        i += 1;
    }
    proof {
        assert(data@ =~= target);
    }
    Ok(BlockData::new(Block::new(block_row, block_col, bs, true), data))
}

/// Splits a row-major dense matrix of `shape` into blocks of side
/// `block_size`, in row-major block order; blocks at the edge are padded
/// with `zero`.
pub fn decompose_dense<V: Copy>(dense: &Vec<V>, shape: [usize; 2], block_size: usize, zero: V) -> (r: SparseRAMResult<
    Vec<BlockData<V>>,
>)
    requires
        dense@.len() == shape[0] * shape[1],
        block_size > 0,
        shape[0] + block_size <= usize::MAX,
        shape[1] + block_size <= usize::MAX,
        block_size * block_size <= usize::MAX,
    ensures
        r matches Ok(blocks) && block_views(blocks@) == decomposition(dense@, shape, block_size, zero),
        r matches Ok(blocks) && forall|k: int|
            0 <= k < blocks@.len() ==> (#[trigger] blocks@[k]).block.is_active && blocks@[k].block.size
                == block_size && blocks@[k].block.location == BlockLocation::Deleted,
{
    let n_rows = shape[0];
    let n_cols = shape[1];
    let bs = block_size;
    let n_block_rows = (n_rows + bs - 1) / bs;
    let n_block_cols = (n_cols + bs - 1) / bs;
    proof {
        lemma_blocks_along(n_rows as nat, bs as nat);
        lemma_blocks_along(n_cols as nat, bs as nat);
    }
    let ghost target = decomposition(dense@, shape, bs, zero);
    let mut blocks: Vec<BlockData<V>> = Vec::new();
    let mut block_row: usize = 0;
    while block_row < n_block_rows
        invariant
            block_row <= n_block_rows,
            n_block_rows == blocks_along(n_rows as nat, bs as nat),
            n_block_cols == blocks_along(n_cols as nat, bs as nat),
            n_block_rows * bs < n_rows + bs,
            n_block_cols * bs < n_cols + bs,
            n_block_rows * bs >= n_rows,
            n_block_cols * bs >= n_cols,
            n_rows == shape[0],
            n_cols == shape[1],
            bs == block_size,
            bs > 0,
            shape[0] + block_size <= usize::MAX,
            shape[1] + block_size <= usize::MAX,
            bs * bs <= usize::MAX,
            dense@.len() == n_rows * n_cols,
            target == decomposition(dense@, shape, bs, zero),
            target.len() == n_block_rows * n_block_cols,
            block_views(blocks@) == target.take(block_row * n_block_cols),
        decreases n_block_rows - block_row,
    {
        let mut block_col: usize = 0;
        while block_col < n_block_cols
            invariant
                block_row < n_block_rows,
                block_col <= n_block_cols,
                n_block_rows == blocks_along(n_rows as nat, bs as nat),
                n_block_cols == blocks_along(n_cols as nat, bs as nat),
                n_block_rows * bs < n_rows + bs,
                n_block_cols * bs < n_cols + bs,
                n_rows == shape[0],
                n_cols == shape[1],
                bs == block_size,
                bs > 0,
                shape[0] + block_size <= usize::MAX,
                shape[1] + block_size <= usize::MAX,
                bs * bs <= usize::MAX,
                dense@.len() == n_rows * n_cols,
                target == decomposition(dense@, shape, bs, zero),
                target.len() == n_block_rows * n_block_cols,
                block_views(blocks@) == target.take(block_row * n_block_cols + block_col),
            decreases n_block_cols - block_col,
        {
            proof {
                assert(block_row * bs + bs <= n_block_rows * bs) by (nonlinear_arith)
                    requires
                        block_row < n_block_rows,
                ;
                assert(block_col * bs + bs <= n_block_cols * bs) by (nonlinear_arith)
                    requires
                        block_col < n_block_cols,
                ;
            }
            let b = match extract_block_from_dense(dense, shape, block_row, block_col, bs, zero) {
                Ok(b) => b,
                Err(e) => {
                    return Err(e);
                },
            };
            let ghost before = blocks@;
            blocks.push(b);
            proof {
                let k = block_row * n_block_cols + block_col;
                lemma_cell_position(block_row as int, block_col as int, n_block_rows as int, n_block_cols as int);
                assert(k + 1 <= target.len());
                assert(block_views(before).len() == before.len());
                assert(target.take(k as int).len() == k);
                assert(before.len() == k);
                assert(blocks@.len() == k + 1);
                assert(block_views(blocks@) =~= target.take(k + 1)) by {
                    assert forall|q: int| 0 <= q < k + 1 implies #[trigger] block_views(blocks@)[q] == target.take(k + 1)[q] by {
                        assert(blocks@ == before.push(b));
                        assert(block_views(before).len() == k);
                        assert(before.len() == k);
                        if q < k {
                            assert(blocks@[q] == before[q]);
                            assert(block_views(blocks@)[q] == block_views(before)[q]);
                            assert(block_views(before)[q] == target.take(k)[q]);
                            assert(target.take(k)[q] == target[q]);
                        } else {
                            assert(blocks@[q] == b);
                            assert(target[k] == (b.block, b.data@));
                        }
                    }
                }
            }
            block_col += 1;
        }
        proof {
            assert(block_row * n_block_cols + n_block_cols == (block_row + 1) * n_block_cols) by (nonlinear_arith);
        }
        block_row += 1;
    }
    proof {
        assert(block_views(blocks@) =~= target);
        lemma_decomposition_blocks_active(dense@, shape, bs, zero);
        assert forall|k: int| 0 <= k < blocks@.len() implies (#[trigger] blocks@[k]).block.is_active
            && blocks@[k].block.size == block_size && blocks@[k].block.location == BlockLocation::Deleted by {
            assert(block_views(blocks@)[k].0 == blocks@[k].block);
        }
    }
    Ok(blocks)
}

/// Splits a sparse tensor into blocks of side `block_size` through its dense
/// form (with `zero` at the cells it does not store).
pub fn decompose_sparse_tensor<V: Copy>(sparse: &SparseTensor<V>, block_size: usize, zero: V) -> (r: SparseRAMResult<
    Vec<BlockData<V>>,
>)
    requires
        sparse.wf(),
        !(sparse.spec_format() is BlockCSR || sparse.spec_format() is NInM),
        sparse.spec_shape()[0] * sparse.spec_shape()[1] <= usize::MAX,
        block_size > 0,
        sparse.spec_shape()[0] + block_size <= usize::MAX,
        sparse.spec_shape()[1] + block_size <= usize::MAX,
        block_size * block_size <= usize::MAX,
    ensures
        r matches Ok(blocks) && (sparse.spec_data() matches SparseTensorData::Mask { values, .. } ==> block_views(
            blocks@,
        ) == decomposition(values@, sparse.spec_shape(), block_size, zero)),
        r matches Ok(blocks) && (!(sparse.spec_data() is Mask) ==> block_views(blocks@) == decomposition(
            crate::sparse::tensor::dense_of(sparse.entries(), sparse.spec_shape(), zero),
            sparse.spec_shape(),
            block_size,
            zero,
        )),
        r matches Ok(blocks) && forall|k: int|
            0 <= k < blocks@.len() ==> (#[trigger] blocks@[k]).block.is_active && blocks@[k].block.size
                == block_size && blocks@[k].block.location == BlockLocation::Deleted,
{
    let dense = sparse.to_dense(zero);
    let shape = sparse.shape();
    proof {
        assert(dense@.len() == shape[0] * shape[1]);
    }
    decompose_dense(&dense, shape, block_size, zero)
}

/// Writes the blocks over a matrix of `shape` that starts as `zero`, in
/// order, each block clipped at the matrix edge; a later block overwrites
/// an earlier one.
pub fn reconstruct_from_blocks<V: Copy>(
    blocks: &Vec<BlockData<V>>,
    shape: [usize; 2],
    block_size: usize,
    zero: V,
) -> (r: SparseRAMResult<Vec<V>>)
    requires
        shape[0] * shape[1] <= usize::MAX,
        forall|k: int|
            0 <= k < blocks@.len() ==> {
                &&& (#[trigger] blocks@[k]).data@.len() == block_size * block_size
                &&& blocks@[k].block.row * block_size + block_size <= usize::MAX
                &&& blocks@[k].block.col * block_size + block_size <= usize::MAX
            },
    ensures
        r matches Ok(out) && out@.len() == shape[0] * shape[1] && forall|row: int, col: int|
            0 <= row < shape[0] && 0 <= col < shape[1] ==> #[trigger] out@[row * shape[1] + col] == last_cover(
                block_views(blocks@),
                blocks@.len() as int,
                block_size as int,
                row,
                col,
                zero,
            ),
{
    let n_rows = shape[0];
    let n_cols = shape[1];
    let bs = block_size;
    let total = n_rows * n_cols;
    let ghost views = block_views(blocks@);
    let mut out = filled_vec(zero, total);
    proof {
        assert forall|row: int, col: int| 0 <= row < n_rows && 0 <= col < n_cols implies #[trigger] out@[row * n_cols
            + col] == last_cover(views, 0, bs as int, row, col, zero) by {
            lemma_cell_position(row, col, n_rows as int, n_cols as int);
        }
    }
    let mut k: usize = 0;
    while k < blocks.len()
        invariant
            k <= blocks@.len(),
            n_rows == shape[0],
            n_cols == shape[1],
            total == n_rows * n_cols,
            total <= usize::MAX,
            bs == block_size,
            views == block_views(blocks@),
            forall|q: int|
                0 <= q < blocks@.len() ==> {
                    &&& (#[trigger] blocks@[q]).data@.len() == bs * bs
                    &&& blocks@[q].block.row * bs + bs <= usize::MAX
                    &&& blocks@[q].block.col * bs + bs <= usize::MAX
                },
            out@.len() == total,
            forall|row: int, col: int|
                0 <= row < n_rows && 0 <= col < n_cols ==> #[trigger] out@[row * n_cols + col] == last_cover(
                    views,
                    k as int,
                    bs as int,
                    row,
                    col,
                    zero,
                ),
        decreases blocks@.len() - k,
    {
        let b = &blocks[k];
        let row_start = b.block.row * bs;
        let col_start = b.block.col * bs;
        let row_end = if row_start + bs < n_rows {
            row_start + bs
        } else {
            n_rows
        };
        let col_end = if col_start + bs < n_cols {
            col_start + bs
        } else {
            n_cols
        };
        let ghost before = out@;
        let dlen = b.data.len();
        if bs > 0 && row_start < n_rows && col_start < n_cols {
            let mut row = row_start;
            while row < row_end
                invariant
                    row_start <= row <= row_end,
                    row_start < row_end,
                    col_start < col_end,
                    row_start == b.block.row * bs,
                    col_start == b.block.col * bs,
                    row_end <= n_rows,
                    row_end <= row_start + bs,
                    col_end <= n_cols,
                    col_end <= col_start + bs,
                    n_rows == shape[0],
                    n_cols == shape[1],
                    total == n_rows * n_cols,
                    total <= usize::MAX,
                    b.data@.len() == bs * bs,
                    dlen == bs * bs,
                    out@.len() == total,
                    forall|r2: int, c2: int|
                        0 <= r2 < n_rows && 0 <= c2 < n_cols ==> #[trigger] out@[r2 * n_cols + c2] == if row_start
                            <= r2 < row && col_start <= c2 < col_end {
                            b.data@[(r2 - row_start) * bs + (c2 - col_start)]
                        } else {
                            before[r2 * n_cols + c2]
                        },
                decreases row_end - row,
            {
                let mut col = col_start;
                while col < col_end
                    invariant
                        row_start <= row < row_end,
                        col_start <= col <= col_end,
                        row_start == b.block.row * bs,
                        col_start == b.block.col * bs,
                        row_end <= n_rows,
                        row_end <= row_start + bs,
                        col_end <= n_cols,
                        col_end <= col_start + bs,
                        n_rows == shape[0],
                        n_cols == shape[1],
                        total == n_rows * n_cols,
                        total <= usize::MAX,
                        b.data@.len() == bs * bs,
                        dlen == bs * bs,
                        out@.len() == total,
                        forall|r2: int, c2: int|
                            0 <= r2 < n_rows && 0 <= c2 < n_cols ==> #[trigger] out@[r2 * n_cols + c2] == if (
                            row_start <= r2 < row && col_start <= c2 < col_end) || (r2 == row && col_start <= c2
                                < col) {
                                b.data@[(r2 - row_start) * bs + (c2 - col_start)]
                            } else {
                                before[r2 * n_cols + c2]
                            },
                    decreases col_end - col,
                {
                    let br = row - row_start;
                    let bc = col - col_start;
                    proof {
                        lemma_cell_position(br as int, bc as int, bs as int, bs as int);
                        lemma_cell_position(row as int, col as int, n_rows as int, n_cols as int);
                    }
                    let v = b.data[br * bs + bc];
                    let pos = row * n_cols + col;
                    let ghost prev = out@;
                    out.set(pos, v);
                    proof {
                        assert forall|r2: int, c2: int| 0 <= r2 < n_rows && 0 <= c2 < n_cols implies #[trigger] out@[r2
                            * n_cols + c2] == if (row_start <= r2 < row && col_start <= c2 < col_end) || (r2 == row
                            && col_start <= c2 < col + 1) {
                            b.data@[(r2 - row_start) * bs + (c2 - col_start)]
                        } else {
                            before[r2 * n_cols + c2]
                        } by {
                            lemma_cell_position(r2, c2, n_rows as int, n_cols as int);
                            if r2 == row && c2 == col {
                            } else {
                                assert(r2 * n_cols + c2 != pos) by (nonlinear_arith)
                                    requires
                                        r2 != row || c2 != col,
                                        pos == row * n_cols + col,
                                        0 <= c2 < n_cols,
                                        0 <= col < n_cols,
                                ;
                                assert(out@[r2 * n_cols + c2] == prev[r2 * n_cols + c2]);
                            }
                        }
                    }
                    col += 1;
                }
                row += 1;
            }
        }
        proof {
            assert forall|r2: int, c2: int| 0 <= r2 < n_rows && 0 <= c2 < n_cols implies #[trigger] out@[r2 * n_cols
                + c2] == last_cover(views, k + 1, bs as int, r2, c2, zero) by {
                assert(views[k as int] == (b.block, b.data@));
                if covers(b.block, bs as int, r2, c2) {
                    assert(row_start <= r2 < row_end && col_start <= c2 < col_end);
                } else {
                    assert(before[r2 * n_cols + c2] == last_cover(views, k as int, bs as int, r2, c2, zero));
                }
            }
        }
        k += 1;
    }
    Ok(out)
}

/// Block row `i / nbc`, column `i % nbc` covers cell `(r, c)` only for the
/// block index of the cell.
proof fn lemma_cover_index(bs: int, nbc: int, i: int, r: int, c: int)
    requires
        bs > 0,
        nbc > 0,
        0 <= i,
        0 <= r,
        0 <= c < nbc * bs,
        (i / nbc) * bs <= r < (i / nbc) * bs + bs,
        (i % nbc) * bs <= c < (i % nbc) * bs + bs,
    ensures
        i == (r / bs) * nbc + c / bs,
{
    vstd::arithmetic::div_mod::lemma_fundamental_div_mod_converse(r, bs, i / nbc, r - (i / nbc) * bs);
    vstd::arithmetic::div_mod::lemma_fundamental_div_mod_converse(c, bs, i % nbc, c - (i % nbc) * bs);
    vstd::arithmetic::div_mod::lemma_fundamental_div_mod(i, nbc);
    assert(nbc * (i / nbc) == (i / nbc) * nbc) by (nonlinear_arith);
}

proof fn lemma_last_cover_skip<V>(blocks: Seq<(Block, Seq<V>)>, j: int, k: int, bs: int, r: int, c: int, zero: V)
    requires
        0 <= j < k <= blocks.len(),
        forall|i: int| j < i < k ==> !covers(#[trigger] blocks[i].0, bs, r, c),
    ensures
        last_cover(blocks, k, bs, r, c, zero) == last_cover(blocks, j + 1, bs, r, c, zero),
    decreases k - j,
{
    if k > j + 1 {
        lemma_last_cover_skip(blocks, j, k - 1, bs, r, c, zero);
    }
}

/// Reconstructing the blocks of a dense matrix gives the matrix back: each
/// cell is written by exactly one block, with the cell's own value.
pub proof fn lemma_reconstruct_decomposition<V>(dense: Seq<V>, shape: [usize; 2], bs: usize, zero: V, r: int, c: int)
    requires
        dense.len() == shape[0] * shape[1],
        bs > 0,
        0 <= r < shape[0],
        0 <= c < shape[1],
    ensures
        ({
            let blocks = decomposition(dense, shape, bs, zero);
            last_cover(blocks, blocks.len() as int, bs as int, r, c, zero) == dense[r * shape[1] + c]
        }),
{
    let b = bs as int;
    let nbr = blocks_along(shape[0] as nat, bs as nat) as int;
    let nbc = blocks_along(shape[1] as nat, bs as nat) as int;
    lemma_blocks_along(shape[0] as nat, bs as nat);
    lemma_blocks_along(shape[1] as nat, bs as nat);
    let blocks = decomposition(dense, shape, bs, zero);
    let br = r / b;
    let bc = c / b;
    vstd::arithmetic::div_mod::lemma_fundamental_div_mod(r, b);
    vstd::arithmetic::div_mod::lemma_fundamental_div_mod(c, b);
    assert(b * br == br * b && b * bc == bc * b) by (nonlinear_arith);
    assert(br < nbr) by (nonlinear_arith)
        requires
            br * b <= r,
            r < shape[0],
            shape[0] <= nbr * b,
            b > 0,
    ;
    assert(bc < nbc) by (nonlinear_arith)
        requires
            bc * b <= c,
            c < shape[1],
            shape[1] <= nbc * b,
            b > 0,
    ;
    let j = br * nbc + bc;
    lemma_cell_position(br, bc, nbr, nbc);
    assert(blocks.len() == nbr * nbc);
    assert forall|i: int| j < i < blocks.len() implies !covers(#[trigger] blocks[i].0, b, r, c) by {
        if covers(blocks[i].0, b, r, c) {
            assert(0 <= i / nbc < nbr) by (nonlinear_arith)
                requires
                    0 <= i < nbr * nbc,
                    nbc > 0,
            ;
            assert(nbr <= shape[0]);
            assert(i % nbc < nbc);
            lemma_cover_index(b, nbc, i, r, c);
        }
    }
    lemma_last_cover_skip(blocks, j, blocks.len() as int, b, r, c, zero);
    let cell = (r % b) * b + c % b;
    lemma_cell_position(r % b, c % b, b, b);
    assert(blocks[j].0.row == br && blocks[j].0.col == bc);
    assert(covers(blocks[j].0, b, r, c));
    assert((r - br * b) * b + (c - bc * b) == cell);
    assert(blocks[j].1[cell] == dense[r * shape[1] + c]);
}

} // verus!
