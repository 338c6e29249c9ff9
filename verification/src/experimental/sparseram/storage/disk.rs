//! The layout of the file that holds pruned values on disk: one fixed-size
//! entry per value, each the row (8 bytes), the column (8 bytes) and the
//! bits of the value (4 bytes), every field least significant byte first.

use vstd::prelude::*;
use crate::text::push_usize_decimal;
use super::super::error::{SparseRAMError, SparseRAMResult};
use super::pruned::index_out_of_bounds;

verus! {

/// The bytes one entry occupies.
pub const ENTRY_BYTES: usize = 20;

/// The `n` low bytes of `x`, least significant first.
pub open spec fn le_bytes(x: u64, n: nat) -> Seq<u8> {
    Seq::new(n, |k: int| (x >> ((8 * k) as u64)) as u8)
}

/// The 64-bit value whose bytes, least significant first, are `b[0..8]`.
pub open spec fn u64_of_le(b: Seq<u8>) -> u64 {
    (b[0] as u64) | ((b[1] as u64) << 8u64) | ((b[2] as u64) << 16u64) | ((b[3] as u64) << 24u64) | ((
    b[4] as u64) << 32u64) | ((b[5] as u64) << 40u64) | ((b[6] as u64) << 48u64) | ((b[7] as u64)
        << 56u64)
}

/// The 32-bit value whose bytes, least significant first, are `b[0..4]`.
pub open spec fn u32_of_le(b: Seq<u8>) -> u32 {
    (b[0] as u32) | ((b[1] as u32) << 8u32) | ((b[2] as u32) << 16u32) | ((b[3] as u32) << 24u32)
}

/// The bytes of the entry `(row, col, value_bits)`.
pub open spec fn entry_bytes(row: u64, col: u64, value_bits: u32) -> Seq<u8> {
    le_bytes(row, 8) + le_bytes(col, 8) + le_bytes(value_bits as u64, 4)
}

/// The entry `(row, col, value_bits)` that the bytes `b[0..20]` hold.
pub open spec fn entry_of(b: Seq<u8>) -> (u64, u64, u32) {
    (u64_of_le(b.subrange(0, 8)), u64_of_le(b.subrange(8, 16)), u32_of_le(b.subrange(16, 20)))
}

/// The buffer with the entry `(row, col, value_bits)` written at `offset`.
pub open spec fn with_entry(buf: Seq<u8>, offset: int, row: u64, col: u64, value_bits: u32) -> Seq<u8> {
    buf.subrange(0, offset) + entry_bytes(row, col, value_bits) + buf.subrange(
        offset + ENTRY_BYTES,
        buf.len() as int,
    )
}

/// The entry that the buffer holds at `offset`.
pub open spec fn entry_at(buf: Seq<u8>, offset: int) -> (u64, u64, u32) {
    entry_of(buf.subrange(offset, offset + ENTRY_BYTES))
}

/// Whether the entry of `index` fits in a buffer of `len` bytes laid out
/// with `entry_size_bytes` bytes per entry.
pub open spec fn entry_fits(index: nat, entry_size_bytes: nat, len: nat) -> bool {
    index * entry_size_bytes + ENTRY_BYTES <= len
}

/// Writes the `n` low bytes of `x`, least significant first, at `offset`.
fn put_le(buf: &mut [u8], offset: usize, x: u64, n: usize)
    requires
        n <= 8,
        offset + n <= old(buf)@.len(),
    ensures
        final(buf)@ == old(buf)@.subrange(0, offset as int) + le_bytes(x, n as nat) + old(buf)@.subrange(
            offset + n,
            old(buf)@.len() as int,
        ),
{
    let ghost orig = buf@;
    let mut k: usize = 0;
    while k < n
        invariant
            k <= n,
            orig.len() == buf.len(),
            n <= 8,
            offset + n <= orig.len(),
            buf@.len() == orig.len(),
            forall|i: int| 0 <= i < offset ==> #[trigger] buf@[i] == orig[i],
            forall|i: int| offset + k <= i < orig.len() ==> #[trigger] buf@[i] == orig[i],
            forall|j: int| 0 <= j < k ==> #[trigger] buf@[offset + j] == le_bytes(x, n as nat)[j],
        decreases n - k,
    {
        let shift: u64 = 8 * (k as u64);
        buf[offset + k] = (x >> shift) as u8;
        k += 1;
    }
    assert(buf@ =~= orig.subrange(0, offset as int) + le_bytes(x, n as nat) + orig.subrange(
        offset + n,
        orig.len() as int,
    )) by {
        let rhs = orig.subrange(0, offset as int) + le_bytes(x, n as nat) + orig.subrange(
            offset + n,
            orig.len() as int,
        );
        assert forall|i: int| 0 <= i < orig.len() implies buf@[i] == rhs[i] by {
            if offset <= i < offset + n {
                assert(buf@[offset + (i - offset)] == le_bytes(x, n as nat)[i - offset]);
            }
        }
    }
}

/// Writes the entry `(row, col, value_bits)` of `index` into a buffer laid
/// out with `entry_size_bytes` bytes per entry, of which there are
/// `num_values`. An index past them is refused and the buffer left as it is.
pub fn write_entry(
    buf: &mut [u8],
    index: usize,
    num_values: usize,
    entry_size_bytes: usize,
    row: u64,
    col: u64,
    value_bits: u32,
) -> (r: SparseRAMResult<()>)
    requires
        index < num_values ==> entry_fits(index as nat, entry_size_bytes as nat, old(buf)@.len()),
    ensures
        index < num_values ==> r is Ok && final(buf)@ == with_entry(
            old(buf)@,
            index * entry_size_bytes,
            row,
            col,
            value_bits,
        ),
        index >= num_values ==> (r matches Err(SparseRAMError::ConversionError { reason }) && reason@
            == index_out_of_bounds(index)),
        index >= num_values ==> final(buf)@ == old(buf)@,
{
    if index >= num_values {
        let mut reason = String::from_str("Value index ");
        push_usize_decimal(&mut reason, index);
        reason.append(" out of bounds");
        return Err(SparseRAMError::ConversionError { reason });
    }
    let ghost orig = buf@;
    proof {
        assert(orig.len() == buf.len());
        assert(index * entry_size_bytes <= orig.len()) by (nonlinear_arith)
            requires
                index * entry_size_bytes + ENTRY_BYTES <= orig.len(),
        ;
    }
    let offset = index * entry_size_bytes;
    put_le(buf, offset, row, 8);
    put_le(buf, offset + 8, col, 8);
    put_le(buf, offset + 16, value_bits as u64, 4);
    proof {
        let o = offset as int;
        assert(buf@ =~= with_entry(orig, o, row, col, value_bits));
    }
    Ok(())
}

/// The 64-bit value stored least significant byte first at `offset`.
fn get_u64(buf: &[u8], offset: usize) -> (r: u64)
    requires
        offset + 8 <= buf@.len(),
    ensures
        r == u64_of_le(buf@.subrange(offset as int, offset + 8)),
{
    (buf[offset] as u64) | ((buf[offset + 1] as u64) << 8u64) | ((buf[offset + 2] as u64) << 16u64)
        | ((buf[offset + 3] as u64) << 24u64) | ((buf[offset + 4] as u64) << 32u64) | ((buf[offset
        + 5] as u64) << 40u64) | ((buf[offset + 6] as u64) << 48u64) | ((buf[offset + 7] as u64)
        << 56u64)
}

/// The 32-bit value stored least significant byte first at `offset`.
fn get_u32(buf: &[u8], offset: usize) -> (r: u32)
    requires
        offset + 4 <= buf@.len(),
    ensures
        r == u32_of_le(buf@.subrange(offset as int, offset + 4)),
{
    (buf[offset] as u32) | ((buf[offset + 1] as u32) << 8u32) | ((buf[offset + 2] as u32) << 16u32)
        | ((buf[offset + 3] as u32) << 24u32)
}

/// Reads the entry `(row, col, value_bits)` of `index` from a buffer laid
/// out with `entry_size_bytes` bytes per entry, of which there are
/// `num_values`. An index past them is refused.
pub fn read_entry(buf: &[u8], index: usize, num_values: usize, entry_size_bytes: usize) -> (r:
    SparseRAMResult<(u64, u64, u32)>)
    requires
        index < num_values ==> entry_fits(index as nat, entry_size_bytes as nat, buf@.len()),
    ensures
        index < num_values ==> r == Ok::<(u64, u64, u32), SparseRAMError>(
            entry_at(buf@, index * entry_size_bytes),
        ),
        index >= num_values ==> (r matches Err(SparseRAMError::ConversionError { reason }) && reason@
            == index_out_of_bounds(index)),
{
    if index >= num_values {
        let mut reason = String::from_str("Value index ");
        push_usize_decimal(&mut reason, index);
        reason.append(" out of bounds");
        return Err(SparseRAMError::ConversionError { reason });
    }
    proof {
        assert(buf@.len() == buf.len());
        assert(index * entry_size_bytes <= buf@.len()) by (nonlinear_arith)
            requires
                index * entry_size_bytes + ENTRY_BYTES <= buf@.len(),
        ;
    }
    let offset = index * entry_size_bytes;
    let row = get_u64(buf, offset);
    let col = get_u64(buf, offset + 8);
    let value_bits = get_u32(buf, offset + 16);
    proof {
        let e = buf@.subrange(offset as int, offset + ENTRY_BYTES);
        assert(e.subrange(0, 8) =~= buf@.subrange(offset as int, offset + 8));
        assert(e.subrange(8, 16) =~= buf@.subrange(offset + 8, offset + 16));
        assert(e.subrange(16, 20) =~= buf@.subrange(offset + 16, offset + 20));
    }
    Ok((row, col, value_bits))
}

/// Decoding the bytes of an entry gives the entry back.
pub proof fn lemma_entry_round_trip(row: u64, col: u64, value_bits: u32)
    ensures
        entry_of(entry_bytes(row, col, value_bits)) == (row, col, value_bits),
{
    let b = entry_bytes(row, col, value_bits);
    assert(b.subrange(0, 8) =~= le_bytes(row, 8));
    assert(b.subrange(8, 16) =~= le_bytes(col, 8));
    assert(b.subrange(16, 20) =~= le_bytes(value_bits as u64, 4));
    lemma_u64_round_trip(row);
    lemma_u64_round_trip(col);
    lemma_u32_round_trip(value_bits);
}

proof fn lemma_u64_round_trip(x: u64)
    ensures
        u64_of_le(le_bytes(x, 8)) == x,
{
    let b = le_bytes(x, 8);
    assert(b[0] == (x >> 0u64) as u8);
    assert(b[1] == (x >> 8u64) as u8);
    assert(b[2] == (x >> 16u64) as u8);
    assert(b[3] == (x >> 24u64) as u8);
    assert(b[4] == (x >> 32u64) as u8);
    assert(b[5] == (x >> 40u64) as u8);
    assert(b[6] == (x >> 48u64) as u8);
    assert(b[7] == (x >> 56u64) as u8);
    assert((((x >> 0u64) as u8) as u64) | ((((x >> 8u64) as u8) as u64) << 8u64) | ((((x >> 16u64) as u8) as u64)
        << 16u64) | ((((x >> 24u64) as u8) as u64) << 24u64) | ((((x >> 32u64) as u8) as u64) << 32u64)
        | ((((x >> 40u64) as u8) as u64) << 40u64) | ((((x >> 48u64) as u8) as u64) << 48u64) | ((((x
        >> 56u64) as u8) as u64) << 56u64) == x) by (bit_vector);
}

proof fn lemma_u32_round_trip(x: u32)
    ensures
        u32_of_le(le_bytes(x as u64, 4)) == x,
{
    let y = x as u64;
    let b = le_bytes(y, 4);
    assert(b[0] == (y >> 0u64) as u8);
    assert(b[1] == (y >> 8u64) as u8);
    assert(b[2] == (y >> 16u64) as u8);
    assert(b[3] == (y >> 24u64) as u8);
    assert((((y >> 0u64) as u8) as u32) | ((((y >> 8u64) as u8) as u32) << 8u32) | ((((y >> 16u64) as u8) as u32)
        << 16u32) | ((((y >> 24u64) as u8) as u32) << 24u32) == x) by (bit_vector)
        requires
            y == x as u64,
    ;
}

/// Reading an entry back after writing it gives what was written, and
/// writing an entry leaves every other entry of the buffer as it was,
/// provided entries do not overlap.
pub proof fn lemma_read_after_write(
    buf: Seq<u8>,
    index: nat,
    other: nat,
    entry_size_bytes: nat,
    row: u64,
    col: u64,
    value_bits: u32,
)
    requires
        entry_size_bytes >= ENTRY_BYTES,
        entry_fits(index, entry_size_bytes, buf.len()),
        entry_fits(other, entry_size_bytes, buf.len()),
    ensures
        entry_at(
            with_entry(buf, (index * entry_size_bytes) as int, row, col, value_bits),
            (index * entry_size_bytes) as int,
        ) == (row, col, value_bits),
        other != index ==> entry_at(
            with_entry(buf, (index * entry_size_bytes) as int, row, col, value_bits),
            (other * entry_size_bytes) as int,
        ) == entry_at(buf, (other * entry_size_bytes) as int),
{
    let o = index * entry_size_bytes;
    let p = other * entry_size_bytes;
    let w = with_entry(buf, o as int, row, col, value_bits);
    assert(o <= buf.len()) by (nonlinear_arith)
        requires
            index * entry_size_bytes + ENTRY_BYTES <= buf.len(),
            o == index * entry_size_bytes,
    ;
    assert(w.subrange(o as int, o + ENTRY_BYTES) =~= entry_bytes(row, col, value_bits));
    lemma_entry_round_trip(row, col, value_bits);
    if other != index {
        assert(p + ENTRY_BYTES <= o || o + ENTRY_BYTES <= p) by (nonlinear_arith)
            requires
                other != index,
                entry_size_bytes >= ENTRY_BYTES,
                o == index * entry_size_bytes,
                p == other * entry_size_bytes,
        {
            if other < index {
                assert(other * entry_size_bytes + entry_size_bytes <= index * entry_size_bytes);
            } else {
                assert(index * entry_size_bytes + entry_size_bytes <= other * entry_size_bytes);
            }
        }
        assert(w.subrange(p as int, p + ENTRY_BYTES) =~= buf.subrange(p as int, p + ENTRY_BYTES));
    }
}

} // verus!
