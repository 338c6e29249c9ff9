use burn_sparse::experimental::sparseram::error::SparseRAMError;
use burn_sparse::experimental::sparseram::storage::disk::{read_entry, write_entry, ENTRY_BYTES};

#[test]
fn entry_layout_is_little_endian() {
    let mut buf = vec![0u8; 2 * ENTRY_BYTES];
    write_entry(&mut buf, 1, 2, ENTRY_BYTES, 0x0102, 0x0a0b0c, 0x11223344).unwrap();
    assert_eq!(&buf[..20], &[0u8; 20]);
    assert_eq!(&buf[20..28], &[0x02, 0x01, 0, 0, 0, 0, 0, 0]);
    assert_eq!(&buf[28..36], &[0x0c, 0x0b, 0x0a, 0, 0, 0, 0, 0]);
    assert_eq!(&buf[36..40], &[0x44, 0x33, 0x22, 0x11]);
}

#[test]
fn read_gives_back_what_was_written() {
    let mut buf = vec![0u8; 3 * ENTRY_BYTES];
    let value: f32 = -1.5;
    write_entry(&mut buf, 0, 3, ENTRY_BYTES, 7, 9, value.to_bits()).unwrap();
    write_entry(&mut buf, 2, 3, ENTRY_BYTES, u64::MAX, 0, 0.25f32.to_bits()).unwrap();
    let (row, col, bits) = read_entry(&buf, 0, 3, ENTRY_BYTES).unwrap();
    assert_eq!((row, col), (7, 9));
    assert_eq!(f32::from_bits(bits), -1.5);
    assert_eq!(read_entry(&buf, 1, 3, ENTRY_BYTES).unwrap(), (0, 0, 0));
    let (row, col, bits) = read_entry(&buf, 2, 3, ENTRY_BYTES).unwrap();
    assert_eq!((row, col, f32::from_bits(bits)), (u64::MAX, 0, 0.25));
}

#[test]
fn wider_entries_leave_padding_untouched() {
    let mut buf = vec![0xffu8; 2 * 24];
    write_entry(&mut buf, 1, 2, 24, 1, 2, 3).unwrap();
    assert_eq!(&buf[44..48], &[0xff; 4]);
    assert_eq!(read_entry(&buf, 1, 2, 24).unwrap(), (1, 2, 3));
}

#[test]
fn index_past_the_entries_is_refused() {
    let mut buf = vec![0u8; ENTRY_BYTES];
    match write_entry(&mut buf, 1, 1, ENTRY_BYTES, 1, 1, 1) {
        Err(SparseRAMError::ConversionError { reason }) => {
            assert_eq!(reason, "Value index 1 out of bounds")
        }
        other => panic!("unexpected result {:?}", other),
    }
    assert_eq!(buf, vec![0u8; ENTRY_BYTES]);
    match read_entry(&buf, 5, 1, ENTRY_BYTES) {
        Err(SparseRAMError::ConversionError { reason }) => {
            assert_eq!(reason, "Value index 5 out of bounds")
        }
        other => panic!("unexpected result {:?}", other),
    }
}
