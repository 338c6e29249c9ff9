use burn_sparse::sparse::format::SparseFormat;

#[test]
fn test_block_size_validation() {
    assert!(SparseFormat::validate_block_size(16).is_ok());
    assert!(SparseFormat::validate_block_size(32).is_ok());
    assert!(SparseFormat::validate_block_size(3).is_err()); // Not power of 2
    assert!(SparseFormat::validate_block_size(256).is_err()); // Too large
}

#[test]
fn test_nm_validation() {
    assert!(SparseFormat::validate_nm(2, 4).is_ok());
    assert!(SparseFormat::validate_nm(4, 8).is_ok());
    assert!(SparseFormat::validate_nm(5, 3).is_err()); // N > M
    assert!(SparseFormat::validate_nm(0, 4).is_err()); // N = 0
}

#[test]
fn test_format_validation() {
    assert!(SparseFormat::validate_block_size(16).is_ok());
    assert!(SparseFormat::validate_nm(2, 4).is_ok());
}

#[test]
fn block_size_messages_name_the_violation() {
    assert_eq!(
        SparseFormat::validate_block_size(3).unwrap_err(),
        "Block size must be power of 2, got 3"
    );
    assert_eq!(
        SparseFormat::validate_block_size(256).unwrap_err(),
        "Block size must be in [4, 128], got 256"
    );
    assert_eq!(
        SparseFormat::validate_block_size(2).unwrap_err(),
        "Block size must be in [4, 128], got 2"
    );
    assert!(SparseFormat::validate_block_size(4).is_ok());
    assert!(SparseFormat::validate_block_size(128).is_ok());
}

#[test]
fn structured_formats() {
    assert!(SparseFormat::NInM { n: 2, m: 4 }.is_structured());
    assert!(!SparseFormat::CSR.is_structured());
    assert!(SparseFormat::CSR.is_unstructured());
    assert!(SparseFormat::COO.is_unstructured());
    assert!(SparseFormat::Mask.is_unstructured());
    assert!(SparseFormat::BlockCSR { block_size: 16 }.is_unstructured());
    assert!(!SparseFormat::NInM { n: 2, m: 4 }.is_unstructured());
}

#[test]
fn format_names() {
    assert_eq!(SparseFormat::CSR.to_string(), "CSR");
    assert_eq!(SparseFormat::BlockCSR { block_size: 16 }.to_string(), "BlockCSR(16)");
    assert_eq!(SparseFormat::NInM { n: 2, m: 4 }.to_string(), "2:4");
}

#[test]
fn block_sizes_must_be_powers_of_two_in_range() {
    for size in [4usize, 8, 16, 32, 64, 128] {
        assert!(SparseFormat::validate_block_size(size).is_ok(), "{} should be accepted", size);
    }
    for size in [0usize, 1, 2, 5, 6, 12, 24, 96, 100, 127, 256] {
        assert!(SparseFormat::validate_block_size(size).is_err(), "{} should be refused", size);
    }
}
