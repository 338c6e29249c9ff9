use burn_sparse::sparse::error::SparseError;
use burn_sparse::sparse::validate::{validate_coo, validate_csc, validate_csr, validate_nm_pattern};

#[test]
fn valid_csr_passes() {
    let col_indices: Vec<i64> = vec![0, 2, 1];
    let row_pointers: Vec<i64> = vec![0, 2, 3];
    assert!(validate_csr(&[1.0f32, 2.0, 3.0], &col_indices, &row_pointers, [2, 3]).is_ok());
}

fn invalid_reason(r: Result<(), SparseError>) -> String {
    match r {
        Err(SparseError::InvalidTensor { reason }) => reason,
        other => panic!("unexpected result {:?}", other),
    }
}

#[test]
fn pointers_past_the_stored_values_are_reported() {
    let col_indices: Vec<i64> = vec![0, 1];
    let row_pointers: Vec<i64> = vec![0, 5, 2];
    assert_eq!(
        invalid_reason(validate_csr(&[1.0f32, 2.0], &col_indices, &row_pointers, [2, 2])),
        "CSR row_pointers[1] = 5 exceeds values length 2"
    );
    assert_eq!(
        invalid_reason(validate_csc(&[1.0f32, 2.0], &col_indices, &row_pointers, [2, 2])),
        "CSC col_pointers[1] = 5 exceeds values length 2"
    );
}

#[test]
fn earlier_error_is_reported_first() {
    let col_indices: Vec<i64> = vec![0, 0, 2];
    let row_pointers: Vec<i64> = vec![0, 5, 3];
    assert_eq!(
        invalid_reason(validate_csr(&[1.0f32, 2.0, 3.0], &col_indices, &row_pointers, [2, 6])),
        "CSR col_indices not sorted in row 0: col_indices[1] = 0 <= previous 0"
    );
}

#[test]
fn coo_duplicates_are_reported_when_asked() {
    let values = [1.0f32, 2.0];
    let rows: Vec<i64> = vec![0, 0];
    let cols: Vec<i64> = vec![1, 1];
    assert!(validate_coo(&values, &rows, &cols, [2, 2], false).is_ok());
    assert_eq!(
        invalid_reason(validate_coo(&values, &rows, &cols, [2, 2], true)),
        "COO duplicate coordinate (0, 1) at index 1"
    );
    let distinct: Vec<i64> = vec![0, 1];
    assert!(validate_coo(&values, &rows, &distinct, [2, 2], true).is_ok());
}

#[test]
fn coo_bounds_come_before_duplicates() {
    let values = [1.0f32, 2.0];
    let rows: Vec<i64> = vec![0, 0];
    let cols: Vec<i64> = vec![1, 2];
    assert_eq!(
        invalid_reason(validate_coo(&values, &rows, &cols, [2, 2], true)),
        "COO col_indices[1] = 2 out of bounds [0, 2)"
    );
}

fn nm_details(r: Result<(), SparseError>) -> String {
    match r {
        Err(SparseError::NInMViolation { details }) => details,
        other => panic!("unexpected result {:?}", other),
    }
}

#[test]
fn two_of_four_rows_pass() {
    let mask = [true, true, false, false, false, true, false, true];
    assert!(validate_nm_pattern(&mask, [2, 4], 2, 4, 0).is_ok());
}

#[test]
fn group_with_too_few_kept_entries_is_reported() {
    let mask = [true, true, false, false, true, false, false, false];
    assert_eq!(
        nm_details(validate_nm_pattern(&mask, [2, 4], 2, 4, 0)),
        "2:M violation at row=1, block starting at 0: found 1 non-zeros, expected 2"
    );
}

#[test]
fn misaligned_dimension_is_reported() {
    let mask = [true, false, true, false, true, false];
    assert_eq!(
        nm_details(validate_nm_pattern(&mask, [2, 3], 1, 4, 0)),
        "Dimension 3 not aligned to M=4: 3 % 4 != 0"
    );
}

#[test]
fn column_groups_are_checked_down_the_columns() {
    // Columns of a 4 x 2 matrix: column 0 = [t, f, t, f], column 1 = [f, t, f, f].
    let mask = [true, false, false, true, true, false, false, false];
    assert!(validate_nm_pattern(&mask, [4, 2], 2, 4, 1).is_err());
    assert_eq!(
        nm_details(validate_nm_pattern(&mask, [4, 2], 2, 4, 1)),
        "2:M violation at col=1, block starting at 0: found 1 non-zeros, expected 2"
    );
    let good = [true, false, false, true, true, false, false, true];
    assert!(validate_nm_pattern(&good, [4, 2], 2, 4, 1).is_ok());
}
