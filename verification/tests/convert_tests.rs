use burn_sparse::sparse::convert::{coo_to_csr, convert_format, csc_to_csr, mask_to_csr, to_dense};
use burn_sparse::sparse::dense::{coo_to_dense, csc_to_dense, csr_to_dense};
use burn_sparse::sparse::error::SparseError;
use burn_sparse::sparse::format::SparseFormat;
use burn_sparse::sparse::mask::SparseMask;
use burn_sparse::sparse::reorder::{expand_pointers, place_by_row, sort_region};
use burn_sparse::sparse::tensor::{SparseTensor, SparseTensorData, validate_sparse_tensor};
use burn_sparse::sparse::validate::validate_csr;

fn csr_parts(t: &SparseTensor<f32>) -> (Vec<f32>, Vec<i64>, Vec<i64>) {
    match t.data() {
        SparseTensorData::CSR { values, col_indices, row_pointers } => {
            (values.clone(), col_indices.clone(), row_pointers.clone())
        }
        _ => panic!("Expected CSR format"),
    }
}

#[test]
fn test_mask_to_csr_conversion() {
    let dense: Vec<f32> = vec![1.0, 0.0, 2.0, 0.0, 3.0, 0.0, 4.0, 0.0, 5.0];
    let mask = vec![true, false, true, false, true, false, true, false, true];

    let csr = mask_to_csr(&mask, &dense, [3, 3]).unwrap();

    assert_eq!(csr.format(), SparseFormat::CSR);
    assert_eq!(csr.shape(), [3, 3]);
    assert_eq!(csr.nnz(), 5);

    let (vals, cols, ptrs) = csr_parts(&csr);
    assert_eq!(vals, vec![1.0, 2.0, 3.0, 4.0, 5.0]);
    assert_eq!(cols, vec![0, 2, 1, 0, 2]);
    assert_eq!(ptrs, vec![0, 2, 3, 5]);
}

#[test]
fn test_mask_to_csr_empty_rows() {
    let dense: Vec<f32> = vec![1.0, 2.0, 0.0, 0.0, 3.0, 4.0];
    let mask = vec![true, true, false, false, true, true];

    let csr = mask_to_csr(&mask, &dense, [3, 2]).unwrap();

    assert_eq!(csr.nnz(), 4);
    let (_, _, ptrs) = csr_parts(&csr);
    assert_eq!(ptrs, vec![0, 2, 2, 4]);
}

#[test]
fn test_from_mask() {
    let weights: Vec<f32> = vec![1.0, 2.0, 3.0, 4.0, 5.0, 6.0];
    let mask = SparseMask::from_tensor(vec![true, false, true, true, true, false], [2, 3]);

    let sparse = SparseTensor::from_mask(&mask, &weights, [2, 3]).unwrap();

    assert_eq!(sparse.format(), SparseFormat::CSR);
    assert_eq!(sparse.shape(), [2, 3]);
    assert_eq!(sparse.nnz(), 4);

    let (vals, cols, ptrs) = csr_parts(&sparse);
    assert_eq!(vals, vec![1.0, 3.0, 4.0, 5.0]);
    assert_eq!(cols, vec![0, 2, 0, 1]);
    assert_eq!(ptrs, vec![0, 2, 4]);
}

#[test]
fn from_mask_rejects_other_shape() {
    let weights: Vec<f32> = vec![1.0, 2.0, 3.0, 4.0, 5.0, 6.0];
    let mask = SparseMask::from_tensor(vec![true, false, true, true, true, false], [2, 3]);
    match SparseTensor::from_mask(&mask, &weights, [3, 2]) {
        Err(SparseError::InvalidTensor { reason }) => {
            assert_eq!(reason, "Mask shape [2, 3] doesn't match weights shape [3, 2]");
        }
        _ => panic!("Expected InvalidTensor"),
    }
}

#[test]
fn test_validate_csr_valid() {
    let values = [1.0f32, 2.0];
    let col_indices = [0i64, 1];
    let row_pointers = [0i64, 1, 2];
    assert!(validate_csr(&values, &col_indices, &row_pointers, [2, 2]).is_ok());
}

#[test]
fn test_validate_csr_unsorted() {
    let values = [1.0f32, 2.0];
    let col_indices = [1i64, 0];
    let row_pointers = [0i64, 2];
    assert!(validate_csr(&values, &col_indices, &row_pointers, [1, 2]).is_err());
}

#[test]
fn test_validate_csr_out_of_bounds() {
    let values = [1.0f32];
    let col_indices = [5i64];
    let row_pointers = [0i64, 1];
    assert!(validate_csr(&values, &col_indices, &row_pointers, [1, 2]).is_err());
}

#[test]
fn csr_and_csc_to_dense() {
    // [[1, 0, 2], [0, 3, 0]]
    let dense = csr_to_dense(&vec![1.0f32, 2.0, 3.0], &vec![0, 2, 1], &vec![0, 2, 3], [2, 3], 0.0);
    assert_eq!(dense, vec![1.0, 0.0, 2.0, 0.0, 3.0, 0.0]);
    let dense = csc_to_dense(&vec![1.0f32, 3.0, 2.0], &vec![0, 1, 0], &vec![0, 1, 2, 3], [2, 3], 0.0);
    assert_eq!(dense, vec![1.0, 0.0, 2.0, 0.0, 3.0, 0.0]);
}

#[test]
fn coo_to_dense_last_write_wins() {
    let dense = coo_to_dense(&vec![1.0f32, 7.0, 9.0], &vec![0, 1, 0], &vec![0, 1, 0], [2, 2], -1.0);
    assert_eq!(dense, vec![9.0, -1.0, -1.0, 7.0]);
}

#[test]
fn csc_to_csr_groups_rows() {
    // [[1, 0, 2], [0, 3, 4]] in CSC: columns 0: (0,1); 1: (1,3); 2: (0,2),(1,4)
    let t = csc_to_csr(&vec![1.0f32, 3.0, 2.0, 4.0], &vec![0, 1, 0, 1], &vec![0, 1, 2, 4], [2, 3]).unwrap();
    let (vals, cols, ptrs) = csr_parts(&t);
    assert_eq!(vals, vec![1.0, 2.0, 3.0, 4.0]);
    assert_eq!(cols, vec![0, 2, 1, 2]);
    assert_eq!(ptrs, vec![0, 2, 4]);
}

#[test]
fn coo_to_csr_sorts_entries() {
    let t = coo_to_csr(&vec![4.0f32, 1.0, 3.0, 2.0], &vec![1, 0, 1, 0], &vec![2, 0, 1, 2], [2, 3]).unwrap();
    let (vals, cols, ptrs) = csr_parts(&t);
    assert_eq!(vals, vec![1.0, 2.0, 3.0, 4.0]);
    assert_eq!(cols, vec![0, 2, 1, 2]);
    assert_eq!(ptrs, vec![0, 2, 4]);
}

#[test]
fn expand_and_place() {
    let lines = expand_pointers(&vec![0, 2, 2, 3], 3, 3);
    assert_eq!(lines, vec![0, 0, 2]);
    let (rp, cols, vals, _) = place_by_row(&vec![1, 0, 1, 0], &vec![5, 6, 7, 8], &vec![10, 20, 30, 40], 2);
    assert_eq!(rp, vec![0, 2, 4]);
    assert_eq!(cols, vec![6, 8, 5, 7]);
    assert_eq!(vals, vec![20, 40, 10, 30]);
}

#[test]
fn sort_region_sorts_only_the_region() {
    let mut keys = vec![9, 3, 1, 2, 0];
    let mut vals = vec!['a', 'b', 'c', 'd', 'e'];
    sort_region(&mut keys, &mut vals, 1, 4);
    assert_eq!(keys, vec![9, 1, 2, 3, 0]);
    assert_eq!(vals, vec!['a', 'c', 'd', 'b', 'e']);
}

#[test]
fn conversion_routes_through_csr() {
    let dense: Vec<f32> = vec![1.0, 0.0, 0.0, 2.0];
    let keep = vec![true, false, false, true];
    let m = SparseTensor::from_dense(&dense, &keep, [2, 2], SparseFormat::Mask, 0.0);
    assert_eq!(m.nnz(), 2);
    let csr = m.to_format(SparseFormat::CSR, 0.0).unwrap();
    assert_eq!(csr.format(), SparseFormat::CSR);
    assert_eq!(csr.to_dense(0.0), vec![1.0, 0.0, 0.0, 2.0]);
    let back = csr.to_format(SparseFormat::Mask, 0.0).unwrap();
    match back.data() {
        SparseTensorData::Mask { mask, values } => {
            assert_eq!(mask, &vec![true, true, true, true]);
            assert_eq!(values, &vec![1.0, 0.0, 0.0, 2.0]);
        }
        _ => panic!("Expected Mask format"),
    }
    match csr.to_format(SparseFormat::CSC, 0.0) {
        Err(SparseError::ConversionFailed { from, to, reason }) => {
            assert_eq!(from, SparseFormat::CSR);
            assert_eq!(to, SparseFormat::CSC);
            assert_eq!(reason, "CSR → CSC not yet implemented");
        }
        _ => panic!("Expected ConversionFailed"),
    }
    let same = convert_format(&csr, SparseFormat::CSR, 0.0).unwrap();
    assert_eq!(same.to_dense(0.0), csr.to_dense(0.0));
}

#[test]
fn block_csr_cannot_convert() {
    let dense: Vec<f32> = vec![0.0; 64];
    let keep = vec![false; 64];
    let t = SparseTensor::from_dense(&dense, &keep, [8, 8], SparseFormat::BlockCSR { block_size: 4 }, 0.0);
    assert_eq!(t.nnz(), 0);
    match t.to_format(SparseFormat::CSR, 0.0) {
        Err(e) => assert_eq!(
            e.to_string(),
            "Format conversion failed: BlockCSR(4) → CSR: BlockCSR → CSR not yet implemented"
        ),
        Ok(_) => panic!("Expected an error"),
    }
    assert!(validate_sparse_tensor(&t).is_ok());
}

#[test]
fn from_dense_nm_is_empty_and_csr_is_full() {
    let dense: Vec<f32> = vec![1.0, 2.0, 3.0, 4.0, 5.0, 6.0, 7.0, 8.0];
    let keep = vec![true; 8];
    let t = SparseTensor::from_dense(&dense, &keep, [2, 4], SparseFormat::NInM { n: 2, m: 4 }, 0.0);
    assert_eq!(t.nnz(), 4);
    let c = SparseTensor::from_dense(&dense, &keep, [2, 4], SparseFormat::CSR, 0.0);
    assert_eq!(c.nnz(), 8);
    assert_eq!(to_dense(&c, 0.0), dense);
}
