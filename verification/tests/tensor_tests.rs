use burn_sparse::sparse::format::SparseFormat;
use burn_sparse::sparse::tensor::{SparseTensor, SparseTensorData};

#[test]
fn stored_values_of_csr_are_its_nonzeros() {
    let t = SparseTensor::from_csr(vec![1.0f32, 2.0, 3.0], vec![0, 2, 1], vec![0, 2, 3], [2, 3]);
    assert_eq!(t.stored_values(), &vec![1.0, 2.0, 3.0]);
}

#[test]
fn replacing_stored_values_keeps_the_structure() {
    let t = SparseTensor::from_csr(vec![1.0f32, 2.0, 3.0], vec![0, 2, 1], vec![0, 2, 3], [2, 3]);
    let r = t.with_stored_values(vec![10.0, 20.0, 30.0]);
    assert_eq!(r.format(), SparseFormat::CSR);
    assert_eq!(r.shape(), [2, 3]);
    match r.data() {
        SparseTensorData::CSR { values, col_indices, row_pointers } => {
            assert_eq!(values, &vec![10.0, 20.0, 30.0]);
            assert_eq!(col_indices, &vec![0, 2, 1]);
            assert_eq!(row_pointers, &vec![0, 2, 3]);
        }
        other => panic!("unexpected storage {:?}", other),
    }
    assert_eq!(r.to_dense(0.0), vec![10.0, 0.0, 20.0, 0.0, 30.0, 0.0]);
}

#[test]
fn replacing_mask_values_keeps_the_mask() {
    let t = SparseTensor::from_dense(
        &vec![1.0f32, 2.0, 3.0, 4.0],
        &vec![true, false, false, true],
        [2, 2],
        SparseFormat::Mask,
        0.0,
    );
    assert_eq!(t.stored_values(), &vec![1.0, 0.0, 0.0, 4.0]);
    let r = t.with_stored_values(vec![5.0, 6.0, 7.0, 8.0]);
    match r.data() {
        SparseTensorData::Mask { mask, values } => {
            assert_eq!(mask, &vec![true, false, false, true]);
            assert_eq!(values, &vec![5.0, 6.0, 7.0, 8.0]);
        }
        other => panic!("unexpected storage {:?}", other),
    }
}

#[test]
fn test_mask_construction() {
    let dense = vec![1.0f32, 0.1, 0.05, 2.0];
    let threshold = 0.1f32;
    let keep: Vec<bool> = dense.iter().map(|v| v.abs() >= threshold).collect();
    let sparse = SparseTensor::from_dense(&dense, &keep, [2, 2], SparseFormat::Mask, 0.0);
    assert_eq!(sparse.shape(), [2, 2]);
    assert_eq!(sparse.format(), SparseFormat::Mask);
    assert_eq!(sparse.nnz(), 3);
    let sparsity = 1.0 - sparse.nnz() as f32 / 4.0;
    assert!((sparsity - 0.25).abs() < 0.01);
}

fn doc_example(format: SparseFormat) -> SparseTensor<f32> {
    let dense = vec![1.0f32, 0.0, 2.0, 3.0];
    let keep: Vec<bool> = dense.iter().map(|v| v.abs() >= 0.1).collect();
    SparseTensor::from_dense(&dense, &keep, [2, 2], format, 0.0)
}

#[test]
fn from_dense_builds_csr_of_the_kept_values() {
    let t = doc_example(SparseFormat::CSR);
    assert_eq!(t.format(), SparseFormat::CSR);
    assert_eq!(t.shape(), [2, 2]);
    assert_eq!(t.nnz(), 3);
    match t.data() {
        SparseTensorData::CSR { values, col_indices, row_pointers } => {
            assert_eq!(values, &vec![1.0, 2.0, 3.0]);
            assert_eq!(col_indices, &vec![0, 0, 1]);
            assert_eq!(row_pointers, &vec![0, 1, 3]);
        }
        other => panic!("unexpected storage {:?}", other),
    }
    assert_eq!(t.to_dense(0.0), vec![1.0, 0.0, 2.0, 3.0]);
}

#[test]
fn from_dense_builds_csc_of_the_kept_values() {
    let t = doc_example(SparseFormat::CSC);
    assert_eq!(t.nnz(), 3);
    match t.data() {
        SparseTensorData::CSC { values, row_indices, col_pointers } => {
            assert_eq!(values, &vec![1.0, 2.0, 3.0]);
            assert_eq!(row_indices, &vec![0, 1, 1]);
            assert_eq!(col_pointers, &vec![0, 2, 3]);
        }
        other => panic!("unexpected storage {:?}", other),
    }
    assert_eq!(t.to_dense(0.0), vec![1.0, 0.0, 2.0, 3.0]);
}

#[test]
fn from_dense_builds_coo_of_the_kept_values() {
    let t = doc_example(SparseFormat::COO);
    assert_eq!(t.nnz(), 3);
    match t.data() {
        SparseTensorData::COO { values, row_indices, col_indices } => {
            assert_eq!(values, &vec![1.0, 2.0, 3.0]);
            assert_eq!(row_indices, &vec![0, 1, 1]);
            assert_eq!(col_indices, &vec![0, 0, 1]);
        }
        other => panic!("unexpected storage {:?}", other),
    }
    assert_eq!(t.to_dense(0.0), vec![1.0, 0.0, 2.0, 3.0]);
}

#[test]
fn from_dense_csc_of_a_wide_matrix() {
    let dense = vec![1.0f32, 2.0, 0.0, 0.0, 5.0, 6.0];
    let keep: Vec<bool> = dense.iter().map(|v| *v != 0.0).collect();
    let t = SparseTensor::from_dense(&dense, &keep, [2, 3], SparseFormat::CSC, 0.0);
    assert_eq!(t.to_dense(0.0), dense);
}
