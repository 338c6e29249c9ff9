use burn_sparse::sparse::mask::SparseMask;

#[test]
fn test_apply_mask() {
    let weights: Vec<f32> = vec![1.0, 2.0, 3.0, 4.0, 5.0, 6.0];
    let mask = SparseMask::from_tensor(vec![true, false, true, false, true, true], [2, 3]);
    let sparse = mask.apply(&weights, 0.0);
    assert_eq!(sparse, vec![1.0, 0.0, 3.0, 0.0, 5.0, 6.0]);
}

#[test]
fn test_gather_scatter() {
    let mask = SparseMask::from_tensor(vec![true, false, true, false, true, true], [2, 3]);
    let tensor: Vec<f32> = vec![1.0, 2.0, 3.0, 4.0, 5.0, 6.0];

    let active = mask.gather_active(&tensor);
    assert_eq!(active.len(), 4);

    let scattered = mask.scatter_active(&active, 0.0);
    assert_eq!(scattered.len(), 6);
    assert_eq!(scattered, vec![1.0, 0.0, 3.0, 0.0, 5.0, 6.0]);
}

#[test]
fn test_hamming_distance() {
    let mask1 = SparseMask::from_tensor(vec![true, false, true, false], [2, 2]);
    let mask2 = SparseMask::from_tensor(vec![true, true, false, false], [2, 2]);
    assert_eq!(mask1.hamming_distance(&mask2), 2);
}

#[test]
fn test_complement() {
    let mask = SparseMask::from_tensor(vec![true, false, true, false], [2, 2]);
    let comp = mask.complement();
    assert_eq!(mask.n_active(), comp.n_pruned());
    assert_eq!(mask.n_pruned(), comp.n_active());
    assert_eq!(comp.tensor(), &vec![false, true, false, true]);
    assert_eq!(mask.hamming_distance(&comp), 4);
    assert_eq!(mask.hamming_distance(&mask), 0);
}

#[test]
fn indices_listed_in_order() {
    let mask = SparseMask::from_tensor(vec![false, true, true, false, true, false], [3, 2]);
    assert_eq!(mask.active_indices(), &[1, 2, 4]);
    assert_eq!(mask.pruned_indices(), &[0, 3, 5]);
    assert_eq!(mask.shape(), [3, 2]);
    let t: Vec<i32> = vec![10, 11, 12, 13, 14, 15];
    assert_eq!(mask.gather_pruned(&t), vec![10, 13, 15]);
    assert_eq!(mask.scatter_pruned(&vec![7, 8, 9], 0), vec![7, 0, 0, 8, 0, 9]);
}

#[test]
fn random_mask_partitions_positions() {
    let mask = SparseMask::random([4, 5], 7);
    assert_eq!(mask.n_pruned(), 7);
    assert_eq!(mask.n_active(), 13);
    let mut all: Vec<usize> = mask.active_indices().to_vec();
    all.extend_from_slice(mask.pruned_indices());
    all.sort();
    assert_eq!(all, (0..20).collect::<Vec<usize>>());
    for &i in mask.pruned_indices() {
        assert!(!mask.tensor()[i]);
    }
    for &i in mask.active_indices() {
        assert!(mask.tensor()[i]);
    }
}

#[test]
fn complement_twice_gives_the_mask_back() {
    let mask = SparseMask::from_tensor(vec![true, false, false, true, true, false], [2, 3]);
    let back = mask.complement().complement();
    assert_eq!(back.tensor(), mask.tensor());
    assert_eq!(back.active_indices(), mask.active_indices());
    assert_eq!(back.pruned_indices(), mask.pruned_indices());
}
