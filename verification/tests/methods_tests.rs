use burn_sparse::methods::schedule::UpdateSchedule;
use burn_sparse::methods::swap::{apply_swaps, drop_and_grow, swap_candidates};
use burn_sparse::sparse::mask::SparseMask;

#[test]
fn swaps_grow_then_prune() {
    let mask = SparseMask::from_tensor(vec![true, false, true, false, false, true], [2, 3]);
    let swapped = apply_swaps(&mask, &vec![1, 3], &vec![0, 3]);
    assert_eq!(swapped.tensor(), &vec![false, true, true, false, false, true]);
    assert_eq!(swapped.active_indices(), &[1, 2, 5]);
    assert_eq!(swapped.pruned_indices(), &[0, 3, 4]);
    assert_eq!(swapped.shape(), [2, 3]);
}

#[test]
fn drop_then_grow_keeps_grown_positions() {
    let mask = SparseMask::from_tensor(vec![true, false, true, false], [2, 2]);
    let rewired = drop_and_grow(&mask, &vec![0, 3], &vec![3]);
    assert_eq!(rewired.tensor(), &vec![false, false, true, true]);
    assert_eq!(rewired.n_active(), 2);
}

#[test]
fn candidates_follow_the_ranking() {
    let mask = SparseMask::from_tensor(vec![true, false, true, false, false, true], [2, 3]);
    let order = vec![4, 0, 5, 1, 2, 3];
    assert_eq!(swap_candidates(&mask, &order, false, 2), vec![4, 1]);
    assert_eq!(swap_candidates(&mask, &order, true, 2), vec![0, 5]);
    assert_eq!(swap_candidates(&mask, &order, false, 10), vec![4, 1, 3]);
    assert_eq!(swap_candidates(&mask, &order, true, 0), Vec::<usize>::new());
}

#[test]
fn swapping_equal_counts_preserves_sparsity() {
    let mask = SparseMask::from_tensor(
        vec![true, false, true, false, false, true, false, true],
        [2, 4],
    );
    let order = vec![7, 6, 5, 4, 3, 2, 1, 0];
    let grow = swap_candidates(&mask, &order, false, 2);
    let prune = swap_candidates(&mask, &order, true, 2);
    assert_eq!(grow, vec![6, 4]);
    assert_eq!(prune, vec![7, 5]);
    let refined = apply_swaps(&mask, &grow, &prune);
    assert_eq!(refined.n_active(), mask.n_active());
    assert_eq!(refined.n_pruned(), mask.n_pruned());
}

#[test]
fn schedule_fires_on_multiples_of_frequency() {
    let mut schedule = UpdateSchedule::new(3);
    let fired: Vec<bool> = (0..7).map(|_| schedule.step()).collect();
    assert_eq!(fired, vec![false, false, true, false, false, true, false]);
    assert_eq!(schedule.step_count(), 7);
    assert_eq!(schedule.update_frequency(), 3);
}

#[test]
fn schedule_with_frequency_one_always_fires() {
    let mut schedule = UpdateSchedule::new(1);
    assert!(schedule.step());
    assert!(schedule.step());
    assert_eq!(schedule.step_count(), 2);
}
