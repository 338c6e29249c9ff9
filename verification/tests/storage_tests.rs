use burn_sparse::experimental::sparseram::error::SparseRAMError;
use burn_sparse::experimental::sparseram::storage::block::{Block, BlockLocation};
use burn_sparse::experimental::sparseram::storage::index::BlockIndexMap;
use burn_sparse::experimental::sparseram::storage::tier::Tier;

#[test]
fn test_block_creation() {
    let block = Block::new(0, 0, 16, true);
    assert_eq!(block.coords(), (0, 0));
    assert_eq!(block.num_elements(), 256);
    assert!(block.is_active);
    assert_eq!(block.tier(), Tier::Deleted);
}

#[test]
fn test_block_element_range() {
    let block = Block::new(2, 3, 16, true);
    let (r_start, r_end, c_start, c_end) = block.element_range();

    assert_eq!(r_start, 32);
    assert_eq!(r_end, 48);
    assert_eq!(c_start, 48);
    assert_eq!(c_end, 64);
}

#[test]
fn test_block_memory_calculation() {
    let block = Block { row: 0, col: 0, size: 16, is_active: true, location: BlockLocation::RAM { index: 0 } };

    assert_eq!(block.memory_bytes(4), 1024);
    assert_eq!(block.memory_bytes(2), 512);
}

#[test]
fn test_block_location_tier() {
    assert_eq!(BlockLocation::GPU { offset: 0 }.tier(), Tier::GPU);
    assert_eq!(BlockLocation::RAM { index: 0 }.tier(), Tier::RAM);
    assert_eq!(BlockLocation::Disk { offset: 0 }.tier(), Tier::Disk);
    assert_eq!(BlockLocation::Deleted.tier(), Tier::Deleted);
}

#[test]
fn deleted_block_takes_no_memory() {
    let block = Block::new(1, 1, 16, false);
    assert_eq!(block.memory_bytes(4), 0);
    assert!(!BlockLocation::Deleted.has_storage());
    assert!(BlockLocation::Disk { offset: 8 }.has_storage());
}

#[test]
fn test_block_index_creation() {
    let index = BlockIndexMap::new(16, [256, 512]);

    assert_eq!(index.block_size(), 16);
    assert_eq!(index.tensor_shape(), [256, 512]);
    assert_eq!(index.block_shape(), [16, 32]);
    assert_eq!(index.total_blocks(), 0);
}

#[test]
fn test_block_insertion_and_lookup() {
    let mut index = BlockIndexMap::new(16, [256, 512]);

    let block1 = Block { row: 0, col: 0, size: 16, is_active: true, location: BlockLocation::GPU { offset: 0 } };
    let block2 = Block { row: 1, col: 2, size: 16, is_active: false, location: BlockLocation::Deleted };

    index.insert(block1.clone());
    index.insert(block2.clone());

    assert_eq!(index.total_blocks(), 2);
    assert_eq!(index.num_active(), 1);
    assert_eq!(index.num_pruned(), 1);

    let retrieved = index.get(0, 0).unwrap();
    assert_eq!(retrieved.row, 0);
    assert_eq!(retrieved.col, 0);
    assert!(retrieved.is_active);
}

#[test]
fn test_active_pruned_filtering() {
    let mut index = BlockIndexMap::new(16, [256, 512]);

    for i in 0..10 {
        let block = Block { row: i, col: 0, size: 16, is_active: i % 2 == 0, location: BlockLocation::Deleted };
        index.insert(block);
    }

    assert_eq!(index.active_blocks().len(), 5);
    assert_eq!(index.pruned_blocks().len(), 5);
}

#[test]
fn test_block_not_found_error() {
    let index = BlockIndexMap::new(16, [256, 512]);

    let result = index.get_or_err(999, 999);
    assert!(result.is_err());

    match result {
        Err(SparseRAMError::BlockNotFound { row, col }) => {
            assert_eq!(row, 999);
            assert_eq!(col, 999);
        }
        _ => panic!("Expected BlockNotFound error"),
    }
}

#[test]
fn index_row_major_order_and_clear() {
    let mut index = BlockIndexMap::new(16, [64, 64]);
    index.insert(Block::new(1, 0, 16, true));
    index.insert(Block::new(0, 3, 16, true));
    index.insert(Block::new(0, 1, 16, false));
    let order: Vec<(usize, usize)> = index.iter_row_major().into_iter().map(|b| b.coords()).collect();
    assert_eq!(order, vec![(0, 1), (0, 3), (1, 0)]);
    assert!(index.contains(0, 3));
    assert!(!index.contains(3, 3));
    if let Some(b) = index.get_mut(0, 1) {
        b.is_active = true;
    }
    assert!(index.get(0, 1).unwrap().is_active);
    index.clear();
    assert_eq!(index.total_blocks(), 0);
    assert!(index.get(1, 0).is_none());
}

#[test]
fn test_tier_properties() {
    assert!(Tier::GPU.has_storage());
    assert!(Tier::RAM.has_storage());
    assert!(Tier::Disk.has_storage());
    assert!(!Tier::Deleted.has_storage());

    assert!(Tier::GPU.is_gpu());
    assert!(!Tier::RAM.is_gpu());

    assert!(Tier::RAM.is_host());
    assert!(Tier::Disk.is_host());
    assert!(!Tier::GPU.is_host());
}

#[test]
fn tier_names() {
    assert_eq!(Tier::GPU.to_string(), "GPU");
    assert_eq!(Tier::Deleted.to_string(), "None");
}

#[test]
fn reinserting_a_block_counts_it_once() {
    let mut index = BlockIndexMap::new(16, [256, 512]);
    index.insert(Block::new(0, 0, 16, true));
    index.insert(Block::new(0, 0, 16, true));
    assert_eq!(index.total_blocks(), 1);
    assert_eq!(index.num_active(), 1);
    assert_eq!(index.num_pruned(), 0);
    index.insert(Block::new(0, 0, 16, false));
    assert_eq!(index.total_blocks(), 1);
    assert_eq!(index.num_active(), 0);
    assert_eq!(index.num_pruned(), 1);
    assert_eq!(index.active_blocks().len(), index.num_active());
    assert_eq!(index.pruned_blocks().len(), index.num_pruned());
}
