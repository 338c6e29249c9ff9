use burn_sparse::experimental::sparseram::config::{PrunedStorageConfig, SparsePolicy, SparseRAMBuilder, SparseRAMConfig};
use burn_sparse::experimental::sparseram::convert::ConversionPipeline;
use burn_sparse::experimental::sparseram::error::SparseRAMError;
use burn_sparse::experimental::sparseram::lifecycle::LifecycleMode;
use burn_sparse::experimental::sparseram::residency::eager::EagerEngine;
use burn_sparse::experimental::sparseram::residency::paged::PagedCache;
use burn_sparse::experimental::sparseram::residency::streaming::StreamingEngine;
use burn_sparse::experimental::sparseram::storage::decompose::{decompose_sparse_tensor, reconstruct_from_blocks};
use burn_sparse::experimental::sparseram::storage::pruned::{PrunedLocation, PrunedStorage};
use burn_sparse::experimental::sparseram::storage::tier::Tier;
use burn_sparse::experimental::sparseram::weight::SparseRAMWeight;
use burn_sparse::sparse::mask::SparseMask;
use burn_sparse::sparse::tensor::SparseTensor;

fn nonzero_mask(dense: &[f32], shape: [usize; 2]) -> SparseMask {
    SparseMask::from_tensor(dense.iter().map(|v| *v != 0.0).collect(), shape)
}

fn create_test_config() -> SparseRAMConfig {
    SparseRAMConfig {
        active_tier: Tier::GPU,
        pruned_storage: PrunedStorageConfig::Discard,
        policy: SparsePolicy::Eager,
        block_size: 16,
    }
}

#[test]
fn test_convert_dense_to_sparse() {
    let mut data = vec![0.0f32; 100];
    for v in data.iter_mut().take(50) {
        *v = 1.0;
    }
    let mask = nonzero_mask(&data, [10, 10]);
    let pipeline = ConversionPipeline::new(create_test_config());
    let (sparse, pruned_storage, shape) = pipeline.convert(&data, [10, 10], &mask).unwrap();
    assert_eq!(shape, [10, 10]);
    assert_eq!(sparse.nnz(), 50);
    assert!(!pruned_storage.has_storage());
}

#[test]
fn convert_test_pruned_storage_none() {
    let dense: Vec<f32> = vec![1.0, 0.0, 2.0, 0.0, 3.0, 0.0];
    let mask = nonzero_mask(&dense, [2, 3]);
    let mut config = create_test_config();
    config.pruned_storage = PrunedStorageConfig::Discard;
    let pipeline = ConversionPipeline::new(config);
    let (sparse, pruned_storage, _) = pipeline.convert(&dense, [2, 3], &mask).unwrap();
    assert!(!pruned_storage.has_storage());
    assert_eq!(sparse.nnz(), 3);
}

#[test]
fn convert_test_pruned_storage_ram() {
    let dense: Vec<f32> = vec![1.0, 0.0, 2.0, 0.0, 3.0, 0.0];
    let mask = nonzero_mask(&dense, [2, 3]);
    let mut config = create_test_config();
    config.pruned_storage = PrunedStorageConfig::Ram;
    let pipeline = ConversionPipeline::new(config);
    let (sparse, pruned_storage, _) = pipeline.convert(&dense, [2, 3], &mask).unwrap();
    assert!(pruned_storage.has_storage());
    assert_eq!(pruned_storage.num_values(), 3);
    assert_eq!(sparse.nnz(), 3);
    assert_eq!(pruned_storage.get_value(1).unwrap(), (1, 0, 0.0));
}

#[test]
fn pipeline_refuses_mismatch_and_tier() {
    let dense: Vec<f32> = vec![1.0, 0.0, 2.0, 0.0, 3.0, 0.0];
    let mask = nonzero_mask(&dense, [2, 3]);
    let pipeline = ConversionPipeline::new(create_test_config());
    match pipeline.convert(&dense, [3, 2], &mask) {
        Err(SparseRAMError::DimensionMismatch { expected, actual }) => {
            assert_eq!(expected, [2, 3]);
            assert_eq!(actual, [3, 2]);
        }
        _ => panic!("Expected DimensionMismatch"),
    }
    let mut config = create_test_config();
    config.active_tier = Tier::RAM;
    match ConversionPipeline::new(config).convert(&dense, [2, 3], &mask) {
        Err(SparseRAMError::InvalidConfig { reason }) => assert_eq!(reason, "Active tier must be GPU, got RAM"),
        _ => panic!("Expected InvalidConfig"),
    }
}

#[test]
fn pruned_test_pruned_storage_none() {
    let storage: PrunedStorage<f32> = PrunedStorage::Discard;
    assert!(!storage.has_storage());
    assert_eq!(storage.num_values(), 0);
    assert_eq!(storage.memory_bytes(), 0);
}

#[test]
fn pruned_test_pruned_storage_ram() {
    let mut storage: PrunedStorage<f32> = PrunedStorage::new_ram();
    assert!(storage.has_storage());
    assert_eq!(storage.num_values(), 0);
    storage.set_values(vec![(0, 1, 0.0), (1, 0, 0.0), (2, 3, 0.0)]).unwrap();
    assert_eq!(storage.num_values(), 3);
    assert_eq!(storage.memory_bytes(), 3 * 20);
}

#[test]
fn test_pruned_storage_none_discard() {
    let mut storage: PrunedStorage<f32> = PrunedStorage::Discard;
    storage.set_values(vec![(0, 1, 0.0), (1, 0, 0.0)]).unwrap();
    assert_eq!(storage.num_values(), 0);
}

#[test]
fn test_pruned_storage_get_error() {
    let storage: PrunedStorage<f32> = PrunedStorage::Discard;
    let result = storage.get_value(0);
    match result {
        Err(SparseRAMError::PrunedStorageUnavailable { operation }) => assert_eq!(operation, "get_value"),
        _ => panic!("Expected PrunedStorageUnavailable error"),
    }
}

#[test]
fn test_pruned_storage_ram_get() {
    let mut storage: PrunedStorage<f32> = PrunedStorage::new_ram();
    storage.set_values(vec![(0, 1, 1.5), (1, 0, 2.5), (2, 3, 3.5)]).unwrap();
    assert_eq!(storage.get_value(0).unwrap(), (0, 1, 1.5));
    assert_eq!(storage.get_value(1).unwrap(), (1, 0, 2.5));
    assert_eq!(storage.get_value(2).unwrap(), (2, 3, 3.5));
    match storage.get_value(3) {
        Err(SparseRAMError::ConversionError { reason }) => assert_eq!(reason, "Value index 3 out of bounds"),
        _ => panic!("Expected ConversionError"),
    }
    assert_eq!(storage.initial_location(), PrunedLocation::Ram);
}

fn sparse_of(dense: &[f32], shape: [usize; 2]) -> SparseTensor<f32> {
    let mask = nonzero_mask(dense, shape);
    SparseTensor::from_mask(&mask, &dense.to_vec(), shape).unwrap()
}

#[test]
fn test_eager_engine_creation() {
    let sparse = sparse_of(&[1.0, 0.0, 2.0, 0.0, 3.0, 0.0], [2, 3]);
    let engine = EagerEngine::new(sparse);
    assert_eq!(engine.name(), "Eager");
    assert_eq!(engine.ram_usage(), 0);
    assert!(engine.vram_usage() > 0);
}

#[test]
fn test_eager_engine_get_sparse() {
    let sparse = sparse_of(&[1.0, 0.0, 2.0, 0.0, 3.0, 0.0], [2, 3]);
    let mut engine = EagerEngine::new(sparse);
    let sparse_ref = engine.get_sparse().unwrap();
    assert_eq!(sparse_ref.shape(), [2, 3]);
    assert_eq!(sparse_ref.nnz(), 3);
}

#[test]
fn test_vram_calculation() {
    let mut data = vec![0.0f32; 100];
    for v in data.iter_mut().take(20) {
        *v = 1.0;
    }
    let engine = EagerEngine::new(sparse_of(&data, [10, 10]));
    let vram = engine.vram_usage();
    assert!(vram >= 240);
    assert!(vram < 1000);
    assert_eq!(vram, 20 * 12);
}

#[test]
fn test_paged_cache_creation() {
    let sparse = sparse_of(&[1.0, 0.0, 2.0, 0.0, 3.0, 0.0], [2, 3]);
    let mut engine = PagedCache::new(sparse, 100).unwrap();
    assert_eq!(engine.name(), "Paged");
    assert_eq!(engine.vram_usage(), 0);
    assert_eq!(engine.ram_usage(), 0);
    engine.prefetch(&[0, 1, 2]);
    assert_eq!(engine.vram_usage(), 0);
    assert_eq!(engine.get_sparse().unwrap().nnz(), 3);
}

#[test]
fn streaming_engine_reports_unavailable() {
    let mut engine: StreamingEngine<f32> =
        StreamingEngine::new(std::path::PathBuf::from("blocks.bin"), 4, 16, [32, 32]).unwrap();
    assert_eq!(engine.name(), "Streaming");
    assert_eq!(engine.vram_usage(), 16 * 16 * 4);
    assert_eq!(engine.ram_usage(), 0);
    assert!(engine.start_prefetch().is_ok());
    match engine.get_sparse() {
        Err(SparseRAMError::ResidencyError { message }) => assert_eq!(message, "Streaming not yet implemented"),
        _ => panic!("Expected ResidencyError"),
    }
}

#[test]
fn test_decompose_and_reconstruct() {
    let dense: Vec<f32> = (1..=64).map(|v| v as f32).collect();
    let sparse = sparse_of(&dense, [8, 8]);
    let blocks = decompose_sparse_tensor(&sparse, 4, 0.0).unwrap();
    assert_eq!(blocks.len(), 4);
    let reconstructed = reconstruct_from_blocks(&blocks, [8, 8], 4, 0.0).unwrap();
    for (o, r) in dense.iter().zip(reconstructed.iter()) {
        assert!((o - r).abs() < 1e-5);
    }
}

#[test]
fn test_non_divisible_size() {
    let dense = vec![1.0f32; 49];
    let sparse = sparse_of(&dense, [7, 7]);
    let blocks = decompose_sparse_tensor(&sparse, 4, 0.0).unwrap();
    assert_eq!(blocks.len(), 4);
    for block_data in &blocks {
        assert_eq!(block_data.block.size, 4);
        assert_eq!(block_data.data.len(), 16);
    }
    assert_eq!(blocks[3].data[15], 0.0);
    assert_eq!(blocks[3].data[0], 1.0);
    let back = reconstruct_from_blocks(&blocks, [7, 7], 4, 0.0).unwrap();
    assert_eq!(back, dense);
}

fn weight_of(dense: &[f32], shape: [usize; 2], storage: PrunedStorageConfig) -> SparseRAMWeight<f32> {
    let mask = nonzero_mask(dense, shape);
    SparseRAMBuilder::<()>::new().pruned_storage(storage).apply(&dense.to_vec(), shape, &mask).unwrap()
}

#[test]
fn test_sparse_ram_weight_creation() {
    let dense = [1.0f32, 0.0, 2.0, 0.0, 0.0, 3.0, 0.0, 4.0];
    let mask = nonzero_mask(&dense, [2, 4]);
    let w = SparseRAMBuilder::<()>::new().policy(SparsePolicy::Eager).apply(&dense.to_vec(), [2, 4], &mask).unwrap();
    assert_eq!(w.shape(), [2, 4]);
    assert_eq!(w.nnz(), 4);
    assert_eq!(w.mode(), LifecycleMode::Inference);
    assert_eq!(w.policy_name(), "Eager");
}

#[test]
fn test_training_mode() {
    let mut w = weight_of(&[1.0, 0.0, 0.0, 2.0], [2, 2], PrunedStorageConfig::Ram);
    assert_eq!(w.mode(), LifecycleMode::Training);
    assert!(w.to_dense_parts(0.0).is_err());
    w.load_pruned_to_gpu(0.0).unwrap();
    let (active, pruned) = w.to_dense_parts(0.0).unwrap();
    assert_eq!(active, vec![1.0, 0.0, 0.0, 2.0]);
    assert_eq!(pruned, Some(vec![0.0, 0.0, 0.0, 0.0]));
}

#[test]
fn weight_test_inference_mode_restrictions() {
    let mut w = weight_of(&[1.0, 0.0, 0.0, 2.0], [2, 2], PrunedStorageConfig::Discard);
    assert_eq!(w.mode(), LifecycleMode::Inference);
    assert!(w.to_dense_parts(0.0).is_err());
    assert!(w.inference_operand().is_ok());
}

#[test]
fn test_finalize_inference() {
    let w = weight_of(&[1.0, 0.0, 0.0, 2.0], [2, 2], PrunedStorageConfig::Ram);
    assert_eq!(w.mode(), LifecycleMode::Training);
    let mut finalized = w.finalize_inference().unwrap();
    assert_eq!(finalized.mode(), LifecycleMode::Inference);
    assert!(finalized.to_dense_parts(0.0).is_err());
    match finalized.finalize_inference() {
        Err(SparseRAMError::LifecycleViolation { operation, mode }) => {
            assert_eq!(operation, "finalize_inference");
            assert_eq!(mode, "Inference (already finalized)");
        }
        _ => panic!("Expected LifecycleViolation"),
    }
}

#[test]
fn test_memory_tracking() {
    let dense = vec![0.0f32; 64 * 64];
    let mask = SparseMask::from_tensor(vec![true; 64 * 64], [64, 64]);
    let w = SparseRAMBuilder::<()>::new().apply(&dense, [64, 64], &mask).unwrap();
    assert!(w.vram_bytes() > 0);
    assert_eq!(w.ram_bytes(), 0);
}

#[test]
fn test_pruned_location_ram() {
    let w = weight_of(
        &[1.0, 0.0, 2.0, 0.0, 0.0, 3.0, 0.0, 4.0, 5.0, 0.0, 6.0, 0.0],
        [3, 4],
        PrunedStorageConfig::Ram,
    );
    assert_eq!(w.pruned_location(), PrunedLocation::Ram);
    assert_eq!(w.mode(), LifecycleMode::Training);
    assert!(w.ram_bytes() > 0);
    assert_eq!(w.ram_bytes(), 6 * 20);
    assert!(w.vram_bytes() > 0);
}

#[test]
fn test_pruned_location_load_offload_stub() {
    let mut w = weight_of(&[1.0, 0.0, 0.0, 2.0], [2, 2], PrunedStorageConfig::Ram);
    assert_eq!(w.pruned_location(), PrunedLocation::Ram);
    w.load_pruned_to_gpu(0.0).unwrap();
    assert_eq!(w.pruned_location(), PrunedLocation::Gpu);
    w.load_pruned_to_gpu(0.0).unwrap();
    assert_eq!(w.pruned_location(), PrunedLocation::Gpu);
    w.offload_pruned().unwrap();
    assert_eq!(w.pruned_location(), PrunedLocation::Ram);
}

#[test]
fn test_pruned_location_none_errors() {
    let mut w = weight_of(&[1.0, 0.0, 0.0, 2.0], [2, 2], PrunedStorageConfig::Discard);
    assert_eq!(w.pruned_location(), PrunedLocation::Discarded);
    match w.load_pruned_to_gpu(0.0) {
        Err(SparseRAMError::PrunedStorageUnavailable { operation }) => assert_eq!(operation, "load_pruned_to_gpu"),
        _ => panic!("Expected PrunedStorageUnavailable error"),
    }
}

#[test]
fn test_offload_without_load_errors() {
    let mut w = weight_of(&[1.0, 0.0, 0.0, 2.0], [2, 2], PrunedStorageConfig::Ram);
    assert_eq!(w.pruned_location(), PrunedLocation::Ram);
    match w.offload_pruned() {
        Err(SparseRAMError::InvalidConfig { reason }) => assert!(reason.contains("not on GPU")),
        _ => panic!("Expected InvalidConfig error"),
    }
}

#[test]
fn loaded_pruned_values_fill_their_positions() {
    let mask = SparseMask::from_tensor(vec![true, false, false, true, true, false], [2, 3]);
    let dense = vec![1.0f32, 7.0, 8.0, 2.0, 3.0, 9.0];
    let mut w = SparseRAMBuilder::<()>::new()
        .pruned_storage(PrunedStorageConfig::Ram)
        .apply(&dense, [2, 3], &mask)
        .unwrap();
    w.load_pruned_to_gpu(0.0).unwrap();
    let (active, pruned) = w.to_dense_parts(0.0).unwrap();
    assert_eq!(active, vec![1.0, 0.0, 0.0, 2.0, 3.0, 0.0]);
    assert_eq!(pruned, Some(vec![0.0, 7.0, 8.0, 0.0, 0.0, 9.0]));
}

#[test]
fn unimplemented_policies_are_refused() {
    let dense = [1.0f32, 0.0, 0.0, 2.0];
    let mask = nonzero_mask(&dense, [2, 2]);
    match SparseRAMBuilder::<()>::new().policy(SparsePolicy::Paged { cache_size: 4 }).apply(&dense.to_vec(), [2, 2], &mask) {
        Err(SparseRAMError::InvalidConfig { reason }) => assert_eq!(reason, "Paged policy not yet implemented in R4"),
        _ => panic!("Expected InvalidConfig"),
    }
}

#[test]
fn test_sparse_ram_enable() {
    let builder = burn_sparse::experimental::sparseram::SparseRAM::enable::<()>();
    assert_eq!(builder.config().block_size, 16);
}

#[test]
fn test_vram_reduction_proportional_to_sparsity() {
    let mut data = vec![0.0f32; 10_000];
    for v in data.iter_mut().take(5_000) {
        *v = 1.0;
    }
    let mask = nonzero_mask(&data, [100, 100]);
    let sparse = SparseTensor::from_mask(&mask, &data, [100, 100]).unwrap();
    let engine = EagerEngine::new(sparse);
    assert!(engine.vram_usage() > 0);
}

#[test]
fn test_streaming_engine_creation() {
    let path = std::path::PathBuf::from("/tmp/test_blocks");
    let engine = StreamingEngine::<f32>::new(path.clone(), 10, 16, [256, 512]);
    assert!(engine.is_ok());
    let engine = engine.unwrap();
    assert_eq!(engine.name(), "Streaming");
    assert_eq!(engine.prefetch_depth(), 10);
    assert_eq!(engine.disk_path(), &path);
}

#[test]
fn test_phase_b_actual_gpu_transfer_and_reconstruction() {
    let dense = [1.0f32, 0.0, 2.0, 0.0, 0.0, 3.0, 0.0, 4.0, 5.0, 0.0, 6.0, 0.0];
    let mut w = weight_of(&dense, [3, 4], PrunedStorageConfig::Ram);
    assert_eq!(w.pruned_location(), PrunedLocation::Ram);
    assert!(w.pruned_gpu_tensor().is_none());

    w.load_pruned_to_gpu(0.0).unwrap();
    assert_eq!(w.pruned_location(), PrunedLocation::Gpu);
    assert!(w.pruned_gpu_tensor().is_some());

    let (active, pruned) = w.to_dense_parts(0.0).unwrap();
    let pruned = pruned.unwrap();
    let reconstructed: Vec<f32> = active.iter().zip(pruned.iter()).map(|(a, p)| a + p).collect();
    assert_eq!(reconstructed.len(), dense.len());
    for (i, (expected, recon)) in dense.iter().zip(reconstructed.iter()).enumerate() {
        assert!((expected - recon).abs() < 1e-5, "Mismatch at index {}: dense={}, reconstructed={}", i, expected, recon);
    }

    w.offload_pruned().unwrap();
    assert_eq!(w.pruned_location(), PrunedLocation::Ram);
    assert!(w.pruned_gpu_tensor().is_none());
    assert!(w.to_dense_parts(0.0).is_err());
}

#[test]
fn test_phase_b_vram_tracking_with_pruned_gpu() {
    let dense = [1.0f32, 0.0, 2.0, 0.0, 3.0, 0.0, 4.0, 0.0, 5.0];
    let mut w = weight_of(&dense, [3, 3], PrunedStorageConfig::Ram);
    let vram_before = w.vram_usage();
    w.load_pruned_to_gpu(0.0).unwrap();
    assert_eq!(w.vram_usage(), vram_before);
    assert!(w.pruned_gpu_tensor().is_some());
}

fn disk_config(name: &str) -> PrunedStorageConfig {
    PrunedStorageConfig::Disk { path: std::path::PathBuf::from(name) }
}

#[test]
fn test_pruned_location_disk() {
    let dense = [1.0f32, 0.0, 2.0, 0.0, 3.0, 0.0, 4.0, 0.0, 5.0];
    let w = weight_of(&dense, [3, 3], disk_config("test_sparseram_disk.bin"));
    assert_eq!(w.pruned_location(), PrunedLocation::Disk, "Initial location should be Disk");
    assert_eq!(w.mode(), LifecycleMode::Training);
    let ram_bytes = w.ram_bytes();
    assert!(ram_bytes < 10000, "RAM usage should be minimal for Disk storage, got {} bytes", ram_bytes);
}

#[test]
fn test_pruned_location_disk_load_offload() {
    let dense = vec![1.0f32, 0.0, 0.0, 2.0];
    let mask = nonzero_mask(&dense, [2, 2]);
    let mut w = SparseRAMBuilder::<()>::new()
        .pruned_storage(disk_config("test_sparseram_disk_movement.bin"))
        .apply(&dense, [2, 2], &mask)
        .unwrap();
    assert_eq!(w.pruned_location(), PrunedLocation::Disk);
    assert!(w.reads_from_disk());
    let written = ConversionPipeline::new(create_test_config()).extract_pruned_values(&dense, &mask).unwrap();
    w.load_pruned_from_disk(written, 0.0).unwrap();
    assert_eq!(w.pruned_location(), PrunedLocation::Gpu);
    assert!(!w.reads_from_disk());
    w.offload_pruned().unwrap();
    assert_eq!(w.pruned_location(), PrunedLocation::Disk, "After offload, should return to Disk");
}

#[test]
fn disk_storage_counts_pruned_values_and_reconstructs_dense() {
    let dense = vec![1.0f32, 7.0, 0.0, 2.0, 3.0, 9.0];
    let mask = SparseMask::from_tensor(vec![true, false, false, true, true, false], [2, 3]);
    let mut w = SparseRAMBuilder::<()>::new()
        .pruned_storage(disk_config("test_sparseram_disk_dense.bin"))
        .apply(&dense, [2, 3], &mask)
        .unwrap();
    assert_eq!(w.ram_bytes(), 1024);
    match w.to_dense_parts(0.0) {
        Err(SparseRAMError::InvalidConfig { reason }) => assert!(reason.contains("not loaded")),
        _ => panic!("Expected InvalidConfig error"),
    }
    let written = ConversionPipeline::new(create_test_config()).extract_pruned_values(&dense, &mask).unwrap();
    assert_eq!(written, vec![(0, 1, 7.0), (0, 2, 0.0), (1, 2, 9.0)]);
    w.load_pruned_from_disk(written, 0.0).unwrap();
    let (active, pruned) = w.to_dense_parts(0.0).unwrap();
    assert_eq!(active, vec![1.0, 0.0, 0.0, 2.0, 3.0, 0.0]);
    assert_eq!(pruned, Some(vec![0.0, 7.0, 0.0, 0.0, 0.0, 9.0]));
}

#[test]
fn disk_storage_reports_its_count_and_location() {
    let storage: PrunedStorage<f32> = PrunedStorage::new_disk(5);
    assert!(storage.has_storage());
    assert_eq!(storage.num_values(), 5);
    assert_eq!(storage.memory_bytes(), 1024);
    assert_eq!(storage.initial_location(), PrunedLocation::Disk);
}
