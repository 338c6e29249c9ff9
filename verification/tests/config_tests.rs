use burn_sparse::experimental::sparseram::config::{
    PrunedStorageConfig, SparsePolicy, SparseRAMBuilder, SparseRAMConfig,
};
use burn_sparse::experimental::sparseram::storage::tier::Tier;
use burn_sparse::experimental::sparseram::SparseRAM;

#[test]
fn test_sparse_policy_names() {
    assert_eq!(SparsePolicy::Eager.name(), "Eager");
    assert_eq!(SparsePolicy::Paged { cache_size: 100 }.name(), "Paged");
    assert_eq!(SparsePolicy::Streaming { prefetch: 10 }.name(), "Streaming");
}

#[test]
fn test_sparse_policy_requirements() {
    assert!(!SparsePolicy::Eager.requires_ram());
    assert!(SparsePolicy::Paged { cache_size: 100 }.requires_ram());
    assert!(!SparsePolicy::Streaming { prefetch: 10 }.requires_ram());

    assert!(!SparsePolicy::Eager.requires_disk());
    assert!(!SparsePolicy::Paged { cache_size: 100 }.requires_disk());
    assert!(SparsePolicy::Streaming { prefetch: 10 }.requires_disk());
}

#[test]
fn test_config_validation() {
    let config = SparseRAMConfig::default();
    assert!(config.validate().is_ok());

    let mut config2 = SparseRAMConfig::default();
    config2.block_size = 32;
    assert!(config2.validate().is_ok());

    let mut config3 = SparseRAMConfig::default();
    config3.active_tier = Tier::RAM;
    assert!(config3.validate().is_err());
}

#[test]
fn test_builder_defaults() {
    let builder = SparseRAMBuilder::<()>::new();
    let config = builder.build();

    assert_eq!(config.block_size, 16);
    assert_eq!(config.active_tier, Tier::GPU);
    assert!(matches!(config.policy, SparsePolicy::Eager));
    assert!(matches!(config.pruned_storage, PrunedStorageConfig::Discard));
}

#[test]
fn test_builder_fluent_api() {
    let config = SparseRAMBuilder::<()>::new()
        .block_size(32)
        .policy(SparsePolicy::Paged { cache_size: 500 })
        .pruned_storage(PrunedStorageConfig::Ram)
        .build();

    assert_eq!(config.block_size, 32);
    assert!(matches!(config.policy, SparsePolicy::Paged { cache_size: 500 }));
    assert!(matches!(config.pruned_storage, PrunedStorageConfig::Ram));
}

#[test]
fn test_serialization_placeholder() {}

#[test]
fn config_validation_names_the_tier() {
    let mut config = SparseRAMConfig::default();
    config.active_tier = Tier::Disk;
    assert_eq!(config.validate().unwrap_err(), "Active tier must be GPU, got Disk");
}

#[test]
fn enable_starts_from_defaults() {
    let config = SparseRAM::enable::<()>().build();
    assert_eq!(config.block_size, 16);
    assert_eq!(config.active_tier, Tier::GPU);
    assert!(matches!(config.policy, SparsePolicy::Eager));
    assert!(matches!(config.pruned_storage, PrunedStorageConfig::Discard));
}

#[test]
fn builder_active_tier() {
    let builder = SparseRAMBuilder::<()>::new().active_in(Tier::RAM);
    assert_eq!(builder.config().active_tier, Tier::RAM);
    assert!(builder.build().validate().is_err());
}
