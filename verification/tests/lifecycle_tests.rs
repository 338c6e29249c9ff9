use burn_sparse::experimental::sparseram::lifecycle::{check_lifecycle, LifecycleMode, LifecycleOperation};

#[test]
fn test_lifecycle_mode_checks() {
    assert!(LifecycleMode::Training.is_training());
    assert!(!LifecycleMode::Training.is_inference());

    assert!(!LifecycleMode::Inference.is_training());
    assert!(LifecycleMode::Inference.is_inference());
}

#[test]
fn test_training_mode_allows_all() {
    let mode = LifecycleMode::Training;

    assert!(mode.allows_operation(LifecycleOperation::SparseInference));
    assert!(mode.allows_operation(LifecycleOperation::ToDense));
    assert!(mode.allows_operation(LifecycleOperation::Regrowth));
    assert!(mode.allows_operation(LifecycleOperation::ResuOptimization));
    assert!(mode.allows_operation(LifecycleOperation::MaskUpdate));
    assert!(mode.allows_operation(LifecycleOperation::SaveLoad));
}

#[test]
fn lifecycle_test_inference_mode_restrictions() {
    let mode = LifecycleMode::Inference;

    assert!(mode.allows_operation(LifecycleOperation::SparseInference));
    assert!(mode.allows_operation(LifecycleOperation::SaveLoad));

    assert!(!mode.allows_operation(LifecycleOperation::ToDense));
    assert!(!mode.allows_operation(LifecycleOperation::Regrowth));
    assert!(!mode.allows_operation(LifecycleOperation::ResuOptimization));
    assert!(!mode.allows_operation(LifecycleOperation::MaskUpdate));
}

#[test]
fn test_check_lifecycle_ok() {
    let result = check_lifecycle(LifecycleMode::Training, LifecycleOperation::ToDense);
    assert!(result.is_ok());
}

#[test]
fn test_check_lifecycle_error() {
    let result = check_lifecycle(LifecycleMode::Inference, LifecycleOperation::ToDense);
    assert!(result.is_err());

    if let Err(e) = result {
        assert!(e.to_string().contains("to_dense"));
        assert!(e.to_string().contains("Inference"));
    }
}

#[test]
fn test_mode_display() {
    assert_eq!(LifecycleMode::Training.to_string(), "Training");
    assert_eq!(LifecycleMode::Inference.to_string(), "Inference");
}

#[test]
fn lifecycle_error_message() {
    let e = check_lifecycle(LifecycleMode::Inference, LifecycleOperation::MaskUpdate).unwrap_err();
    assert_eq!(e.to_string(), "Operation 'mask_update' not allowed in Inference mode");
}

#[test]
fn operation_names() {
    assert_eq!(LifecycleOperation::SparseInference.name(), "sparse_inference");
    assert_eq!(LifecycleOperation::SaveLoad.name(), "save_load");
    assert_eq!(LifecycleMode::Training.name(), "Training");
}
