use aleo_core::checkpoint::{
    checkpoint_height, checkpoint_name, checkpoints_to_remove, existing_startup_checkpoint_height,
    should_create_checkpoint, u32_from_str, CHECKPOINT_BLOCK_FREQUENCY, MAX_AUTO_CHECKPOINTS,
};

#[test]
fn seeds_last_checkpoint_height_when_startup_checkpoint_directory_exists() {
    let startup_height = 42;
    // The directory `checkpoint_42` exists under the checkpoint path.
    assert_eq!(checkpoint_name(startup_height), b"checkpoint_42".to_vec());
    assert_eq!(existing_startup_checkpoint_height(startup_height, true), Some(startup_height));
}

#[test]
fn does_not_seed_last_checkpoint_height_when_startup_checkpoint_directory_missing() {
    let startup_height = 42;
    assert_eq!(existing_startup_checkpoint_height(startup_height, false), None);
}

#[test]
fn checkpoint_names() {
    assert_eq!(checkpoint_name(0), b"checkpoint_0".to_vec());
    assert_eq!(checkpoint_name(4294967295), b"checkpoint_4294967295".to_vec());
    assert_eq!(checkpoint_height(b"checkpoint_1000"), Some(1000));
    assert_eq!(checkpoint_height(b"checkpoint_+7"), Some(7));
    assert_eq!(checkpoint_height(b"checkpoint_12_extra"), Some(12));
    assert_eq!(checkpoint_height(b"checkpoint_"), None);
    assert_eq!(checkpoint_height(b"checkpoint"), None);
    assert_eq!(checkpoint_height(b"checkpoints_1"), None);
    assert_eq!(checkpoint_height(b"checkpoint_4294967296"), None);
    assert_eq!(checkpoint_height(b"checkpoint_1a"), None);
    for h in [0u32, 9, 10, 999, 123456, u32::MAX] {
        assert_eq!(checkpoint_height(&checkpoint_name(h)), Some(h));
    }
}

#[test]
fn u32_text() {
    assert_eq!(u32_from_str(b"0"), Some(0));
    assert_eq!(u32_from_str(b"007"), Some(7));
    assert_eq!(u32_from_str(b"+15"), Some(15));
    assert_eq!(u32_from_str(b"+"), None);
    assert_eq!(u32_from_str(b""), None);
    assert_eq!(u32_from_str(b"-1"), None);
    assert_eq!(u32_from_str(b"4294967295"), Some(u32::MAX));
    assert_eq!(u32_from_str(b"4294967296"), None);
}

#[test]
fn checkpoint_frequency() {
    assert_eq!(CHECKPOINT_BLOCK_FREQUENCY, 1000);
    assert!(should_create_checkpoint(None, 5));
    assert!(!should_create_checkpoint(Some(100), 1099));
    assert!(should_create_checkpoint(Some(100), 1100));
    // A height below the last checkpoint counts as no progress.
    assert!(!should_create_checkpoint(Some(2000), 10));
}

#[test]
fn oldest_checkpoints_are_removed() {
    assert_eq!(MAX_AUTO_CHECKPOINTS, 5);
    assert!(checkpoints_to_remove(&[1000, 2000, 3000]).is_empty());
    assert!(checkpoints_to_remove(&[1000, 2000, 3000, 4000, 5000]).is_empty());
    let heights = [7000, 1000, 5000, 3000, 2000, 6000, 4000];
    let mut removed = checkpoints_to_remove(&heights);
    removed.sort();
    // The two lowest heights, 1000 and 2000, are at indices 1 and 4.
    assert_eq!(removed, vec![1, 4]);
}
