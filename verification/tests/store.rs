use cubestore::retention::{select_deletions, split_batches};
use cubestore::store::{BaseRocksStoreFs, SnapshotsConfig};

fn test_config() -> SnapshotsConfig {
    SnapshotsConfig {
        minimum_metastore_snapshots_count: 5,
        metastore_snapshots_lifetime: 86400,
        minimum_cachestore_snapshots_count: 3,
        cachestore_snapshots_lifetime: 3600,
        snapshots_deletion_batch_size: 100,
    }
}

#[test]
fn metastore_handle_reads_its_own_config() {
    let store = BaseRocksStoreFs::new_for_metastore(&test_config());
    assert_eq!(store.get_name(), "metastore");
    assert_eq!(store.minimum_snapshots_count, 5);
    assert_eq!(store.snapshots_lifetime, 86400);
    assert_eq!(store.snapshots_deletion_batch_size, 100);
}

#[test]
fn cachestore_handle_reads_its_own_config() {
    let store = BaseRocksStoreFs::new_for_cachestore(&test_config());
    assert_eq!(store.get_name(), "cachestore");
    assert_eq!(store.minimum_snapshots_count, 3);
    assert_eq!(store.snapshots_lifetime, 3600);
    assert_eq!(store.snapshots_deletion_batch_size, 100);
}

#[test]
fn store_paths_follow_the_persisted_layout() {
    let store = BaseRocksStoreFs::new_for_metastore(&test_config());
    assert_eq!(store.list_prefix().as_str(), "metastore-");
    assert_eq!(store.current_object_name().as_str(), "metastore-current");
    assert_eq!(store.snapshot_files_prefix(42).as_str(), "metastore-42");
    assert_eq!(store.snapshot_logs_prefix(42).as_str(), "metastore-42-logs");
}

#[test]
fn file_snapshot_number_matches_the_listing_parser() {
    let prefix = "metastore-".to_string();
    assert_eq!(
        BaseRocksStoreFs::metastore_file_snapshot_number(
            &prefix,
            &"metastore-77/000001.sst".to_string()
        ),
        Some(77)
    );
    assert_eq!(
        BaseRocksStoreFs::metastore_file_snapshot_number(
            &prefix,
            &"metastore-77-logs/3.flex".to_string()
        ),
        Some(77)
    );
    assert_eq!(
        BaseRocksStoreFs::metastore_file_snapshot_number(&prefix, &"metastore-current".to_string()),
        None
    );
}

#[test]
fn a_full_sweep_over_pages_deletes_only_expired_files() {
    let store = BaseRocksStoreFs::new_for_cachestore(&SnapshotsConfig {
        minimum_metastore_snapshots_count: 5,
        metastore_snapshots_lifetime: 86400,
        minimum_cachestore_snapshots_count: 2,
        cachestore_snapshots_lifetime: 100,
        snapshots_deletion_batch_size: 2,
    });
    // now = 500_000 ms, lifetime 100 s: the cutoff is 400_000 ms.
    let mut sweep = store.sweep_begin(500_000);
    let prefix = store.list_prefix();
    let page_one: Vec<String> = vec![
        "cachestore-10000/a.sst".to_string(),
        "cachestore-450000/a.sst".to_string(),
        "cachestore-10000/b.sst".to_string(),
    ];
    let page_two: Vec<String> = vec![
        "cachestore-460000/a.sst".to_string(),
        "cachestore-20000/a.sst".to_string(),
        "cachestore-current".to_string(),
    ];
    sweep.observe_page(&prefix, &page_one);
    sweep.observe_page(&prefix, &page_two);
    assert_eq!(sweep.retained_snapshot_ids(), vec![450000, 460000]);
    let threshold = sweep.deletion_cutoff().expect("old snapshots are present");
    assert_eq!(threshold, 400_000);
    // The second pass re-lists and deletes below the threshold, in batches.
    let doomed_one = select_deletions(&prefix, &page_one, threshold);
    assert_eq!(
        doomed_one,
        vec![
            "cachestore-10000/a.sst".to_string(),
            "cachestore-10000/b.sst".to_string(),
        ]
    );
    let doomed_two = select_deletions(&prefix, &page_two, threshold);
    assert_eq!(doomed_two, vec!["cachestore-20000/a.sst".to_string()]);
    let batches = split_batches(&doomed_one, store.snapshots_deletion_batch_size);
    assert_eq!(batches.len(), 1);
    assert_eq!(batches[0].len(), 2);
}
